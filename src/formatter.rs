use vstd::prelude::*;

use crate::annotation::{
    opt_view,
    accepted_predicates,
    bound_candidates,
    contains_text,
    parse_debug_annotations_with,
    scan_debug,
    AnnotationError,
    AnnotationFault,
    RawAnnotation,
};
use crate::builder::Member;
use crate::shape::{GenericArg, Segment, TypeExpr};
use crate::text::texts;

verus! {

/// A generic parameter used as the receiver of a nested path: the
/// parameter, and the whole path's text (`T` and `T::Item`).
#[derive(Debug)]
pub struct Occurrence {
    pub receiver: String,
    pub path: String,
}

pub open spec fn occ_view(o: Occurrence) -> (Seq<char>, Seq<char>) {
    (o.receiver@, o.path@)
}

pub open spec fn occs_view(os: Seq<Occurrence>) -> Seq<(Seq<char>, Seq<char>)> {
    os.map_values(|o: Occurrence| occ_view(o))
}

/// A path whose first segment is one of `params` and that goes on past it.
pub open spec fn nested_receiver(ids: Seq<Seq<char>>, params: Seq<Seq<char>>) -> bool {
    ids.len() > 1 && params.contains(ids[0])
}

/// The occurrence that a type itself makes, where it is such a path.
pub open spec fn head_occ(ty: TypeExpr, params: Seq<Seq<char>>) -> Seq<(Seq<char>, Seq<char>)> {
    match ty.path {
        Some(segs) => if nested_receiver(idents_of(segs@), params) {
            seq![(segs@[0].ident@, ty.text@)]
        } else {
            Seq::empty()
        },
        None => Seq::empty(),
    }
}

/// The occurrences of a type, at every depth and in order: the type itself,
/// then those in its segments' type arguments.
pub open spec fn type_occ(ty: TypeExpr, params: Seq<Seq<char>>) -> Seq<(Seq<char>, Seq<char>)>
    decreases ty,
{
    match ty.path {
        Some(segs) => head_occ(ty, params) + segs_occ(segs@, params),
        None => Seq::empty(),
    }
}

/// The occurrences in the arguments of each segment, in order.
pub open spec fn segs_occ(segs: Seq<Segment>, params: Seq<Seq<char>>) -> Seq<
    (Seq<char>, Seq<char>),
>
    decreases segs,
{
    if segs.len() == 0 {
        Seq::empty()
    } else {
        segs_occ(segs.drop_last(), params) + args_occ(segs.last().args@, params)
    }
}

/// The occurrences in a list of arguments, in order.
pub open spec fn args_occ(args: Seq<GenericArg>, params: Seq<Seq<char>>) -> Seq<
    (Seq<char>, Seq<char>),
>
    decreases args,
{
    if args.len() == 0 {
        Seq::empty()
    } else {
        args_occ(args.drop_last(), params) + arg_occ(args.last(), params)
    }
}

/// The occurrences in one argument: those of its type, if it is one.
pub open spec fn arg_occ(a: GenericArg, params: Seq<Seq<char>>) -> Seq<(Seq<char>, Seq<char>)>
    decreases a,
{
    match a {
        GenericArg::Type(t) => type_occ(t, params),
        GenericArg::NotType => Seq::empty(),
    }
}

/// The identifiers of a path's segments.
pub open spec fn idents_of(segs: Seq<Segment>) -> Seq<Seq<char>> {
    segs.map_values(|s: Segment| s.ident@)
}

/// Whether `s` is one of `params`.
pub fn is_param(params: &Vec<String>, s: &String) -> (r: bool)
    ensures
        r == texts(params@).contains(s@),
{
    contains_text(params, s)
}

fn push_type_occ(ty: &TypeExpr, params: &Vec<String>, out: &mut Vec<Occurrence>)
    ensures
        occs_view(final(out)@) == occs_view(old(out)@) + type_occ(*ty, texts(params@)),
    decreases ty,
{
    let ghost before = occs_view(out@);
    match &ty.path {
        None => {
            assert(occs_view(out@) =~= before + type_occ(*ty, texts(params@)));
        },
        Some(segs) => {
            if segs.len() > 1 && is_param(params, &segs[0].ident) {
                out.push(Occurrence { receiver: segs[0].ident.clone(), path: ty.text.clone() });
            }
            proof {
                assert(idents_of(segs@).len() == segs@.len());
                if segs.len() > 1 {
                    assert(idents_of(segs@)[0] == segs@[0].ident@);
                }
            }
            let ghost head = occs_view(out@);
            assert(head =~= before + head_occ(*ty, texts(params@)));
            push_segs_occ(segs, params, out);
            assert(occs_view(out@) =~= before + type_occ(*ty, texts(params@)));
        },
    }
}

fn push_segs_occ(segs: &Vec<Segment>, params: &Vec<String>, out: &mut Vec<Occurrence>)
    ensures
        occs_view(final(out)@) == occs_view(old(out)@) + segs_occ(segs@, texts(params@)),
    decreases segs,
{
    let ghost start = occs_view(out@);
    let mut i: usize = 0;
    while i < segs.len()
        invariant
            i <= segs.len(),
            occs_view(out@) == start + segs_occ(segs@.subrange(0, i as int), texts(params@)),
        decreases segs.len() - i,
    {
        proof {
            assert(segs@.subrange(0, i as int + 1).drop_last() =~= segs@.subrange(0, i as int));
            assert(decreases_to!(segs => segs@[i as int]));
        }
        push_args_occ(&segs[i].args, params, out);
        i = i + 1;
        proof {
            assert(occs_view(out@) =~= start + segs_occ(
                segs@.subrange(0, i as int),
                texts(params@),
            ));
        }
    }
    proof {
        assert(segs@.subrange(0, segs.len() as int) =~= segs@);
    }
}

fn push_args_occ(args: &Vec<GenericArg>, params: &Vec<String>, out: &mut Vec<Occurrence>)
    ensures
        occs_view(final(out)@) == occs_view(old(out)@) + args_occ(args@, texts(params@)),
    decreases args,
{
    let ghost start = occs_view(out@);
    let mut i: usize = 0;
    while i < args.len()
        invariant
            i <= args.len(),
            occs_view(out@) == start + args_occ(args@.subrange(0, i as int), texts(params@)),
        decreases args.len() - i,
    {
        proof {
            assert(args@.subrange(0, i as int + 1).drop_last() =~= args@.subrange(0, i as int));
            assert(decreases_to!(args => args@[i as int]));
        }
        let ghost mid = occs_view(out@);
        match &args[i] {
            GenericArg::Type(t) => {
                push_type_occ(t, params, out);
                assert(arg_occ(args@[i as int], texts(params@)) == type_occ(*t, texts(params@)));
            },
            GenericArg::NotType => {
                assert(arg_occ(args@[i as int], texts(params@)) =~= Seq::empty());
                assert(occs_view(out@) =~= mid + arg_occ(args@[i as int], texts(params@)));
            },
        }
        assert(args@.subrange(0, i as int + 1).last() == args@[i as int]);
        i = i + 1;
        proof {
            assert(occs_view(out@) =~= start + args_occ(
                args@.subrange(0, i as int),
                texts(params@),
            ));
        }
    }
    proof {
        assert(args@.subrange(0, args.len() as int) =~= args@);
    }
}

/// The generic parameters used as receivers of nested paths in `ty`, each
/// with that path, at every depth and in order: the type itself first, then
/// its segments' type arguments.
pub fn associated_occurrences(ty: &TypeExpr, params: &Vec<String>) -> (r: Vec<Occurrence>)
    ensures
        occs_view(r@) == type_occ(*ty, texts(params@)),
{
    let mut out: Vec<Occurrence> = Vec::new();
    push_type_occ(ty, params, &mut out);
    assert(occs_view(out@) =~= Seq::empty() + type_occ(*ty, texts(params@)));
    out
}

/// A record declaration with its generic type parameters.
#[derive(Debug)]
pub struct CustomDebugInput {
    pub name: String,
    pub generics: Vec<String>,
    pub attrs: Vec<RawAnnotation>,
    pub members: Vec<Member>,
    pub loc: usize,
}

/// How a member is rendered: with its own formatting, or through a format
/// string.
#[derive(Debug)]
pub enum Render {
    Default,
    Custom(String),
}

/// One rendered member: the label it is shown under, and how.
#[derive(Debug)]
pub struct RenderedField {
    pub name: String,
    pub render: Render,
}

/// A `where` predicate of the formatting implementation.
#[derive(Debug)]
pub enum Predicate {
    /// Given by an annotation, used as written.
    Verbatim(String),
    /// The path must support formatting.
    Formattable(String),
}

/// The bounds of the formatting implementation.
#[derive(Debug)]
pub enum Bounds {
    /// The declaration's own predicate, used as written.
    Override(String),
    /// The parameters that get the blanket formatting bound, and the
    /// targeted predicates.
    Inferred { blanket: Vec<String>, targeted: Vec<Predicate> },
}

/// The formatting implementation of a record: the label, the members in
/// declaration order, the bounds.
#[derive(Debug)]
pub struct FormatterPlan {
    pub label: String,
    pub fields: Vec<RenderedField>,
    pub bounds: Bounds,
}

#[derive(Debug)]
pub enum FormatError {
    Annotation(AnnotationError),
    /// A format string stands on the declaration itself; it belongs on members.
    FormatOnDeclaration { loc: usize },
}

pub ghost enum PredView {
    Verbatim(Seq<char>),
    Formattable(Seq<char>),
}

pub ghost enum BoundsView {
    Override(Seq<char>),
    Inferred(Seq<Seq<char>>, Seq<PredView>),
}

pub ghost enum FormatFault {
    Annotation(AnnotationFault),
    FormatOnDeclaration(usize),
}

/// A formatting implementation as a value.
pub ghost struct FormatterView {
    pub label: Seq<char>,
    pub fields: Seq<(Seq<char>, Option<Seq<char>>)>,
    pub bounds: BoundsView,
}

pub open spec fn field_view(f: RenderedField) -> (Seq<char>, Option<Seq<char>>) {
    (
        f.name@,
        match f.render {
            Render::Default => None,
            Render::Custom(s) => Some(s@),
        },
    )
}

pub open spec fn fields_view(fs: Seq<RenderedField>) -> Seq<(Seq<char>, Option<Seq<char>>)> {
    fs.map_values(|f: RenderedField| field_view(f))
}

pub open spec fn pred_view(p: Predicate) -> PredView {
    match p {
        Predicate::Verbatim(s) => PredView::Verbatim(s@),
        Predicate::Formattable(s) => PredView::Formattable(s@),
    }
}

pub open spec fn preds_view(ps: Seq<Predicate>) -> Seq<PredView> {
    ps.map_values(|p: Predicate| pred_view(p))
}

pub open spec fn bounds_view(b: Bounds) -> BoundsView {
    match b {
        Bounds::Override(s) => BoundsView::Override(s@),
        Bounds::Inferred { blanket, targeted } => BoundsView::Inferred(
            texts(blanket@),
            preds_view(targeted@),
        ),
    }
}

pub open spec fn plan_view(p: FormatterPlan) -> FormatterView {
    FormatterView { label: p.label@, fields: fields_view(p.fields@), bounds: bounds_view(p.bounds) }
}

pub open spec fn fault_view(e: FormatError) -> FormatFault {
    match e {
        FormatError::Annotation(a) => FormatFault::Annotation(a@),
        FormatError::FormatOnDeclaration { loc } => FormatFault::FormatOnDeclaration(loc),
    }
}

/// What the members scanned so far contribute.
pub ghost struct MemberScan {
    pub fields: Seq<(Seq<char>, Option<Seq<char>>)>,
    pub preds: Seq<PredView>,
    pub receivers: Seq<Seq<char>>,
}

/// A member's predicates: its own bound where it has one, else a
/// formatting predicate per associated path in its type.
pub open spec fn member_preds(m: Member, bound: Option<Seq<char>>, params: Seq<Seq<char>>) -> Seq<
    PredView,
> {
    match bound {
        Some(b) => seq![PredView::Verbatim(b)],
        None => type_occ(m.ty, params).map_values(
            |o: (Seq<char>, Seq<char>)| PredView::Formattable(o.1),
        ),
    }
}

/// The parameters a member exempts from the blanket bound: the receivers of
/// the associated paths in its type, unless it has its own bound.
pub open spec fn member_receivers(m: Member, bound: Option<Seq<char>>, params: Seq<Seq<char>>) -> Seq<
    Seq<char>,
> {
    match bound {
        Some(_) => Seq::empty(),
        None => type_occ(m.ty, params).map_values(|o: (Seq<char>, Seq<char>)| o.0),
    }
}

/// Scans the members in order: their renderings, predicates and exempted
/// parameters; the first annotation that cannot be read fails.
pub open spec fn scan_members(
    ms: Seq<Member>,
    params: Seq<Seq<char>>,
    ok: Seq<Seq<char>>,
) -> Result<
    MemberScan,
    AnnotationFault,
>
    decreases ms.len(),
{
    if ms.len() == 0 {
        Ok(MemberScan { fields: Seq::empty(), preds: Seq::empty(), receivers: Seq::empty() })
    } else {
        match scan_members(ms.drop_last(), params, ok) {
            Err(f) => Err(f),
            Ok(sc) => {
                let m = ms.last();
                match scan_debug(m.attrs@, None, None, ok) {
                    Err(f) => Err(f),
                    Ok(v) => Ok(
                        MemberScan {
                            fields: sc.fields.push((m.name@, v.0)),
                            preds: sc.preds + member_preds(m, v.1, params),
                            receivers: sc.receivers + member_receivers(m, v.1, params),
                        },
                    ),
                }
            },
        }
    }
}

/// The parameters, in order, that are not among `receivers`.
pub open spec fn unconstrained(params: Seq<Seq<char>>, receivers: Seq<Seq<char>>) -> Seq<Seq<char>>
    decreases params.len(),
{
    if params.len() == 0 {
        Seq::empty()
    } else {
        unconstrained(params.drop_last(), receivers) + (if receivers.contains(params.last()) {
            Seq::empty()
        } else {
            seq![params.last()]
        })
    }
}

/// The formatting implementation of a declaration: the declaration carries
/// no format string; each member is rendered under its name, through its
/// format string where it has one; the declaration's own bound is used as
/// written, else each parameter not exempted by an associated path gets the
/// blanket bound beside the members' predicates.
pub open spec fn formatter_spec(d: CustomDebugInput, ok: Seq<Seq<char>>) -> Result<
    FormatterView,
    FormatFault,
> {
    match scan_debug(d.attrs@, None, None, ok) {
        Err(f) => Err(FormatFault::Annotation(f)),
        Ok(v) => if v.0 is Some {
            Err(FormatFault::FormatOnDeclaration(d.loc))
        } else {
            match scan_members(d.members@, texts(d.generics@), ok) {
                Err(f) => Err(FormatFault::Annotation(f)),
                Ok(sc) => Ok(
                    FormatterView {
                        label: d.name@,
                        fields: sc.fields,
                        bounds: match v.1 {
                            Some(b) => BoundsView::Override(b),
                            None => BoundsView::Inferred(
                                unconstrained(texts(d.generics@), sc.receivers),
                                sc.preds,
                            ),
                        },
                    },
                ),
            }
        },
    }
}

proof fn lemma_scan_prefix_err(ms: Seq<Member>, params: Seq<Seq<char>>, ok: Seq<Seq<char>>, n: int)
    requires
        0 <= n <= ms.len(),
        scan_members(ms.subrange(0, n), params, ok) is Err,
    ensures
        scan_members(ms, params, ok) == scan_members(ms.subrange(0, n), params, ok),
    decreases ms.len() - n,
{
    if n < ms.len() {
        assert(ms.subrange(0, n + 1).drop_last() =~= ms.subrange(0, n));
        lemma_scan_prefix_err(ms, params, ok, n + 1);
    } else {
        assert(ms.subrange(0, n) =~= ms);
    }
}

fn scan_member(
    m: &Member,
    params: &Vec<String>,
    accepted: &Vec<String>,
    fields: &mut Vec<RenderedField>,
    preds: &mut Vec<Predicate>,
    receivers: &mut Vec<String>,
) -> (r: Result<(), AnnotationError>)
    ensures
        match scan_debug(m.attrs@, None, None, texts(accepted@)) {
            Err(f) => r is Err && (r->Err_0)@ == f,
            Ok(v) => {
                &&& r is Ok
                &&& fields_view(final(fields)@) == fields_view(old(fields)@).push((m.name@, v.0))
                &&& preds_view(final(preds)@) == preds_view(old(preds)@) + member_preds(
                    *m,
                    v.1,
                    texts(params@),
                )
                &&& texts(final(receivers)@) == texts(old(receivers)@) + member_receivers(
                    *m,
                    v.1,
                    texts(params@),
                )
            },
        },
{
    let ghost ok = texts(accepted@);
    let a = match parse_debug_annotations_with(&m.attrs, accepted) {
        Ok(a) => a,
        Err(e) => {
            return Err(e);
        },
    };
    let ghost f0 = fields_view(fields@);
    let ghost p0 = preds_view(preds@);
    let ghost r0 = texts(receivers@);
    let render = match &a.format {
        Some(s) => Render::Custom(s.clone()),
        None => Render::Default,
    };
    let rf = RenderedField { name: m.name.clone(), render };
    fields.push(rf);
    assert(fields_view(fields@) =~= f0.push(field_view(rf)));
    match &a.bound {
        Some(b) => {
            let pr = Predicate::Verbatim(b.clone());
            preds.push(pr);
            assert(preds_view(preds@) =~= p0 + seq![pred_view(pr)]);
            assert(texts(receivers@) =~= r0 + Seq::<Seq<char>>::empty());
        },
        None => {
            let occ = associated_occurrences(&m.ty, params);
            let ghost ov = occs_view(occ@);
            let mut i: usize = 0;
            while i < occ.len()
                invariant
                    i <= occ.len(),
                    ov == occs_view(occ@),
                    preds_view(preds@) == p0 + ov.subrange(0, i as int).map_values(
                        |o: (Seq<char>, Seq<char>)| PredView::Formattable(o.1),
                    ),
                    texts(receivers@) == r0 + ov.subrange(0, i as int).map_values(
                        |o: (Seq<char>, Seq<char>)| o.0,
                    ),
                decreases occ.len() - i,
            {
                let pr = Predicate::Formattable(occ[i].path.clone());
                let rc = occ[i].receiver.clone();
                let ghost pp = preds@;
                let ghost rr = receivers@;
                preds.push(pr);
                receivers.push(rc);
                proof {
                    assert(preds_view(preds@) =~= preds_view(pp).push(pred_view(pr)));
                    assert(texts(receivers@) =~= texts(rr).push(rc@));
                    assert(ov.subrange(0, i as int + 1) =~= ov.subrange(0, i as int).push(
                        ov[i as int],
                    ));
                    assert(preds_view(preds@) =~= p0 + ov.subrange(0, i as int + 1).map_values(
                        |o: (Seq<char>, Seq<char>)| PredView::Formattable(o.1),
                    ));
                    assert(texts(receivers@) =~= r0 + ov.subrange(0, i as int + 1).map_values(
                        |o: (Seq<char>, Seq<char>)| o.0,
                    ));
                }
                i = i + 1;
            }
            proof {
                assert(ov.subrange(0, occ.len() as int) =~= ov);
            }
        },
    }
    Ok(())
}

fn blanket_params(params: &Vec<String>, receivers: &Vec<String>) -> (r: Vec<String>)
    ensures
        texts(r@) == unconstrained(texts(params@), texts(receivers@)),
{
    let mut out: Vec<String> = Vec::new();
    let mut i: usize = 0;
    while i < params.len()
        invariant
            i <= params.len(),
            texts(out@) == unconstrained(texts(params@.subrange(0, i as int)), texts(receivers@)),
        decreases params.len() - i,
    {
        proof {
            assert(texts(params@.subrange(0, i as int + 1)).drop_last() =~= texts(
                params@.subrange(0, i as int),
            ));
            assert(texts(params@.subrange(0, i as int + 1)).last() == params@[i as int]@);
        }
        let ghost prev = out@;
        if !is_param(receivers, &params[i]) {
            let p = params[i].clone();
            out.push(p);
            assert(texts(out@) =~= texts(prev) + seq![p@]);
        } else {
            assert(texts(out@) =~= texts(prev) + Seq::<Seq<char>>::empty());
        }
        i = i + 1;
    }
    proof {
        assert(params@.subrange(0, params.len() as int) =~= params@);
    }
    out
}

/// `r` is what formatter synthesis gives for `d`.
pub open spec fn formatter_output(
    d: CustomDebugInput,
    ok: Seq<Seq<char>>,
    r: Result<FormatterPlan, FormatError>,
) -> bool {
    match formatter_spec(d, ok) {
        Ok(v) => r is Ok && plan_view(r->Ok_0) == v,
        Err(f) => r is Err && fault_view(r->Err_0) == f,
    }
}

/// Formatter synthesis is idempotent: run twice on the same declaration, it
/// gives the same implementation, or the same error.
pub proof fn law_formatter_idempotent(
    d: CustomDebugInput,
    ok: Seq<Seq<char>>,
    a: Result<FormatterPlan, FormatError>,
    b: Result<FormatterPlan, FormatError>,
)
    requires
        formatter_output(d, ok, a),
        formatter_output(d, ok, b),
    ensures
        a is Ok <==> b is Ok,
        a is Ok ==> plan_view(a->Ok_0) == plan_view(b->Ok_0),
        a is Err ==> fault_view(a->Err_0) == fault_view(b->Err_0),
{
}

impl CustomDebugInput {
    /// Synthesizes the formatting implementation of the declaration, a
    /// `bound` value being accepted where it is one of `accepted`.
    pub fn debug_impl_with(&self, accepted: &Vec<String>) -> (r: Result<FormatterPlan, FormatError>)
        ensures
            formatter_output(*self, texts(accepted@), r),
    {
        let ghost ok = texts(accepted@);
        let own = match parse_debug_annotations_with(&self.attrs, accepted) {
            Ok(a) => a,
            Err(e) => {
                return Err(FormatError::Annotation(e));
            },
        };
        if own.format.is_some() {
            return Err(FormatError::FormatOnDeclaration { loc: self.loc });
        }
        let mut fields: Vec<RenderedField> = Vec::new();
        let mut preds: Vec<Predicate> = Vec::new();
        let mut receivers: Vec<String> = Vec::new();
        let ghost params = texts(self.generics@);
        let mut i: usize = 0;
        proof {
            assert(self.members@.subrange(0, 0) =~= Seq::<Member>::empty());
            assert(fields_view(fields@) =~= Seq::empty());
            assert(preds_view(preds@) =~= Seq::empty());
            assert(texts(receivers@) =~= Seq::empty());
        }
        while i < self.members.len()
            invariant
                i <= self.members.len(),
                params == texts(self.generics@),
                ok == texts(accepted@),
                scan_debug(self.attrs@, None, None, ok) is Ok,
                scan_debug(self.attrs@, None, None, ok)->Ok_0.0 is None,
                opt_view(own.bound) == scan_debug(self.attrs@, None, None, ok)->Ok_0.1,
                scan_members(self.members@.subrange(0, i as int), params, ok) is Ok,
                ({
                    let sc = scan_members(self.members@.subrange(0, i as int), params, ok)->Ok_0;
                    &&& fields_view(fields@) == sc.fields
                    &&& preds_view(preds@) == sc.preds
                    &&& texts(receivers@) == sc.receivers
                }),
            decreases self.members.len() - i,
        {
            proof {
                assert(self.members@.subrange(0, i as int + 1).drop_last() =~= self.members@.subrange(
                    0,
                    i as int,
                ));
            }
            match scan_member(&self.members[i], &self.generics, accepted, &mut fields, &mut preds, &mut receivers) {
                Ok(()) => {},
                Err(e) => {
                    proof {
                        lemma_scan_prefix_err(self.members@, params, ok, i as int + 1);
                    }
                    return Err(FormatError::Annotation(e));
                },
            }
            i = i + 1;
        }
        proof {
            assert(self.members@.subrange(0, self.members.len() as int) =~= self.members@);
        }
        let bounds = match own.bound {
            Some(b) => Bounds::Override(b),
            None => Bounds::Inferred {
                blanket: blanket_params(&self.generics, &receivers),
                targeted: preds,
            },
        };
        Ok(FormatterPlan { label: self.name.clone(), fields, bounds })
    }

    /// Synthesizes the formatting implementation of the declaration, each
    /// `bound` value checked by parsing it as a `where` predicate. Whatever
    /// that parse answers, the result is what `debug_impl_with` gives for some
    /// set of accepted predicates.
    pub fn debug_impl(&self) -> (r: Result<FormatterPlan, FormatError>)
        ensures
            exists|ok: Seq<Seq<char>>| #[trigger] formatter_output(*self, ok, r),
    {
        let mut candidates: Vec<String> = Vec::new();
        bound_candidates(&self.attrs, &mut candidates);
        let mut i: usize = 0;
        while i < self.members.len()
            decreases self.members.len() - i,
        {
            bound_candidates(&self.members[i].attrs, &mut candidates);
            i = i + 1;
        }
        let accepted = accepted_predicates(&candidates);
        let r = self.debug_impl_with(&accepted);
        assert(formatter_output(*self, texts(accepted@), r));
        r
    }
}

proof fn lemma_unconstrained(params: Seq<Seq<char>>, receivers: Seq<Seq<char>>, p: Seq<char>)
    ensures
        unconstrained(params, receivers).contains(p) <==> (params.contains(p)
            && !receivers.contains(p)),
    decreases params.len(),
{
    if params.len() > 0 {
        let front = params.drop_last();
        lemma_unconstrained(front, receivers, p);
        let u = unconstrained(front, receivers);
        let tail = if receivers.contains(params.last()) {
            Seq::<Seq<char>>::empty()
        } else {
            seq![params.last()]
        };
        if (u + tail).contains(p) {
            let i = choose|i: int| 0 <= i < (u + tail).len() && (u + tail)[i] == p;
            if i < u.len() {
                assert(u[i] == p);
                let m = choose|m: int| 0 <= m < front.len() && front[m] == p;
                assert(params[m] == p);
            } else {
                assert(params[params.len() - 1] == p);
            }
        }
        if params.contains(p) && !receivers.contains(p) {
            let m = choose|m: int| 0 <= m < params.len() && params[m] == p;
            if m < params.len() - 1 {
                assert(front[m] == p);
                let i = choose|i: int| 0 <= i < u.len() && u[i] == p;
                assert((u + tail)[i] == p);
            } else {
                assert((u + tail)[u.len() as int] == p);
            }
        }
    }
}

proof fn lemma_member_included(ms: Seq<Member>, params: Seq<Seq<char>>, ok: Seq<Seq<char>>, k: int, j: int)
    requires
        scan_members(ms, params, ok) is Ok,
        0 <= k < ms.len(),
        scan_debug(ms[k].attrs@, None, None, ok) is Ok,
        scan_debug(ms[k].attrs@, None, None, ok)->Ok_0.1 is None,
        0 <= j < type_occ(ms[k].ty, params).len(),
    ensures
        scan_members(ms, params, ok)->Ok_0.preds.contains(
            PredView::Formattable(type_occ(ms[k].ty, params)[j].1),
        ),
        scan_members(ms, params, ok)->Ok_0.receivers.contains(type_occ(ms[k].ty, params)[j].0),
    decreases ms.len(),
{
    let front = ms.drop_last();
    let sc = scan_members(ms, params, ok)->Ok_0;
    let o = type_occ(ms[k].ty, params)[j];
    if k == ms.len() - 1 {
        let prev = scan_members(front, params, ok)->Ok_0;
        let mp = member_preds(ms[k], None, params);
        let mr = member_receivers(ms[k], None, params);
        assert(sc.preds == prev.preds + mp);
        assert(sc.preds[prev.preds.len() + j] == mp[j]);
        assert(sc.receivers[prev.receivers.len() + j] == mr[j]);
    } else {
        assert(front[k] == ms[k]);
        lemma_member_included(front, params, ok, k, j);
        let prev = scan_members(front, params, ok)->Ok_0;
        let i = choose|i: int|
            0 <= i < prev.preds.len() && prev.preds[i] == PredView::Formattable(o.1);
        assert(sc.preds[i] == prev.preds[i]);
        let i2 = choose|i2: int| 0 <= i2 < prev.receivers.len() && prev.receivers[i2] == o.0;
        assert(sc.receivers[i2] == prev.receivers[i2]);
    }
}

/// Bound inference, blanket part: where the declaration has no bound of its
/// own, a generic parameter gets the blanket formatting bound exactly when no
/// member (without a bound of its own) uses it as the receiver of an
/// associated path. In particular a parameter used directly as a member's
/// type, and never through such a path, gets it.
pub proof fn law_blanket_bound(d: CustomDebugInput, ok: Seq<Seq<char>>, p: Seq<char>)
    requires
        formatter_spec(d, ok) is Ok,
        formatter_spec(d, ok)->Ok_0.bounds is Inferred,
    ensures
        formatter_spec(d, ok)->Ok_0.bounds->Inferred_0.contains(p) <==> (texts(d.generics@).contains(p)
            && !scan_members(d.members@, texts(d.generics@), ok)->Ok_0.receivers.contains(p)),
{
    lemma_unconstrained(
        texts(d.generics@),
        scan_members(d.members@, texts(d.generics@), ok)->Ok_0.receivers,
        p,
    );
}

/// Bound inference, targeted part: where the declaration has no bound of its
/// own, each associated path `T::Item` in a member's type (the member having
/// no bound of its own) gets a formatting predicate of its own, and its
/// receiver `T` gets no blanket bound.
pub proof fn law_associated_path_bound(d: CustomDebugInput, ok: Seq<Seq<char>>, k: int, j: int)
    requires
        formatter_spec(d, ok) is Ok,
        formatter_spec(d, ok)->Ok_0.bounds is Inferred,
        0 <= k < d.members@.len(),
        scan_debug(d.members@[k].attrs@, None, None, ok)->Ok_0.1 is None,
        0 <= j < type_occ(d.members@[k].ty, texts(d.generics@)).len(),
    ensures
        formatter_spec(d, ok)->Ok_0.bounds->Inferred_1.contains(
            PredView::Formattable(type_occ(d.members@[k].ty, texts(d.generics@))[j].1),
        ),
        !formatter_spec(d, ok)->Ok_0.bounds->Inferred_0.contains(
            type_occ(d.members@[k].ty, texts(d.generics@))[j].0,
        ),
{
    let params = texts(d.generics@);
    lemma_scan_ok_member(d.members@, params, ok, k);
    lemma_member_included(d.members@, params, ok, k, j);
    lemma_unconstrained(
        params,
        scan_members(d.members@, params, ok)->Ok_0.receivers,
        type_occ(d.members@[k].ty, params)[j].0,
    );
}

proof fn lemma_scan_ok_member(ms: Seq<Member>, params: Seq<Seq<char>>, ok: Seq<Seq<char>>, k: int)
    requires
        scan_members(ms, params, ok) is Ok,
        0 <= k < ms.len(),
    ensures
        scan_debug(ms[k].attrs@, None, None, ok) is Ok,
    decreases ms.len(),
{
    if k < ms.len() - 1 {
        assert(ms.drop_last()[k] == ms[k]);
        lemma_scan_ok_member(ms.drop_last(), params, ok, k);
    }
}

} // verus!
