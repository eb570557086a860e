use vstd::prelude::*;

use crate::annotation::{
    opt_view,
    parse_builder_annotations,
    scan_builder,
    AnnotationError,
    AnnotationFault,
    RawAnnotation,
};
use crate::shape::{
    classify,
    classify_spec,
    collection_spellings,
    wrapper_inner,
    ClassView,
    Classification,
    TypeExpr,
};

verus! {

/// A field of a record declaration, as the host's parser gives it.
#[derive(Debug)]
pub struct Member {
    pub name: String,
    pub ty: TypeExpr,
    pub attrs: Vec<RawAnnotation>,
    pub loc: usize,
}

/// A classified member: its name, the text of its declared type, its role.
#[derive(Debug)]
pub struct ModelEntry {
    pub name: String,
    pub ty: String,
    pub class: Classification,
}

/// A model entry as a value.
pub ghost struct EntryView {
    pub name: Seq<char>,
    pub ty: Seq<char>,
    pub class: ClassView,
}

pub open spec fn entry_view(e: ModelEntry) -> EntryView {
    EntryView { name: e.name@, ty: e.ty@, class: e.class@ }
}

pub open spec fn entries_view(es: Seq<ModelEntry>) -> Seq<EntryView> {
    es.map_values(|e: ModelEntry| entry_view(e))
}

#[derive(Debug)]
pub enum ModelError {
    /// A member's annotation could not be read.
    Annotation(AnnotationError),
    /// A member has an `each` annotation but no collection type.
    ShapeMismatch { member: String, loc: usize },
    /// Two members' mutators would share the name `method`.
    MutatorCollision { method: String, first: String, second: String },
}

/// A model error as a value.
pub ghost enum ModelFault {
    Annotation(AnnotationFault),
    ShapeMismatch(Seq<char>, usize),
    MutatorCollision(Seq<char>, Seq<char>, Seq<char>),
}

impl View for ModelError {
    type V = ModelFault;

    open spec fn view(&self) -> ModelFault {
        match self {
            ModelError::Annotation(e) => ModelFault::Annotation(e@),
            ModelError::ShapeMismatch { member, loc } => ModelFault::ShapeMismatch(member@, *loc),
            ModelError::MutatorCollision { method, first, second } => ModelFault::MutatorCollision(
                method@,
                first@,
                second@,
            ),
        }
    }
}

/// The model entry of one member, or why it has none.
pub open spec fn member_entry(m: Member) -> Result<EntryView, ModelFault> {
    match scan_builder(m.attrs@, None) {
        Err(f) => Err(ModelFault::Annotation(f)),
        Ok(each) => match classify_spec(m.ty, each) {
            None => Err(ModelFault::ShapeMismatch(m.name@, m.loc)),
            Some(c) => Ok(EntryView { name: m.name@, ty: m.ty.text@, class: c }),
        },
    }
}

/// The model of a member list, in declaration order; the first member that
/// has no entry fails the whole.
pub open spec fn model_spec(ms: Seq<Member>) -> Result<Seq<EntryView>, ModelFault>
    decreases ms.len(),
{
    if ms.len() == 0 {
        Ok(Seq::empty())
    } else {
        match model_spec(ms.drop_last()) {
            Err(f) => Err(f),
            Ok(front) => match member_entry(ms.last()) {
                Err(f) => Err(f),
                Ok(e) => Ok(front.push(e)),
            },
        }
    }
}

proof fn lemma_model_prefix_err(ms: Seq<Member>, n: int)
    requires
        0 <= n <= ms.len(),
        model_spec(ms.subrange(0, n)) is Err,
    ensures
        model_spec(ms) == model_spec(ms.subrange(0, n)),
    decreases ms.len() - n,
{
    if n < ms.len() {
        assert(ms.subrange(0, n + 1).drop_last() =~= ms.subrange(0, n));
        lemma_model_prefix_err(ms, n + 1);
    } else {
        assert(ms.subrange(0, n) =~= ms);
    }
}

fn model_entry(m: &Member) -> (r: Result<ModelEntry, ModelError>)
    ensures
        match member_entry(*m) {
            Ok(e) => r is Ok && entry_view(r->Ok_0) == e,
            Err(f) => r is Err && (r->Err_0)@ == f,
        },
{
    let each = match parse_builder_annotations(&m.attrs) {
        Ok(each) => each,
        Err(e) => {
            return Err(ModelError::Annotation(e));
        },
    };
    assert(opt_view(each) == scan_builder(m.attrs@, None)->Ok_0);
    match classify(&m.ty, each) {
        Some(class) => Ok(ModelEntry { name: m.name.clone(), ty: m.ty.text.clone(), class }),
        None => Err(ModelError::ShapeMismatch { member: m.name.clone(), loc: m.loc }),
    }
}

/// Builds the model of a record's members: each member's `builder`
/// annotations are read and its type classified, in declaration order.
pub fn build_model(ms: &Vec<Member>) -> (r: Result<Vec<ModelEntry>, ModelError>)
    ensures
        match model_spec(ms@) {
            Ok(es) => r is Ok && entries_view(r->Ok_0@) == es,
            Err(f) => r is Err && (r->Err_0)@ == f,
        },
{
    let mut out: Vec<ModelEntry> = Vec::new();
    let mut i: usize = 0;
    while i < ms.len()
        invariant
            i <= ms.len(),
            model_spec(ms@.subrange(0, i as int)) is Ok,
            entries_view(out@) == model_spec(ms@.subrange(0, i as int))->Ok_0,
        decreases ms.len() - i,
    {
        proof {
            assert(ms@.subrange(0, i as int + 1).drop_last() =~= ms@.subrange(0, i as int));
        }
        match model_entry(&ms[i]) {
            Ok(e) => {
                let ghost prev = out@;
                out.push(e);
                proof {
                    assert(entries_view(out@) =~= entries_view(prev).push(entry_view(e)));
                }
            },
            Err(e) => {
                proof {
                    lemma_model_prefix_err(ms@, i as int + 1);
                }
                return Err(e);
            },
        }
        i = i + 1;
    }
    proof {
        assert(ms@.subrange(0, ms.len() as int) =~= ms@);
    }
    Ok(out)
}

proof fn lemma_model_ok_entries(ms: Seq<Member>, k: int)
    requires
        model_spec(ms) is Ok,
        0 <= k < ms.len(),
    ensures
        member_entry(ms[k]) is Ok,
    decreases ms.len(),
{
    if k < ms.len() - 1 {
        assert(ms.drop_last()[k] == ms[k]);
        lemma_model_ok_entries(ms.drop_last(), k);
    }
}

/// A member annotated `each = "x"` whose type has no collection shape is
/// refused with a shape mismatch naming it, and the record gets no model: it
/// is never taken as a required member.
pub proof fn law_each_needs_collection(ms: Seq<Member>, k: int)
    requires
        0 <= k < ms.len(),
        scan_builder(ms[k].attrs@, None) is Ok,
        scan_builder(ms[k].attrs@, None)->Ok_0 is Some,
        wrapper_inner(ms[k].ty, collection_spellings()) is None,
    ensures
        member_entry(ms[k]) == Err::<EntryView, ModelFault>(
            ModelFault::ShapeMismatch(ms[k].name@, ms[k].loc),
        ),
        model_spec(ms) is Err,
{
    if model_spec(ms) is Ok {
        lemma_model_ok_entries(ms, k);
    }
}

/// How a slot of the companion aggregate starts out.
#[derive(Debug, PartialEq, Eq, Structural, Clone, Copy)]
pub enum SlotInit {
    /// Absent, "not yet set".
    Absent,
    /// An empty collection.
    EmptyList,
}

/// What a member's mutator does with its argument.
#[derive(Debug, PartialEq, Eq, Structural, Clone, Copy)]
pub enum Action {
    /// Stores it as the slot's present value.
    Store,
    /// Appends it to the slot's collection.
    Push,
}

/// How finalization reads a slot.
#[derive(Debug, PartialEq, Eq, Structural, Clone, Copy)]
pub enum Finish {
    /// The slot must be present, else finalization fails naming the member.
    RequirePresent,
    /// The slot's content is the member's value as it stands.
    TakeAsIs,
}

/// The companion code for one member: its slot, its mutator, its
/// finalization step.
#[derive(Debug)]
pub struct FieldPlan {
    /// The member, and the slot's name.
    pub field: String,
    /// The member's declared type.
    pub slot_type: String,
    /// Whether the slot wraps the declared type in an optional slot.
    pub wrap_slot: bool,
    pub init: SlotInit,
    /// The mutator's name.
    pub method: String,
    /// The type the mutator takes.
    pub param_type: String,
    pub action: Action,
    pub finish: Finish,
}

/// A field plan as a value.
pub ghost struct FieldPlanView {
    pub field: Seq<char>,
    pub slot_type: Seq<char>,
    pub wrap_slot: bool,
    pub init: SlotInit,
    pub method: Seq<char>,
    pub param_type: Seq<char>,
    pub action: Action,
    pub finish: Finish,
}

pub open spec fn field_plan_view(f: FieldPlan) -> FieldPlanView {
    FieldPlanView {
        field: f.field@,
        slot_type: f.slot_type@,
        wrap_slot: f.wrap_slot,
        init: f.init,
        method: f.method@,
        param_type: f.param_type@,
        action: f.action,
        finish: f.finish,
    }
}

pub open spec fn field_plans_view(fs: Seq<FieldPlan>) -> Seq<FieldPlanView> {
    fs.map_values(|f: FieldPlan| field_plan_view(f))
}

/// The companion code for a classified member: a required member gets an
/// optional slot, a setter of its type and a presence check; an optional one
/// keeps its type, a setter of its inner type and is taken as is; an
/// accumulating one keeps its type, starts empty, and gets an appender named
/// by its `each` value that takes one element.
pub open spec fn plan_of_entry(e: EntryView) -> FieldPlanView {
    match e.class {
        ClassView::Required => FieldPlanView {
            field: e.name,
            slot_type: e.ty,
            wrap_slot: true,
            init: SlotInit::Absent,
            method: e.name,
            param_type: e.ty,
            action: Action::Store,
            finish: Finish::RequirePresent,
        },
        ClassView::Optional(inner) => FieldPlanView {
            field: e.name,
            slot_type: e.ty,
            wrap_slot: false,
            init: SlotInit::Absent,
            method: e.name,
            param_type: inner,
            action: Action::Store,
            finish: Finish::TakeAsIs,
        },
        ClassView::Accumulating(inner, appender) => FieldPlanView {
            field: e.name,
            slot_type: e.ty,
            wrap_slot: false,
            init: SlotInit::EmptyList,
            method: appender,
            param_type: inner,
            action: Action::Push,
            finish: Finish::TakeAsIs,
        },
    }
}

pub open spec fn plan_spec(model: Seq<EntryView>) -> Seq<FieldPlanView> {
    model.map_values(|e: EntryView| plan_of_entry(e))
}

/// The suffix of the aggregate's name.
pub open spec fn builder_suffix() -> Seq<char> {
    seq!['B', 'u', 'i', 'l', 'd', 'e', 'r']
}

fn plan_entry(e: &ModelEntry) -> (r: FieldPlan)
    ensures
        field_plan_view(r) == plan_of_entry(entry_view(*e)),
{
    match &e.class {
        Classification::Required => FieldPlan {
            field: e.name.clone(),
            slot_type: e.ty.clone(),
            wrap_slot: true,
            init: SlotInit::Absent,
            method: e.name.clone(),
            param_type: e.ty.clone(),
            action: Action::Store,
            finish: Finish::RequirePresent,
        },
        Classification::Optional { inner } => FieldPlan {
            field: e.name.clone(),
            slot_type: e.ty.clone(),
            wrap_slot: false,
            init: SlotInit::Absent,
            method: e.name.clone(),
            param_type: inner.clone(),
            action: Action::Store,
            finish: Finish::TakeAsIs,
        },
        Classification::Accumulating { inner, appender } => FieldPlan {
            field: e.name.clone(),
            slot_type: e.ty.clone(),
            wrap_slot: false,
            init: SlotInit::EmptyList,
            method: appender.clone(),
            param_type: inner.clone(),
            action: Action::Push,
            finish: Finish::TakeAsIs,
        },
    }
}

/// Members `i < j` whose mutators share a name.
pub open spec fn mutator_clash(p: Seq<FieldPlanView>, i: int, j: int) -> bool {
    0 <= i < j < p.len() && p[i].method == p[j].method
}

/// `(i, j)` is compared before `(i2, j2)`: by the earlier member first, then
/// by the later one.
pub open spec fn clash_before(i: int, j: int, i2: int, j2: int) -> bool {
    i < i2 || (i == i2 && j < j2)
}

/// `f` reports the first pair of members, in comparison order, whose
/// mutators share a name: that name and the two members.
pub open spec fn first_clash_error(es: Seq<EntryView>, f: ModelFault) -> bool {
    exists|i: int, j: int|
        {
            &&& #[trigger] mutator_clash(plan_spec(es), i, j)
            &&& forall|i2: int, j2: int|
                #![trigger mutator_clash(plan_spec(es), i2, j2)]
                clash_before(i2, j2, i, j) ==> !mutator_clash(plan_spec(es), i2, j2)
            &&& f == ModelFault::MutatorCollision(plan_spec(es)[i].method, es[i].name, es[j].name)
        }
}

/// Every member's mutator has a name of its own.
pub open spec fn mutators_distinct(p: Seq<FieldPlanView>) -> bool {
    forall|i: int, j: int| !#[trigger] mutator_clash(p, i, j)
}

/// What reading the record `ident` with `members` gives: its input where the
/// model can be built and the mutator names are distinct; otherwise the
/// model's error, or the first pair of clashing mutators.
pub open spec fn parse_outcome(
    ident: Seq<char>,
    members: Seq<Member>,
    r: Result<BuilderInput, ModelError>,
) -> bool {
    match model_spec(members) {
        Ok(es) => if mutators_distinct(plan_spec(es)) {
            r is Ok && r->Ok_0.ident@ == ident && r->Ok_0.model() == es
        } else {
            r is Err && first_clash_error(es, (r->Err_0)@)
        },
        Err(f) => r is Err && (r->Err_0)@ == f,
    }
}

proof fn lemma_first_clash_unique(es: Seq<EntryView>, f: ModelFault, g: ModelFault)
    requires
        first_clash_error(es, f),
        first_clash_error(es, g),
    ensures
        f == g,
{
    let p = plan_spec(es);
    let (i, j) = choose|i: int, j: int|
        {
            &&& #[trigger] mutator_clash(p, i, j)
            &&& forall|i2: int, j2: int|
                #![trigger mutator_clash(p, i2, j2)]
                clash_before(i2, j2, i, j) ==> !mutator_clash(p, i2, j2)
            &&& f == ModelFault::MutatorCollision(p[i].method, es[i].name, es[j].name)
        };
    let (k, l) = choose|k: int, l: int|
        {
            &&& #[trigger] mutator_clash(p, k, l)
            &&& forall|i2: int, j2: int|
                #![trigger mutator_clash(p, i2, j2)]
                clash_before(i2, j2, k, l) ==> !mutator_clash(p, i2, j2)
            &&& g == ModelFault::MutatorCollision(p[k].method, es[k].name, es[l].name)
        };
    assert(!clash_before(i, j, k, l));
    assert(!clash_before(k, l, i, j));
}

/// Builder synthesis is idempotent: reading the same record twice gives the
/// same error, or inputs with the same name and model, so the same aggregate
/// name and the same slots, factory, mutators and finalization steps, which
/// the generating methods state as functions of the model.
pub proof fn law_builder_idempotent(
    ident: Seq<char>,
    members: Seq<Member>,
    a: Result<BuilderInput, ModelError>,
    b: Result<BuilderInput, ModelError>,
)
    requires
        parse_outcome(ident, members, a),
        parse_outcome(ident, members, b),
    ensures
        a is Ok <==> b is Ok,
        a is Ok ==> a->Ok_0.ident@ == b->Ok_0.ident@ && a->Ok_0.model() == b->Ok_0.model()
            && plan_spec(a->Ok_0.model()) == plan_spec(b->Ok_0.model()),
        a is Err ==> (a->Err_0)@ == (b->Err_0)@,
{
    if let Ok(es) = model_spec(members) {
        if !mutators_distinct(plan_spec(es)) {
            lemma_first_clash_unique(es, (a->Err_0)@, (b->Err_0)@);
        }
    }
}

/// A record read for builder synthesis: its name and its classified members
/// in declaration order.
#[derive(Debug)]
pub struct BuilderInput {
    pub ident: String,
    pub fields: Vec<ModelEntry>,
}

/// A slot of the aggregate: its name, its type, whether that type is
/// wrapped in an optional slot.
#[derive(Debug)]
pub struct SlotDecl {
    pub name: String,
    pub ty: String,
    pub wrapped: bool,
}

/// How the factory starts a slot.
#[derive(Debug)]
pub struct SlotStart {
    pub name: String,
    pub init: SlotInit,
}

/// A mutator: its name, the slot it writes, the type it takes, what it does.
#[derive(Debug)]
pub struct Mutator {
    pub method: String,
    pub field: String,
    pub param_type: String,
    pub action: Action,
}

/// How finalization reads a slot.
#[derive(Debug)]
pub struct FinalStep {
    pub field: String,
    pub finish: Finish,
}

impl BuilderInput {
    /// The model this input stands for.
    pub open spec fn model(&self) -> Seq<EntryView> {
        entries_view(self.fields@)
    }

    /// Reads a record: each member's `builder` annotations and shape. Where
    /// two members' mutators would share a name (an `each` value equal to
    /// another member's name, say), the record is refused, naming the first
    /// such pair in comparison order.
    pub fn parse(ident: &String, members: &Vec<Member>) -> (r: Result<BuilderInput, ModelError>)
        ensures
            parse_outcome(ident@, members@, r),
    {
        let input = match build_model(members) {
            Ok(fields) => BuilderInput { ident: ident.clone(), fields },
            Err(e) => {
                return Err(e);
            },
        };
        let ghost p = plan_spec(input.model());
        let ms = input.generate_setter_methods();
        let mut i: usize = 0;
        while i < ms.len()
            invariant
                p == plan_spec(input.model()),
                ms@.len() == p.len(),
                p.len() == input.model().len(),
                forall|k: int| 0 <= k < ms@.len() ==> ms@[k].method@ == #[trigger] p[k].method,
                forall|k: int| 0 <= k < ms@.len() ==> ms@[k].field@ == #[trigger] p[k].field,
                model_spec(members@) == Ok::<Seq<EntryView>, ModelFault>(input.model()),
                input.ident@ == ident@,
                i <= ms.len(),
                forall|a: int, b: int| #![trigger mutator_clash(p, a, b)] a < i ==> !mutator_clash(p, a, b),
            decreases ms.len() - i,
        {
            let mut j: usize = i + 1;
            while j < ms.len()
                invariant
                    p == plan_spec(input.model()),
                    ms@.len() == p.len(),
                    p.len() == input.model().len(),
                    forall|k: int| 0 <= k < ms@.len() ==> ms@[k].method@ == #[trigger] p[k].method,
                    forall|k: int| 0 <= k < ms@.len() ==> ms@[k].field@ == #[trigger] p[k].field,
                    model_spec(members@) == Ok::<Seq<EntryView>, ModelFault>(input.model()),
                    i < ms.len(),
                    i + 1 <= j <= ms.len(),
                    forall|a: int, b: int| #![trigger mutator_clash(p, a, b)] a < i ==> !mutator_clash(p, a, b),
                    forall|b: int| #![trigger mutator_clash(p, i as int, b)] b < j ==> !mutator_clash(p, i as int, b),
                decreases ms.len() - j,
            {
                if ms[i].method == ms[j].method {
                    assert(mutator_clash(p, i as int, j as int));
                    assert forall|i2: int, j2: int|
                        #![trigger mutator_clash(p, i2, j2)]
                        clash_before(i2, j2, i as int, j as int) implies !mutator_clash(p, i2, j2) by {
                        if i2 == i {
                        }
                    }
                    assert(input.model()[i as int].name == p[i as int].field);
                    assert(input.model()[j as int].name == p[j as int].field);
                    return Err(
                        ModelError::MutatorCollision {
                            method: ms[i].method.clone(),
                            first: ms[i].field.clone(),
                            second: ms[j].field.clone(),
                        },
                    );
                }
                j = j + 1;
            }
            i = i + 1;
        }
        Ok(input)
    }

    /// The aggregate's name: the record's name followed by `Builder`.
    pub fn builder_struct_ident(&self) -> (r: String)
        ensures
            r@ == self.ident@ + builder_suffix(),
    {
        let mut name = self.ident.clone();
        name.append("Builder");
        proof {
            reveal_strlit("Builder");
            assert("Builder"@ =~= builder_suffix());
        }
        name
    }

    /// The aggregate's slots, one per member in order.
    pub fn generate_builder_struct(&self) -> (r: Vec<SlotDecl>)
        ensures
            r@.len() == self.model().len(),
            forall|k: int|
                0 <= k < r@.len() ==> {
                    let f = #[trigger] plan_spec(self.model())[k];
                    &&& r@[k].name@ == f.field
                    &&& r@[k].ty@ == f.slot_type
                    &&& r@[k].wrapped == f.wrap_slot
                },
    {
        let mut out: Vec<SlotDecl> = Vec::new();
        let mut i: usize = 0;
        while i < self.fields.len()
            invariant
                i <= self.fields.len(),
                out@.len() == i,
                forall|k: int|
                    0 <= k < i ==> {
                        let f = #[trigger] plan_spec(self.model())[k];
                        &&& out@[k].name@ == f.field
                        &&& out@[k].ty@ == f.slot_type
                        &&& out@[k].wrapped == f.wrap_slot
                    },
            decreases self.fields.len() - i,
        {
            let p = plan_entry(&self.fields[i]);
            assert(plan_spec(self.model())[i as int] == field_plan_view(p));
            out.push(SlotDecl { name: p.field, ty: p.slot_type, wrapped: p.wrap_slot });
            i = i + 1;
        }
        out
    }

    /// The factory's start for each slot, in order.
    pub fn generate_builder_method(&self) -> (r: Vec<SlotStart>)
        ensures
            r@.len() == self.model().len(),
            forall|k: int|
                0 <= k < r@.len() ==> {
                    let f = #[trigger] plan_spec(self.model())[k];
                    &&& r@[k].name@ == f.field
                    &&& r@[k].init == f.init
                },
    {
        let mut out: Vec<SlotStart> = Vec::new();
        let mut i: usize = 0;
        while i < self.fields.len()
            invariant
                i <= self.fields.len(),
                out@.len() == i,
                forall|k: int|
                    0 <= k < i ==> {
                        let f = #[trigger] plan_spec(self.model())[k];
                        &&& out@[k].name@ == f.field
                        &&& out@[k].init == f.init
                    },
            decreases self.fields.len() - i,
        {
            let p = plan_entry(&self.fields[i]);
            assert(plan_spec(self.model())[i as int] == field_plan_view(p));
            out.push(SlotStart { name: p.field, init: p.init });
            i = i + 1;
        }
        out
    }

    /// One mutator per member, in order: a setter, or for an accumulating
    /// member its appender.
    pub fn generate_setter_methods(&self) -> (r: Vec<Mutator>)
        ensures
            r@.len() == self.model().len(),
            forall|k: int|
                0 <= k < r@.len() ==> {
                    let f = #[trigger] plan_spec(self.model())[k];
                    &&& r@[k].method@ == f.method
                    &&& r@[k].field@ == f.field
                    &&& r@[k].param_type@ == f.param_type
                    &&& r@[k].action == f.action
                },
    {
        let mut out: Vec<Mutator> = Vec::new();
        let mut i: usize = 0;
        while i < self.fields.len()
            invariant
                i <= self.fields.len(),
                out@.len() == i,
                forall|k: int|
                    0 <= k < i ==> {
                        let f = #[trigger] plan_spec(self.model())[k];
                        &&& out@[k].method@ == f.method
                        &&& out@[k].field@ == f.field
                        &&& out@[k].param_type@ == f.param_type
                        &&& out@[k].action == f.action
                    },
            decreases self.fields.len() - i,
        {
            let p = plan_entry(&self.fields[i]);
            assert(plan_spec(self.model())[i as int] == field_plan_view(p));
            out.push(
                Mutator {
                    method: p.method,
                    field: p.field,
                    param_type: p.param_type,
                    action: p.action,
                },
            );
            i = i + 1;
        }
        out
    }

    /// The finalization step for each member, in order.
    pub fn generate_final_build_method(&self) -> (r: Vec<FinalStep>)
        ensures
            r@.len() == self.model().len(),
            forall|k: int|
                0 <= k < r@.len() ==> {
                    let f = #[trigger] plan_spec(self.model())[k];
                    &&& r@[k].field@ == f.field
                    &&& r@[k].finish == f.finish
                },
    {
        let mut out: Vec<FinalStep> = Vec::new();
        let mut i: usize = 0;
        while i < self.fields.len()
            invariant
                i <= self.fields.len(),
                out@.len() == i,
                forall|k: int|
                    0 <= k < i ==> {
                        let f = #[trigger] plan_spec(self.model())[k];
                        &&& out@[k].field@ == f.field
                        &&& out@[k].finish == f.finish
                    },
            decreases self.fields.len() - i,
        {
            let p = plan_entry(&self.fields[i]);
            assert(plan_spec(self.model())[i as int] == field_plan_view(p));
            out.push(FinalStep { field: p.field, finish: p.finish });
            i = i + 1;
        }
        out
    }
}

} // verus!
