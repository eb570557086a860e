use vstd::prelude::*;

use crate::text::texts;

verus! {

/// A literal value as written in an annotation.
#[derive(Debug)]
pub enum Literal {
    /// A string literal, by its value.
    Str(String),
    /// Any other literal or expression.
    Other,
}

/// One `key = value` entry of a nested list, `name(key = "value", ...)`.
/// `value` is `None` where the key stands alone.
#[derive(Debug)]
pub struct NestedEntry {
    pub key: String,
    pub value: Option<Literal>,
    pub loc: usize,
}

/// What follows an annotation's name.
#[derive(Debug)]
pub enum AttrBody {
    /// Nothing: `#[name]`.
    Bare,
    /// `#[name = value]`.
    Value(Literal),
    /// `#[name(key = value, ...)]`.
    List(Vec<NestedEntry>),
}

/// An annotation attached to a declaration or one of its members.
#[derive(Debug)]
pub struct RawAnnotation {
    pub name: String,
    pub body: AttrBody,
    pub loc: usize,
}

#[derive(Debug)]
pub enum AnnotationError {
    /// A key outside the accepted set.
    UnrecognizedKey { key: String, loc: usize },
    /// A recognised key with a value of the wrong form.
    Malformed { key: String, loc: usize },
}

/// An annotation error as a value: unrecognised or malformed, the key, the
/// location.
pub ghost enum AnnotationFault {
    UnrecognizedKey(Seq<char>, usize),
    Malformed(Seq<char>, usize),
}

impl View for AnnotationError {
    type V = AnnotationFault;

    open spec fn view(&self) -> AnnotationFault {
        match self {
            AnnotationError::UnrecognizedKey { key, loc } => AnnotationFault::UnrecognizedKey(
                key@,
                *loc,
            ),
            AnnotationError::Malformed { key, loc } => AnnotationFault::Malformed(key@, *loc),
        }
    }
}

pub open spec fn word_builder() -> Seq<char> {
    seq!['b', 'u', 'i', 'l', 'd', 'e', 'r']
}

pub open spec fn word_each() -> Seq<char> {
    seq!['e', 'a', 'c', 'h']
}

pub open spec fn word_debug() -> Seq<char> {
    seq!['d', 'e', 'b', 'u', 'g']
}

pub open spec fn word_bound() -> Seq<char> {
    seq!['b', 'o', 'u', 'n', 'd']
}

/// Whether `s` holds exactly the characters of `w`.
pub fn is_word(s: &String, w: &str) -> (r: bool)
    ensures
        r == (s@ == w@),
{
    let t = String::from_str(w);
    *s == t
}

/// The string value of an entry, where it is a string literal.
pub open spec fn entry_str(e: NestedEntry) -> Option<Seq<char>> {
    match e.value {
        Some(Literal::Str(s)) => Some(s@),
        _ => None,
    }
}

/// The `each` value of the entries of a `builder(...)` list, taken from
/// `acc` on: the last `each` wins, and the first bad entry fails.
pub open spec fn scan_builder_entries(es: Seq<NestedEntry>, acc: Option<Seq<char>>) -> Result<
    Option<Seq<char>>,
    AnnotationFault,
>
    decreases es.len(),
{
    if es.len() == 0 {
        Ok(acc)
    } else if es[0].key@ != word_each() {
        Err(AnnotationFault::UnrecognizedKey(es[0].key@, es[0].loc))
    } else {
        match entry_str(es[0]) {
            Some(s) => scan_builder_entries(es.drop_first(), Some(s)),
            None => Err(AnnotationFault::Malformed(es[0].key@, es[0].loc)),
        }
    }
}

/// The `each` value of a member's `builder` annotations, all of them read
/// in order from `acc` on; annotations under other names are left alone.
pub open spec fn scan_builder(attrs: Seq<RawAnnotation>, acc: Option<Seq<char>>) -> Result<
    Option<Seq<char>>,
    AnnotationFault,
>
    decreases attrs.len(),
{
    if attrs.len() == 0 {
        Ok(acc)
    } else if attrs[0].name@ != word_builder() {
        scan_builder(attrs.drop_first(), acc)
    } else {
        match attrs[0].body {
            AttrBody::List(es) => match scan_builder_entries(es@, acc) {
                Ok(a) => scan_builder(attrs.drop_first(), a),
                Err(f) => Err(f),
            },
            _ => Err(AnnotationFault::Malformed(attrs[0].name@, attrs[0].loc)),
        }
    }
}

/// Scanning from `acc` is scanning from nothing, with `acc` kept where no
/// `each` came.
proof fn lemma_entries_from(es: Seq<NestedEntry>, acc: Option<Seq<char>>)
    ensures
        scan_builder_entries(es, acc) == match scan_builder_entries(es, None) {
            Ok(None) => Ok(acc),
            other => other,
        },
    decreases es.len(),
{
    if es.len() > 0 {
        lemma_entries_from(es.drop_first(), acc);
        lemma_entries_from(es.drop_first(), None);
        if let Some(s) = entry_str(es[0]) {
            lemma_entries_from(es.drop_first(), Some(s));
        }
    }
}

/// The views of an optional string.
pub open spec fn opt_view(s: Option<String>) -> Option<Seq<char>> {
    match s {
        Some(v) => Some(v@),
        None => None,
    }
}

fn scan_builder_list(es: &Vec<NestedEntry>) -> (r: Result<
    Option<String>,
    AnnotationError,
>)
    ensures
        match scan_builder_entries(es@, None) {
            Ok(v) => r is Ok && opt_view(r->Ok_0) == v,
            Err(f) => r is Err && (r->Err_0)@ == f,
        },
{
    let ghost goal = scan_builder_entries(es@, None);
    let mut acc: Option<String> = None;
    let mut i: usize = 0;
    proof {
        assert(es@.skip(0) =~= es@);
    }
    while i < es.len()
        invariant
            i <= es.len(),
            goal == scan_builder_entries(es@, None),
            goal == scan_builder_entries(es@.skip(i as int), opt_view(acc)),
        decreases es.len() - i,
    {
        let e = &es[i];
        proof {
            assert(es@.skip(i as int).drop_first() =~= es@.skip(i as int + 1));
            assert(es@.skip(i as int)[0] == es@[i as int]);
            reveal_strlit("each");
            assert("each"@ =~= word_each());
        }
        if !is_word(&e.key, "each") {
            return Err(AnnotationError::UnrecognizedKey { key: e.key.clone(), loc: e.loc });
        }
        match &e.value {
            Some(Literal::Str(v)) => {
                acc = Some(v.clone());
            },
            _ => {
                return Err(AnnotationError::Malformed { key: e.key.clone(), loc: e.loc });
            },
        }
        i = i + 1;
    }
    Ok(acc)
}

/// Reads the `builder` annotations of a member, all of them in order: each
/// must be a nested list whose only key is `each`, with a string literal
/// value. Returns the last `each` value, if any.
pub fn parse_builder_annotations(attrs: &Vec<RawAnnotation>) -> (r: Result<
    Option<String>,
    AnnotationError,
>)
    ensures
        match scan_builder(attrs@, None) {
            Ok(v) => r is Ok && opt_view(r->Ok_0) == v,
            Err(f) => r is Err && (r->Err_0)@ == f,
        },
{
    let ghost goal = scan_builder(attrs@, None);
    let mut acc: Option<String> = None;
    let mut i: usize = 0;
    proof {
        assert(attrs@.skip(0) =~= attrs@);
    }
    while i < attrs.len()
        invariant
            i <= attrs.len(),
            goal == scan_builder(attrs@, None),
            goal == scan_builder(attrs@.skip(i as int), opt_view(acc)),
        decreases attrs.len() - i,
    {
        let a = &attrs[i];
        proof {
            assert(attrs@.skip(i as int).drop_first() =~= attrs@.skip(i as int + 1));
            assert(attrs@.skip(i as int)[0] == attrs@[i as int]);
            reveal_strlit("builder");
            assert("builder"@ =~= word_builder());
        }
        if is_word(&a.name, "builder") {
            match &a.body {
                AttrBody::List(es) => {
                    let found = scan_builder_list(es);
                    proof {
                        lemma_entries_from(es@, opt_view(acc));
                    }
                    match found {
                        Ok(Some(v)) => {
                            acc = Some(v);
                        },
                        Ok(None) => {},
                        Err(e) => {
                            return Err(e);
                        },
                    }
                },
                _ => {
                    return Err(AnnotationError::Malformed { key: a.name.clone(), loc: a.loc });
                },
            }
        }
        i = i + 1;
    }
    Ok(acc)
}

/// Whether `s` is one of `list`.
pub fn contains_text(list: &Vec<String>, s: &String) -> (r: bool)
    ensures
        r == texts(list@).contains(s@),
{
    let mut i: usize = 0;
    while i < list.len()
        invariant
            i <= list.len(),
            forall|m: int| 0 <= m < i ==> list@[m]@ != s@,
        decreases list.len() - i,
    {
        if list[i] == *s {
            assert(texts(list@)[i as int] == s@);
            return true;
        }
        i = i + 1;
    }
    proof {
        if texts(list@).contains(s@) {
            let m = choose|m: int| 0 <= m < texts(list@).len() && texts(list@)[m] == s@;
            assert(list@[m]@ == s@);
        }
    }
    false
}

/// Relies on `syn::parse_str::<syn::WherePredicate>`: whether the text parses
/// as a `where` predicate. Which lexer runs depends on whether the call is
/// made inside a procedural macro, so nothing is claimed of the answer.
#[verifier::external_body]
fn parses_as_where_predicate(s: &str) -> bool {
    syn::parse_str::<syn::WherePredicate>(s).is_ok()
}

/// A `bound` value: a string literal among the accepted predicates `ok`.
pub open spec fn bound_value(e: NestedEntry, ok: Seq<Seq<char>>) -> Option<Seq<char>> {
    match entry_str(e) {
        Some(s) => if ok.contains(s) {
            Some(s)
        } else {
            None
        },
        None => None,
    }
}

/// The `bound` value of the entries of a `debug(...)` list, taken from `acc`
/// on: the last `bound` wins, and the first bad entry fails.
pub open spec fn scan_debug_entries(
    es: Seq<NestedEntry>,
    acc: Option<Seq<char>>,
    ok: Seq<Seq<char>>,
) -> Result<
    Option<Seq<char>>,
    AnnotationFault,
>
    decreases es.len(),
{
    if es.len() == 0 {
        Ok(acc)
    } else if es[0].key@ != word_bound() {
        Err(AnnotationFault::UnrecognizedKey(es[0].key@, es[0].loc))
    } else {
        match bound_value(es[0], ok) {
            Some(s) => scan_debug_entries(es.drop_first(), Some(s), ok),
            None => Err(AnnotationFault::Malformed(es[0].key@, es[0].loc)),
        }
    }
}

proof fn lemma_debug_entries_from(es: Seq<NestedEntry>, acc: Option<Seq<char>>, ok: Seq<Seq<char>>)
    ensures
        scan_debug_entries(es, acc, ok) == match scan_debug_entries(es, None, ok) {
            Ok(None) => Ok(acc),
            other => other,
        },
    decreases es.len(),
{
    if es.len() > 0 {
        lemma_debug_entries_from(es.drop_first(), acc, ok);
        lemma_debug_entries_from(es.drop_first(), None, ok);
        if let Some(s) = bound_value(es[0], ok) {
            lemma_debug_entries_from(es.drop_first(), Some(s), ok);
        }
    }
}

/// The format string and the bound of the `debug` annotations, all of them
/// read in order from `fmt` and `bound` on; the last of each wins, a bound
/// outside the accepted predicates `ok` is malformed, and annotations under
/// other names are left alone.
pub open spec fn scan_debug(
    attrs: Seq<RawAnnotation>,
    fmt: Option<Seq<char>>,
    bound: Option<Seq<char>>,
    ok: Seq<Seq<char>>,
) -> Result<(Option<Seq<char>>, Option<Seq<char>>), AnnotationFault>
    decreases attrs.len(),
{
    if attrs.len() == 0 {
        Ok((fmt, bound))
    } else if attrs[0].name@ != word_debug() {
        scan_debug(attrs.drop_first(), fmt, bound, ok)
    } else {
        match attrs[0].body {
            AttrBody::Value(Literal::Str(s)) => scan_debug(attrs.drop_first(), Some(s@), bound, ok),
            AttrBody::List(es) => match scan_debug_entries(es@, bound, ok) {
                Ok(b) => scan_debug(attrs.drop_first(), fmt, b, ok),
                Err(f) => Err(f),
            },
            _ => Err(AnnotationFault::Malformed(attrs[0].name@, attrs[0].loc)),
        }
    }
}

fn scan_debug_list(es: &Vec<NestedEntry>, accepted: &Vec<String>) -> (r: Result<
    Option<String>,
    AnnotationError,
>)
    ensures
        match scan_debug_entries(es@, None, texts(accepted@)) {
            Ok(v) => r is Ok && opt_view(r->Ok_0) == v,
            Err(f) => r is Err && (r->Err_0)@ == f,
        },
{
    let ghost ok = texts(accepted@);
    let ghost goal = scan_debug_entries(es@, None, ok);
    let mut acc: Option<String> = None;
    let mut i: usize = 0;
    proof {
        assert(es@.skip(0) =~= es@);
    }
    while i < es.len()
        invariant
            i <= es.len(),
            ok == texts(accepted@),
            goal == scan_debug_entries(es@, None, ok),
            goal == scan_debug_entries(es@.skip(i as int), opt_view(acc), ok),
        decreases es.len() - i,
    {
        let e = &es[i];
        proof {
            assert(es@.skip(i as int).drop_first() =~= es@.skip(i as int + 1));
            assert(es@.skip(i as int)[0] == es@[i as int]);
            reveal_strlit("bound");
            assert("bound"@ =~= word_bound());
        }
        if !is_word(&e.key, "bound") {
            return Err(AnnotationError::UnrecognizedKey { key: e.key.clone(), loc: e.loc });
        }
        match &e.value {
            Some(Literal::Str(v)) => {
                if contains_text(accepted, v) {
                    acc = Some(v.clone());
                } else {
                    return Err(AnnotationError::Malformed { key: e.key.clone(), loc: e.loc });
                }
            },
            _ => {
                return Err(AnnotationError::Malformed { key: e.key.clone(), loc: e.loc });
            },
        }
        i = i + 1;
    }
    Ok(acc)
}

/// What a `debug` annotation asks for: a format string for a member, a
/// `where` predicate that replaces the inferred bounds.
#[derive(Debug)]
pub struct DebugAnnotation {
    pub format: Option<String>,
    pub bound: Option<String>,
}

/// What reading `debug` annotations gives when the accepted predicates are
/// `ok`.
pub open spec fn debug_outcome(
    attrs: Seq<RawAnnotation>,
    ok: Seq<Seq<char>>,
    r: Result<DebugAnnotation, AnnotationError>,
) -> bool {
    match scan_debug(attrs, None, None, ok) {
        Ok(v) => r is Ok && opt_view(r->Ok_0.format) == v.0 && opt_view(r->Ok_0.bound) == v.1,
        Err(f) => r is Err && (r->Err_0)@ == f,
    }
}

/// Reads the `debug` annotations of a declaration or a member, all of them
/// in order: `debug = "format"` gives a format string, `debug(bound = "...")`
/// a `where` predicate, kept where it is one of `accepted` and refused as
/// malformed otherwise; the last of each wins.
pub fn parse_debug_annotations_with(attrs: &Vec<RawAnnotation>, accepted: &Vec<String>) -> (r:
    Result<DebugAnnotation, AnnotationError>)
    ensures
        debug_outcome(attrs@, texts(accepted@), r),
{
    let ghost ok = texts(accepted@);
    let ghost goal = scan_debug(attrs@, None, None, ok);
    let mut fmt: Option<String> = None;
    let mut bound: Option<String> = None;
    let mut i: usize = 0;
    proof {
        assert(attrs@.skip(0) =~= attrs@);
    }
    while i < attrs.len()
        invariant
            i <= attrs.len(),
            ok == texts(accepted@),
            goal == scan_debug(attrs@, None, None, ok),
            goal == scan_debug(attrs@.skip(i as int), opt_view(fmt), opt_view(bound), ok),
        decreases attrs.len() - i,
    {
        let a = &attrs[i];
        proof {
            assert(attrs@.skip(i as int).drop_first() =~= attrs@.skip(i as int + 1));
            assert(attrs@.skip(i as int)[0] == attrs@[i as int]);
            reveal_strlit("debug");
            assert("debug"@ =~= word_debug());
        }
        if is_word(&a.name, "debug") {
            match &a.body {
                AttrBody::Value(Literal::Str(v)) => {
                    fmt = Some(v.clone());
                },
                AttrBody::List(es) => {
                    let found = scan_debug_list(es, accepted);
                    proof {
                        lemma_debug_entries_from(es@, opt_view(bound), ok);
                    }
                    match found {
                        Ok(Some(v)) => {
                            bound = Some(v);
                        },
                        Ok(None) => {},
                        Err(e) => {
                            return Err(e);
                        },
                    }
                },
                _ => {
                    return Err(AnnotationError::Malformed { key: a.name.clone(), loc: a.loc });
                },
            }
        }
        i = i + 1;
    }
    Ok(DebugAnnotation { format: fmt, bound })
}

/// The string values of the `bound` entries of `debug` annotations, in order.
pub fn bound_candidates(attrs: &Vec<RawAnnotation>, out: &mut Vec<String>) {
    let mut i: usize = 0;
    while i < attrs.len()
        decreases attrs.len() - i,
    {
        if is_word(&attrs[i].name, "debug") {
            if let AttrBody::List(es) = &attrs[i].body {
                let mut j: usize = 0;
                while j < es.len()
                    decreases es.len() - j,
                {
                    if is_word(&es[j].key, "bound") {
                        if let Some(Literal::Str(v)) = &es[j].value {
                            out.push(v.clone());
                        }
                    }
                    j = j + 1;
                }
            }
        }
        i = i + 1;
    }
}

/// Those of `candidates` that parse as `where` predicates.
pub fn accepted_predicates(candidates: &Vec<String>) -> Vec<String> {
    let mut out: Vec<String> = Vec::new();
    let mut i: usize = 0;
    while i < candidates.len()
        decreases candidates.len() - i,
    {
        if parses_as_where_predicate(candidates[i].as_str()) {
            out.push(candidates[i].clone());
        }
        i = i + 1;
    }
    out
}

/// Reads the `debug` annotations, each `bound` checked by parsing it as a
/// `where` predicate. Whatever that parse answers, the result is what
/// `parse_debug_annotations_with` gives for some set of accepted predicates:
/// format strings and keys are read exactly, and each string bound is either
/// kept or refused as malformed at its key.
pub fn parse_debug_annotations(attrs: &Vec<RawAnnotation>) -> (r: Result<
    DebugAnnotation,
    AnnotationError,
>)
    ensures
        exists|ok: Seq<Seq<char>>| #[trigger] debug_outcome(attrs@, ok, r),
{
    let mut candidates: Vec<String> = Vec::new();
    bound_candidates(attrs, &mut candidates);
    let accepted = accepted_predicates(&candidates);
    let r = parse_debug_annotations_with(attrs, &accepted);
    assert(debug_outcome(attrs@, texts(accepted@), r));
    r
}

} // verus!
