use vstd::prelude::*;

use crate::annotation::opt_view;
use crate::text::texts;

verus! {

/// One argument between a path segment's angle brackets.
#[derive(Debug)]
pub enum GenericArg {
    /// A type argument, with its own structure.
    Type(TypeExpr),
    /// A lifetime, a constant or a binding.
    NotType,
}

/// One segment of a type path: its identifier and its angle-bracketed
/// arguments.
#[derive(Debug)]
pub struct Segment {
    pub ident: String,
    pub args: Vec<GenericArg>,
}

/// A member's declared type: its text as written, and its segments where it
/// is a plain path type without a qualified self.
#[derive(Debug)]
pub struct TypeExpr {
    pub text: String,
    pub path: Option<Vec<Segment>>,
}

/// The identifiers of a path's segments.
pub open spec fn seg_idents(segs: Seq<Segment>) -> Seq<Seq<char>> {
    segs.map_values(|s: Segment| s.ident@)
}

/// Spellings as sequences of segment identifiers.
pub open spec fn spellings_view(t: Seq<Vec<String>>) -> Seq<Seq<Seq<char>>> {
    t.map_values(|v: Vec<String>| texts(v@))
}

/// The text of a type argument, where it is one.
pub open spec fn type_arg_text(a: GenericArg) -> Option<Seq<char>> {
    match a {
        GenericArg::Type(t) => Some(t.text@),
        GenericArg::NotType => None,
    }
}

/// The inner type of `ty` where its path is spelled as one of `spellings` and
/// its last segment has exactly one argument, a type; the match reads the segment
/// identifiers only, so an imported alias is not recognised.
pub open spec fn wrapper_inner(ty: TypeExpr, spellings: Seq<Seq<Seq<char>>>) -> Option<Seq<char>> {
    match ty.path {
        Some(segs) => if segs@.len() > 0 && spellings.contains(seg_idents(segs@))
            && segs@.last().args@.len() == 1 {
            type_arg_text(segs@.last().args@[0])
        } else {
            None
        },
        None => None,
    }
}

pub open spec fn word_option() -> Seq<char> {
    seq!['O', 'p', 't', 'i', 'o', 'n']
}

pub open spec fn word_vec() -> Seq<char> {
    seq!['V', 'e', 'c']
}

/// The spellings that denote the optional wrapper.
pub open spec fn optional_spellings() -> Seq<Seq<Seq<char>>> {
    seq![
        seq![word_option()],
        seq![seq!['s', 't', 'd'], seq!['o', 'p', 't', 'i', 'o', 'n'], word_option()],
        seq![seq!['c', 'o', 'r', 'e'], seq!['o', 'p', 't', 'i', 'o', 'n'], word_option()],
    ]
}

/// The spellings that denote the collection wrapper.
pub open spec fn collection_spellings() -> Seq<Seq<Seq<char>>> {
    seq![
        seq![word_vec()],
        seq![seq!['s', 't', 'd'], seq!['v', 'e', 'c'], word_vec()],
        seq![seq!['a', 'l', 'l', 'o', 'c'], seq!['v', 'e', 'c'], word_vec()],
    ]
}

fn word(w: &str) -> (r: String)
    ensures
        r@ == w@,
{
    String::from_str(w)
}

/// The table of optional spellings.
pub fn optional_table() -> (r: Vec<Vec<String>>)
    ensures
        spellings_view(r@) == optional_spellings(),
{
    proof {
        reveal_strlit("Option");
        reveal_strlit("std");
        reveal_strlit("core");
        reveal_strlit("option");
        assert("Option"@ =~= word_option());
        assert("std"@ =~= seq!['s', 't', 'd']);
        assert("core"@ =~= seq!['c', 'o', 'r', 'e']);
        assert("option"@ =~= seq!['o', 'p', 't', 'i', 'o', 'n']);
    }
    let r = vec![
        vec![word("Option")],
        vec![word("std"), word("option"), word("Option")],
        vec![word("core"), word("option"), word("Option")],
    ];
    assert(spellings_view(r@) =~= optional_spellings()) by {
        assert(texts(r@[0]@) =~= optional_spellings()[0]);
        assert(texts(r@[1]@) =~= optional_spellings()[1]);
        assert(texts(r@[2]@) =~= optional_spellings()[2]);
    }
    r
}

/// The table of collection spellings.
pub fn collection_table() -> (r: Vec<Vec<String>>)
    ensures
        spellings_view(r@) == collection_spellings(),
{
    proof {
        reveal_strlit("Vec");
        reveal_strlit("std");
        reveal_strlit("alloc");
        reveal_strlit("vec");
        assert("Vec"@ =~= word_vec());
        assert("std"@ =~= seq!['s', 't', 'd']);
        assert("alloc"@ =~= seq!['a', 'l', 'l', 'o', 'c']);
        assert("vec"@ =~= seq!['v', 'e', 'c']);
    }
    let r = vec![
        vec![word("Vec")],
        vec![word("std"), word("vec"), word("Vec")],
        vec![word("alloc"), word("vec"), word("Vec")],
    ];
    assert(spellings_view(r@) =~= collection_spellings()) by {
        assert(texts(r@[0]@) =~= collection_spellings()[0]);
        assert(texts(r@[1]@) =~= collection_spellings()[1]);
        assert(texts(r@[2]@) =~= collection_spellings()[2]);
    }
    r
}

fn path_is(segs: &Vec<Segment>, sp: &Vec<String>) -> (r: bool)
    ensures
        r == (seg_idents(segs@) == texts(sp@)),
{
    if segs.len() != sp.len() {
        assert(seg_idents(segs@).len() != texts(sp@).len());
        return false;
    }
    let mut i: usize = 0;
    while i < segs.len()
        invariant
            segs.len() == sp.len(),
            i <= segs.len(),
            forall|m: int| 0 <= m < i ==> segs@[m].ident@ == sp@[m]@,
        decreases segs.len() - i,
    {
        if !(segs[i].ident == sp[i]) {
            assert(seg_idents(segs@)[i as int] != texts(sp@)[i as int]);
            return false;
        }
        i = i + 1;
    }
    assert(seg_idents(segs@) =~= texts(sp@));
    true
}

/// Matches `ty` against a table of wrapper spellings; on a match, returns
/// the text of the single inner type.
pub fn match_wrapper(ty: &TypeExpr, spellings: &Vec<Vec<String>>) -> (r: Option<String>)
    ensures
        opt_view(r) == wrapper_inner(*ty, spellings_view(spellings@)),
{
    match &ty.path {
        None => None,
        Some(segs) => {
            if segs.len() == 0 {
                return None;
            }
            let mut found = false;
            let mut i: usize = 0;
            while i < spellings.len()
                invariant
                    i <= spellings.len(),
                    found == exists|m: int|
                        0 <= m < i && #[trigger] spellings_view(spellings@)[m] == seg_idents(segs@),
                decreases spellings.len() - i,
            {
                proof {
                    assert(spellings_view(spellings@)[i as int] == texts(spellings@[i as int]@));
                }
                if path_is(segs, &spellings[i]) {
                    found = true;
                }
                i = i + 1;
            }
            proof {
                if spellings_view(spellings@).contains(seg_idents(segs@)) {
                    let m = choose|m: int|
                        0 <= m < spellings_view(spellings@).len() && spellings_view(
                            spellings@,
                        )[m] == seg_idents(segs@);
                    assert(spellings_view(spellings@)[m] == seg_idents(segs@));
                }
            }
            if !found {
                return None;
            }
            let last = &segs[segs.len() - 1];
            if last.args.len() != 1 {
                return None;
            }
            match &last.args[0] {
                GenericArg::Type(t) => Some(t.text.clone()),
                GenericArg::NotType => None,
            }
        },
    }
}

/// A member's role in synthesis.
#[derive(Debug)]
pub enum Classification {
    /// Must be set before finalization.
    Required,
    /// Of the optional wrapper: set with its inner type, may stay unset.
    Optional { inner: String },
    /// Of the collection wrapper with an `each` annotation: filled one
    /// element at a time through the appender.
    Accumulating { inner: String, appender: String },
}

/// A classification as a value.
pub ghost enum ClassView {
    Required,
    Optional(Seq<char>),
    Accumulating(Seq<char>, Seq<char>),
}

impl View for Classification {
    type V = ClassView;

    open spec fn view(&self) -> ClassView {
        match self {
            Classification::Required => ClassView::Required,
            Classification::Optional { inner } => ClassView::Optional(inner@),
            Classification::Accumulating { inner, appender } => ClassView::Accumulating(
                inner@,
                appender@,
            ),
        }
    }
}

/// The role of a member of type `ty` with the `each` value `each`: with
/// `each`, the type must be a collection, else the member is refused; without,
/// an optional type is optional and any other type required.
pub open spec fn classify_spec(ty: TypeExpr, each: Option<Seq<char>>) -> Option<ClassView> {
    match each {
        Some(x) => match wrapper_inner(ty, collection_spellings()) {
            Some(inner) => Some(ClassView::Accumulating(inner, x)),
            None => None,
        },
        None => match wrapper_inner(ty, optional_spellings()) {
            Some(inner) => Some(ClassView::Optional(inner)),
            None => Some(ClassView::Required),
        },
    }
}

/// Classifies a member from its declared type and its `each` value; `None`
/// where `each` is given and the type is not of a collection shape.
pub fn classify(ty: &TypeExpr, each: Option<String>) -> (r: Option<Classification>)
    ensures
        match classify_spec(*ty, opt_view(each)) {
            Some(c) => r is Some && (r->Some_0)@ == c,
            None => r is None,
        },
{
    match each {
        Some(x) => {
            let table = collection_table();
            match match_wrapper(ty, &table) {
                Some(inner) => Some(Classification::Accumulating { inner, appender: x }),
                None => None,
            }
        },
        None => {
            let table = optional_table();
            match match_wrapper(ty, &table) {
                Some(inner) => Some(Classification::Optional { inner }),
                None => Some(Classification::Required),
            }
        },
    }
}

} // verus!
