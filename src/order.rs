use vstd::prelude::*;

use crate::text::{join_path, path_string, str_lt, text_gt, texts};

verus! {

/// A branch pattern of a match construct, reduced to what ordering reads.
/// `loc` is the host's handle on the source location.
#[derive(Debug)]
pub enum Pattern {
    /// A binding, `x`.
    Ident { name: String, loc: usize },
    /// A path, `E::A`.
    Path { segments: Vec<String>, loc: usize },
    /// A tuple-struct pattern, `E::A(..)`; its key is its path.
    TupleStruct { segments: Vec<String>, loc: usize },
    /// The catch-all `_`.
    Wild { loc: usize },
    /// An alternation, `a | b`.
    Or { cases: Vec<Pattern> },
    /// Any other shape: ordering cannot read it.
    Unsupported { loc: usize },
}

/// A variant of a tagged union: its identifier and location.
#[derive(Debug)]
pub struct Variant {
    pub name: String,
    pub loc: usize,
}

/// A comparable key and where it stands.
#[derive(Debug)]
pub struct OrderKey {
    pub key: String,
    pub loc: usize,
}

#[derive(Debug)]
pub enum OrderError {
    /// A pattern shape that ordering cannot interpret.
    UnsupportedPattern { loc: usize },
    /// `later` stands after `earlier` but sorts before it; `loc` is `later`'s.
    OutOfOrder { later: String, earlier: String, loc: usize },
}

/// A key as a value: its text and its location.
pub open spec fn key_view(k: OrderKey) -> (Seq<char>, usize) {
    (k.key@, k.loc)
}

pub open spec fn keys_view(ks: Seq<OrderKey>) -> Seq<(Seq<char>, usize)> {
    ks.map_values(|k: OrderKey| key_view(k))
}

/// The text of the catch-all key.
pub open spec fn wild_key() -> Seq<char> {
    seq!['_']
}

/// The keys of one pattern in order, or the location of the first shape that
/// ordering cannot read.
pub open spec fn flatten_pattern(p: Pattern) -> Result<Seq<(Seq<char>, usize)>, usize>
    decreases p,
{
    match p {
        Pattern::Ident { name, loc } => Ok(seq![(name@, loc)]),
        Pattern::Path { segments, loc } => Ok(seq![(join_path(texts(segments@)), loc)]),
        Pattern::TupleStruct { segments, loc } => Ok(seq![(join_path(texts(segments@)), loc)]),
        Pattern::Wild { loc } => Ok(seq![(wild_key(), loc)]),
        Pattern::Or { cases } => flatten_patterns(cases@),
        Pattern::Unsupported { loc } => Err(loc),
    }
}

/// The keys of a list of patterns, each pattern's keys in turn.
pub open spec fn flatten_patterns(ps: Seq<Pattern>) -> Result<Seq<(Seq<char>, usize)>, usize>
    decreases ps,
{
    if ps.len() == 0 {
        Ok(Seq::empty())
    } else {
        match flatten_patterns(ps.drop_last()) {
            Err(loc) => Err(loc),
            Ok(front) => match flatten_pattern(ps.last()) {
                Err(loc) => Err(loc),
                Ok(back) => Ok(front + back),
            },
        }
    }
}

/// Keys `i < j` where the later one sorts strictly before the earlier one.
pub open spec fn misordered(ks: Seq<(Seq<char>, usize)>, i: int, j: int) -> bool {
    0 <= i < j < ks.len() && text_gt(ks[i].0, ks[j].0)
}

/// `(i, j)` comes before `(i2, j2)` in the order pairs are compared: by the
/// earlier key first, then by the later one.
pub open spec fn pair_before(i: int, j: int, i2: int, j2: int) -> bool {
    i < i2 || (i == i2 && j < j2)
}

/// No key sorts before a key that stands ahead of it.
pub open spec fn keys_sorted(ks: Seq<(Seq<char>, usize)>) -> bool {
    forall|i: int, j: int| !#[trigger] misordered(ks, i, j)
}

/// What checking the order of `ks` yields: success when sorted, else the first
/// misordered pair in comparison order, reported at the later key.
pub open spec fn order_verdict(ks: Seq<(Seq<char>, usize)>, r: Result<(), OrderError>) -> bool {
    match r {
        Ok(()) => keys_sorted(ks),
        Err(OrderError::OutOfOrder { later, earlier, loc }) => exists|i: int, j: int|
            {
                &&& #[trigger] misordered(ks, i, j)
                &&& forall|i2: int, j2: int|
                    #![trigger misordered(ks, i2, j2)]
                    pair_before(i2, j2, i, j) ==> !misordered(ks, i2, j2)
                &&& later@ == ks[j].0
                &&& earlier@ == ks[i].0
                &&& loc == ks[j].1
            },
        Err(OrderError::UnsupportedPattern { .. }) => false,
    }
}

/// Appends the keys of `p` to `out`.
fn flatten_into(p: &Pattern, out: &mut Vec<OrderKey>) -> (r: Result<(), OrderError>)
    ensures
        match flatten_pattern(*p) {
            Ok(ks) => r is Ok && keys_view(final(out)@) == keys_view(old(out)@) + ks,
            Err(loc) => r == Err::<(), OrderError>(OrderError::UnsupportedPattern { loc }),
        },
    decreases p,
{
    let ghost before = keys_view(out@);
    let k = match p {
        Pattern::Ident { name, loc } => OrderKey { key: name.clone(), loc: *loc },
        Pattern::Path { segments, loc } => OrderKey { key: path_string(segments), loc: *loc },
        Pattern::TupleStruct { segments, loc } => OrderKey {
            key: path_string(segments),
            loc: *loc,
        },
        Pattern::Wild { loc } => {
            let w = String::from_str("_");
            proof {
                reveal_strlit("_");
                assert(w@ =~= wild_key());
            }
            OrderKey { key: w, loc: *loc }
        },
        Pattern::Or { cases } => {
            return flatten_list_into(cases, out);
        },
        Pattern::Unsupported { loc } => {
            return Err(OrderError::UnsupportedPattern { loc: *loc });
        },
    };
    assert(flatten_pattern(*p) == Ok::<Seq<(Seq<char>, usize)>, usize>(seq![key_view(k)]));
    out.push(k);
    assert(keys_view(out@) =~= before + seq![key_view(k)]);
    Ok(())
}

/// Appends the keys of each pattern of `ps` to `out`, in order.
fn flatten_list_into(ps: &Vec<Pattern>, out: &mut Vec<OrderKey>) -> (r: Result<(), OrderError>)
    ensures
        match flatten_patterns(ps@) {
            Ok(ks) => r is Ok && keys_view(final(out)@) == keys_view(old(out)@) + ks,
            Err(loc) => r == Err::<(), OrderError>(OrderError::UnsupportedPattern { loc }),
        },
    decreases ps,
{
    let ghost start = keys_view(out@);
    let mut i: usize = 0;
    while i < ps.len()
        invariant
            i <= ps.len(),
            flatten_patterns(ps@.subrange(0, i as int)) is Ok,
            keys_view(out@) == start + flatten_patterns(ps@.subrange(0, i as int))->Ok_0,
        decreases ps.len() - i,
    {
        proof {
            assert(ps@.subrange(0, i as int + 1).drop_last() =~= ps@.subrange(0, i as int));
        }
        let res = flatten_into(&ps[i], out);
        match res {
            Ok(()) => {},
            Err(e) => {
                proof {
                    lemma_flatten_prefix_err(ps@, i as int + 1);
                }
                return Err(e);
            },
        }
        i = i + 1;
        proof {
            assert(keys_view(out@) =~= start + flatten_patterns(ps@.subrange(0, i as int))->Ok_0);
        }
    }
    proof {
        assert(ps@.subrange(0, ps.len() as int) =~= ps@);
    }
    Ok(())
}

/// A failure on a prefix is the failure of the whole list.
proof fn lemma_flatten_prefix_err(ps: Seq<Pattern>, n: int)
    requires
        0 <= n <= ps.len(),
        flatten_patterns(ps.subrange(0, n)) is Err,
    ensures
        flatten_patterns(ps) == flatten_patterns(ps.subrange(0, n)),
    decreases ps.len() - n,
{
    if n < ps.len() {
        assert(ps.subrange(0, n + 1).drop_last() =~= ps.subrange(0, n));
        lemma_flatten_prefix_err(ps, n + 1);
    } else {
        assert(ps.subrange(0, n) =~= ps);
    }
}

/// Flattens branch patterns into their keys, in order: an identifier or a
/// path gives its name, an alternation the keys of each alternative, the
/// wildcard the catch-all key `_`; any other shape fails.
pub fn flatten_branch_patterns(ps: &Vec<Pattern>) -> (r: Result<Vec<OrderKey>, OrderError>)
    ensures
        match flatten_patterns(ps@) {
            Ok(ks) => r is Ok && keys_view(r->Ok_0@) == ks,
            Err(loc) => r == Err::<Vec<OrderKey>, OrderError>(
                OrderError::UnsupportedPattern { loc },
            ),
        },
{
    let mut out: Vec<OrderKey> = Vec::new();
    proof {
        assert(keys_view(out@) =~= Seq::empty());
    }
    match flatten_list_into(ps, &mut out) {
        Ok(()) => {
            proof {
                assert(keys_view(out@) =~= Seq::empty() + flatten_patterns(ps@)->Ok_0);
            }
            Ok(out)
        },
        Err(e) => Err(e),
    }
}

/// Checks that the keys are in ascending lexical order, comparing each key
/// with every later one; the first misordered pair is reported at the later
/// key.
pub fn check_key_order(ks: &Vec<OrderKey>) -> (r: Result<(), OrderError>)
    ensures
        order_verdict(keys_view(ks@), r),
{
    let ghost kv = keys_view(ks@);
    let n = ks.len();
    let mut i: usize = 0;
    while i < n
        invariant
            n == ks.len(),
            kv == keys_view(ks@),
            kv.len() == n,
            i <= n,
            forall|i2: int, j2: int| #![trigger misordered(kv, i2, j2)] i2 < i ==> !misordered(kv, i2, j2),
        decreases n - i,
    {
        let mut j: usize = i + 1;
        while j < n
            invariant
                n == ks.len(),
                kv == keys_view(ks@),
                kv.len() == n,
                i < n,
                i + 1 <= j <= n,
                forall|i2: int, j2: int| #![trigger misordered(kv, i2, j2)] i2 < i ==> !misordered(kv, i2, j2),
                forall|j2: int| #![trigger misordered(kv, i as int, j2)] j2 < j ==> !misordered(kv, i as int, j2),
            decreases n - j,
        {
            if str_lt(ks[j].key.as_str(), ks[i].key.as_str()) {
                let r = Err(
                    OrderError::OutOfOrder {
                        later: ks[j].key.clone(),
                        earlier: ks[i].key.clone(),
                        loc: ks[j].loc,
                    },
                );
                proof {
                    assert(misordered(kv, i as int, j as int));
                    assert forall|i2: int, j2: int|
                        #![trigger misordered(kv, i2, j2)]
                        pair_before(i2, j2, i as int, j as int) implies !misordered(kv, i2, j2) by {
                        if i2 == i {
                        }
                    }
                }
                return r;
            }
            j = j + 1;
        }
        i = i + 1;
    }
    Ok(())
}

/// The keys of a variant list: each variant's identifier and location.
pub open spec fn variant_keys(vs: Seq<Variant>) -> Seq<(Seq<char>, usize)> {
    vs.map_values(|v: Variant| (v.name@, v.loc))
}

/// Checks that a tagged union's variants stand in ascending lexical order of
/// their identifiers.
pub fn check_variant_order(vs: &Vec<Variant>) -> (r: Result<(), OrderError>)
    ensures
        order_verdict(variant_keys(vs@), r),
{
    let mut ks: Vec<OrderKey> = Vec::new();
    let mut i: usize = 0;
    while i < vs.len()
        invariant
            i <= vs.len(),
            keys_view(ks@) == variant_keys(vs@.subrange(0, i as int)),
        decreases vs.len() - i,
    {
        let k = OrderKey { key: vs[i].name.clone(), loc: vs[i].loc };
        let ghost prev = ks@;
        ks.push(k);
        proof {
            assert(key_view(k) == (vs@[i as int].name@, vs@[i as int].loc));
            assert(keys_view(ks@) =~= keys_view(prev).push(key_view(k)));
            assert(vs@.subrange(0, i as int + 1) =~= vs@.subrange(0, i as int).push(vs@[i as int]));
            assert(keys_view(ks@) =~= variant_keys(vs@.subrange(0, i as int + 1)));
        }
        i = i + 1;
    }
    proof {
        assert(vs@.subrange(0, vs.len() as int) =~= vs@);
    }
    check_key_order(&ks)
}

/// Checks that a match construct's branches stand in ascending lexical order
/// of their flattened keys; a pattern that cannot be read fails first.
pub fn check_branch_order(ps: &Vec<Pattern>) -> (r: Result<(), OrderError>)
    ensures
        match flatten_patterns(ps@) {
            Ok(ks) => order_verdict(ks, r),
            Err(loc) => r == Err::<(), OrderError>(OrderError::UnsupportedPattern { loc }),
        },
{
    match flatten_branch_patterns(ps) {
        Ok(ks) => check_key_order(&ks),
        Err(e) => Err(e),
    }
}

} // verus!
