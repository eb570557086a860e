use vstd::prelude::*;

verus! {

/// `a` and `b` agree before position `k`, and `k` decides that `a` comes
/// first: either `a` ends there and `b` goes on, or `a`'s character there
/// is the smaller one.
pub open spec fn decides_lt_at(a: Seq<char>, b: Seq<char>, k: int) -> bool {
    &&& 0 <= k <= a.len()
    &&& k <= b.len()
    &&& a.subrange(0, k) == b.subrange(0, k)
    &&& ((k == a.len() && k < b.len()) || (k < a.len() && k < b.len() && (a[k] as u32) < (
    b[k] as u32)))
}

/// Lexical order on character sequences, as `str`'s `Ord` orders them:
/// at the first position where the two differ, the smaller character comes
/// first; a proper prefix comes before the longer sequence.
pub open spec fn text_lt(a: Seq<char>, b: Seq<char>) -> bool {
    exists|k: int| decides_lt_at(a, b, k)
}

/// `a` strictly after `b` in lexical order.
pub open spec fn text_gt(a: Seq<char>, b: Seq<char>) -> bool {
    text_lt(b, a)
}

proof fn lemma_text_lt_at(a: Seq<char>, b: Seq<char>, i: int)
    requires
        0 <= i <= a.len(),
        i <= b.len(),
        forall|m: int| 0 <= m < i ==> a[m] == b[m],
        i == a.len() || i == b.len() || a[i] != b[i],
    ensures
        text_lt(a, b) <==> ((i == a.len() && i < b.len()) || (i < a.len() && i < b.len() && (
        a[i] as u32) < (b[i] as u32))),
{
    assert(a.subrange(0, i) =~= b.subrange(0, i));
    assert forall|k: int| decides_lt_at(a, b, k) implies k == i by {
        if k < i {
            assert(a[k] == b[k]);
        } else if k > i {
            assert(a.subrange(0, k)[i] == b.subrange(0, k)[i]);
        }
    }
    if (i == a.len() && i < b.len()) || (i < a.len() && i < b.len() && (a[i] as u32) < (
    b[i] as u32)) {
        assert(decides_lt_at(a, b, i));
    }
}

/// Whether `a` comes strictly before `b` in lexical order.
pub fn str_lt(a: &str, b: &str) -> (r: bool)
    ensures
        r == text_lt(a@, b@),
{
    let la = a.unicode_len();
    let lb = b.unicode_len();
    let mut i: usize = 0;
    while i < la && i < lb
        invariant
            la == a@.len(),
            lb == b@.len(),
            i <= la,
            i <= lb,
            forall|m: int| 0 <= m < i ==> a@[m] == b@[m],
        decreases la - i,
    {
        let ca = a.get_char(i);
        let cb = b.get_char(i);
        if ca != cb {
            proof {
                lemma_text_lt_at(a@, b@, i as int);
            }
            return (ca as u32) < (cb as u32);
        }
        i = i + 1;
    }
    proof {
        lemma_text_lt_at(a@, b@, i as int);
    }
    i == la && i < lb
}

/// The segments of a path joined by `::`.
pub open spec fn join_path(segs: Seq<Seq<char>>) -> Seq<char>
    decreases segs.len(),
{
    if segs.len() == 0 {
        Seq::empty()
    } else if segs.len() == 1 {
        segs[0]
    } else {
        join_path(segs.drop_last()) + seq![':', ':'] + segs.last()
    }
}

/// The views of a sequence of strings.
pub open spec fn texts(v: Seq<String>) -> Seq<Seq<char>> {
    v.map_values(|s: String| s@)
}

/// Renders path segments as one string, `a::b::c`.
pub fn path_string(segs: &Vec<String>) -> (r: String)
    ensures
        r@ == join_path(texts(segs@)),
{
    let mut out = String::new();
    let mut i: usize = 0;
    while i < segs.len()
        invariant
            i <= segs.len(),
            out@ == join_path(texts(segs@.subrange(0, i as int))),
        decreases segs.len() - i,
    {
        proof {
            let t = texts(segs@.subrange(0, i as int + 1));
            assert(t.drop_last() =~= texts(segs@.subrange(0, i as int)));
            assert(t.last() == segs@[i as int]@);
        }
        if i > 0 {
            out.append("::");
            proof {
                reveal_strlit("::");
            }
        }
        out.append(segs[i].as_str());
        i = i + 1;
    }
    proof {
        assert(segs@.subrange(0, segs.len() as int) =~= segs@);
    }
    out
}

} // verus!
