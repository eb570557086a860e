use vstd::prelude::*;

use crate::builder::{plan_of_entry, plan_spec, Action, EntryView, FieldPlanView, Finish, SlotInit};
use crate::shape::ClassView;

verus! {

// What the code of a builder plan does when it runs: the aggregate's slots,
// the mutators' effect on them, and finalization.

/// The content of one slot of the aggregate.
pub ghost enum SlotState<V> {
    Absent,
    Present(V),
    List(Seq<V>),
}

/// The value of one member of the finished record.
pub ghost enum FieldValue<V> {
    /// A required member's value.
    One(V),
    /// An optional member's value.
    Maybe(Option<V>),
    /// An accumulating member's elements.
    Many(Seq<V>),
}

pub open spec fn list_of<V>(s: SlotState<V>) -> Seq<V> {
    match s {
        SlotState::List(l) => l,
        _ => Seq::empty(),
    }
}

/// The slots as the factory makes them.
pub open spec fn initial_slots<V>(p: Seq<FieldPlanView>) -> Seq<SlotState<V>> {
    Seq::new(
        p.len(),
        |k: int|
            if p[k].init == SlotInit::EmptyList {
                SlotState::List(Seq::empty())
            } else {
                SlotState::Absent
            },
    )
}

/// The slots after the mutator of member `k` is called with `v`.
pub open spec fn apply_call<V>(p: Seq<FieldPlanView>, st: Seq<SlotState<V>>, k: int, v: V) -> Seq<
    SlotState<V>,
> {
    if 0 <= k < st.len() && k < p.len() {
        st.update(
            k,
            match p[k].action {
                Action::Store => SlotState::Present(v),
                Action::Push => SlotState::List(list_of(st[k]).push(v)),
            },
        )
    } else {
        st
    }
}

/// The slots after a sequence of mutator calls, each a member index and an
/// argument, made in order.
pub open spec fn run_calls<V>(p: Seq<FieldPlanView>, st: Seq<SlotState<V>>, calls: Seq<(int, V)>) -> Seq<
    SlotState<V>,
>
    decreases calls.len(),
{
    if calls.len() == 0 {
        st
    } else {
        let c = calls.last();
        apply_call(p, run_calls(p, st, calls.drop_last()), c.0, c.1)
    }
}

/// A slot read as the member's value.
pub open spec fn slot_value<V>(f: FieldPlanView, s: SlotState<V>) -> FieldValue<V> {
    match f.action {
        Action::Push => FieldValue::Many(list_of(s)),
        Action::Store => match f.finish {
            Finish::RequirePresent => match s {
                SlotState::Present(v) => FieldValue::One(v),
                _ => FieldValue::Maybe(None),
            },
            Finish::TakeAsIs => match s {
                SlotState::Present(v) => FieldValue::Maybe(Some(v)),
                _ => FieldValue::Maybe(None),
            },
        },
    }
}

/// Finalization from member `k` on: the first required member whose slot is
/// not present fails, naming that member; otherwise the members' values in
/// declaration order.
pub open spec fn finalize_from<V>(p: Seq<FieldPlanView>, st: Seq<SlotState<V>>, k: int) -> Result<
    Seq<FieldValue<V>>,
    Seq<char>,
>
    decreases p.len() - k,
{
    if k < 0 || k >= p.len() {
        Ok(Seq::empty())
    } else if p[k].finish == Finish::RequirePresent && !(st[k] is Present) {
        Err(p[k].field)
    } else {
        match finalize_from(p, st, k + 1) {
            Ok(rest) => Ok(seq![slot_value(p[k], st[k])] + rest),
            Err(name) => Err(name),
        }
    }
}

/// What the finalization method returns on the slots `st`: the record's
/// values, or the name of a missing member.
pub open spec fn finalize<V>(p: Seq<FieldPlanView>, st: Seq<SlotState<V>>) -> Result<
    Seq<FieldValue<V>>,
    Seq<char>,
> {
    finalize_from(p, st, 0)
}

/// The slots after the factory and then `calls`.
pub open spec fn build_run<V>(p: Seq<FieldPlanView>, calls: Seq<(int, V)>) -> Seq<SlotState<V>> {
    run_calls(p, initial_slots(p), calls)
}

proof fn lemma_run_len<V>(p: Seq<FieldPlanView>, st: Seq<SlotState<V>>, calls: Seq<(int, V)>)
    ensures
        run_calls(p, st, calls).len() == st.len(),
    decreases calls.len(),
{
    if calls.len() > 0 {
        lemma_run_len(p, st, calls.drop_last());
    }
}

proof fn lemma_store_present<V>(p: Seq<FieldPlanView>, calls: Seq<(int, V)>, k: int)
    requires
        forall|j: int| 0 <= j < p.len() ==> p[j].action == Action::Store && p[j].init
            == SlotInit::Absent,
        0 <= k < p.len(),
    ensures
        build_run(p, calls)[k] is Present <==> exists|c: int|
            0 <= c < calls.len() && #[trigger] calls[c].0 == k,
    decreases calls.len(),
{
    if calls.len() > 0 {
        let front = calls.drop_last();
        lemma_store_present(p, front, k);
        lemma_run_len(p, initial_slots::<V>(p), front);
        if exists|c: int| 0 <= c < front.len() && #[trigger] front[c].0 == k {
            let c = choose|c: int| 0 <= c < front.len() && #[trigger] front[c].0 == k;
            assert(calls[c].0 == k);
        }
        if exists|c: int| 0 <= c < calls.len() && #[trigger] calls[c].0 == k {
            let c = choose|c: int| 0 <= c < calls.len() && #[trigger] calls[c].0 == k;
            if c < calls.len() - 1 {
                assert(front[c].0 == k);
            }
        }
    }
}

proof fn lemma_finalize_err<V>(p: Seq<FieldPlanView>, st: Seq<SlotState<V>>, k: int)
    requires
        0 <= k <= p.len(),
    ensures
        finalize_from(p, st, k) is Err <==> exists|j: int|
            k <= j < p.len() && #[trigger] p[j].finish == Finish::RequirePresent && !(
            st[j] is Present),
    decreases p.len() - k,
{
    if k < p.len() {
        lemma_finalize_err(p, st, k + 1);
    }
}

/// No call in `calls` is made on member `k`.
pub open spec fn never_called<V>(calls: Seq<(int, V)>, k: int) -> bool {
    forall|c: int| 0 <= c < calls.len() ==> #[trigger] calls[c].0 != k
}

/// With only required members, the finalization method fails with a
/// missing member exactly when some member's setter was never called.
pub proof fn law_missing_field_iff_unset<V>(model: Seq<EntryView>, calls: Seq<(int, V)>)
    requires
        forall|k: int| 0 <= k < model.len() ==> #[trigger] model[k].class == ClassView::Required,
    ensures
        finalize(plan_spec(model), build_run(plan_spec(model), calls)) is Err <==> exists|k: int|
            0 <= k < model.len() && #[trigger] never_called(calls, k),
{
    let p = plan_spec(model);
    let st = build_run(p, calls);
    assert forall|j: int| 0 <= j < p.len() implies p[j].action == Action::Store && p[j].init
        == SlotInit::Absent && p[j].finish == Finish::RequirePresent by {
        assert(model[j].class == ClassView::Required);
    }
    lemma_finalize_err(p, st, 0);
    if finalize(p, st) is Err {
        let j = choose|j: int|
            0 <= j < p.len() && #[trigger] p[j].finish == Finish::RequirePresent && !(
            st[j] is Present);
        lemma_store_present(p, calls, j);
        assert(never_called(calls, j));
    }
    if exists|k: int| 0 <= k < model.len() && #[trigger] never_called(calls, k) {
        let k = choose|k: int| 0 <= k < model.len() && #[trigger] never_called(calls, k);
        lemma_store_present(p, calls, k);
        assert(p[k].finish == Finish::RequirePresent);
    }
}

/// A member's value fits its role: a required member has one value, an
/// optional one maybe a value, an accumulating one a sequence of elements.
pub open spec fn value_fits<V>(e: EntryView, v: FieldValue<V>) -> bool {
    match e.class {
        ClassView::Required => v is One,
        ClassView::Optional(_) => v is Maybe,
        ClassView::Accumulating(_, _) => v is Many,
    }
}

/// The mutator calls that give member `k` the value `v`: one setter call
/// for a present value, none for an absent one, one appender call per
/// element in order.
pub open spec fn member_calls<V>(k: int, v: FieldValue<V>) -> Seq<(int, V)> {
    match v {
        FieldValue::One(x) => seq![(k, x)],
        FieldValue::Maybe(Some(x)) => seq![(k, x)],
        FieldValue::Maybe(None) => Seq::empty(),
        FieldValue::Many(xs) => appends(k, xs),
    }
}

/// One call on member `k` per element of `xs`, in order.
pub open spec fn appends<V>(k: int, xs: Seq<V>) -> Seq<(int, V)> {
    xs.map_values(|x: V| (k, x))
}

/// The calls that give each member its value, member by member.
pub open spec fn calls_for<V>(vals: Seq<FieldValue<V>>) -> Seq<(int, V)>
    decreases vals.len(),
{
    if vals.len() == 0 {
        Seq::empty()
    } else {
        calls_for(vals.drop_last()) + member_calls(vals.len() - 1, vals.last())
    }
}

/// The slot that holds a member's value.
pub open spec fn encode<V>(v: FieldValue<V>) -> SlotState<V> {
    match v {
        FieldValue::One(x) => SlotState::Present(x),
        FieldValue::Maybe(Some(x)) => SlotState::Present(x),
        FieldValue::Maybe(None) => SlotState::Absent,
        FieldValue::Many(xs) => SlotState::List(xs),
    }
}

proof fn lemma_run_concat<V>(
    p: Seq<FieldPlanView>,
    st: Seq<SlotState<V>>,
    a: Seq<(int, V)>,
    b: Seq<(int, V)>,
)
    ensures
        run_calls(p, st, a + b) == run_calls(p, run_calls(p, st, a), b),
    decreases b.len(),
{
    if b.len() == 0 {
        assert(a + b =~= a);
    } else {
        assert((a + b).drop_last() =~= a + b.drop_last());
        assert((a + b).last() == b.last());
        lemma_run_concat(p, st, a, b.drop_last());
    }
}

proof fn lemma_run_appends<V>(p: Seq<FieldPlanView>, st: Seq<SlotState<V>>, k: int, xs: Seq<V>)
    requires
        0 <= k < p.len(),
        st.len() == p.len(),
        p[k].action == Action::Push,
        st[k] is List,
    ensures
        run_calls(p, st, appends(k, xs)) == st.update(k, SlotState::List(list_of(st[k]) + xs)),
    decreases xs.len(),
{
    if xs.len() == 0 {
        assert(list_of(st[k]) + xs =~= list_of(st[k]));
        assert(st.update(k, SlotState::List(list_of(st[k]) + xs)) =~= st);
        assert(appends(k, xs) =~= Seq::<(int, V)>::empty());
        lemma_run_empty_list(p, st);
    } else {
        assert(appends(k, xs).drop_last() =~= appends(k, xs.drop_last()));
        lemma_run_appends(p, st, k, xs.drop_last());
        let mid = run_calls(p, st, appends(k, xs.drop_last()));
        assert(appends(k, xs).last() == (k, xs.last()));
        assert(list_of(mid[k]) == list_of(st[k]) + xs.drop_last());
        assert((list_of(st[k]) + xs.drop_last()).push(xs.last()) =~= list_of(st[k]) + xs);
        assert(run_calls(p, st, appends(k, xs)) =~= st.update(
            k,
            SlotState::List(list_of(st[k]) + xs),
        ));
    }
}

proof fn lemma_run_empty_list<V>(p: Seq<FieldPlanView>, st: Seq<SlotState<V>>)
    ensures
        run_calls(p, st, Seq::<(int, V)>::empty()) == st,
{
}

/// The slots after the calls for the first `n` members' values.
pub open spec fn encoded_prefix<V>(p: Seq<FieldPlanView>, vals: Seq<FieldValue<V>>, n: int) -> Seq<
    SlotState<V>,
> {
    Seq::new(
        p.len(),
        |j: int|
            if j < n {
                encode(vals[j])
            } else {
                initial_slots::<V>(p)[j]
            },
    )
}

proof fn lemma_plan_facts(model: Seq<EntryView>, k: int)
    requires
        0 <= k < model.len(),
    ensures
        plan_spec(model)[k] == plan_of_entry(model[k]),
        plan_spec(model).len() == model.len(),
{
}

proof fn lemma_member_calls<V>(model: Seq<EntryView>, vals: Seq<FieldValue<V>>, n: int)
    requires
        vals.len() == model.len(),
        forall|k: int| 0 <= k < model.len() ==> #[trigger] value_fits(model[k], vals[k]),
        0 <= n < model.len(),
    ensures
        run_calls(plan_spec(model), encoded_prefix(plan_spec(model), vals, n), member_calls(n, vals[n]))
            == encoded_prefix(plan_spec(model), vals, n + 1),
{
    let p = plan_spec(model);
    let st = encoded_prefix(p, vals, n);
    lemma_plan_facts(model, n);
    assert(value_fits(model[n], vals[n]));
    let target = encoded_prefix(p, vals, n + 1);
    assert(target =~= st.update(n, encode(vals[n])));
    match vals[n] {
        FieldValue::Many(xs) => {
            lemma_run_appends(p, st, n, xs);
            assert(list_of(st[n]) + xs =~= xs);
        },
        FieldValue::Maybe(None) => {
            lemma_run_empty_list(p, st);
            assert(st.update(n, encode(vals[n])) =~= st);
        },
        FieldValue::Maybe(Some(x)) => {
            let c = member_calls(n, vals[n]);
            assert(c.drop_last() =~= Seq::<(int, V)>::empty());
            lemma_run_empty_list(p, st);
            assert(c.last() == (n, x));
            assert(run_calls(p, st, c) == apply_call(p, st, n, x));
        },
        FieldValue::One(x) => {
            let c = member_calls(n, vals[n]);
            assert(c.drop_last() =~= Seq::<(int, V)>::empty());
            lemma_run_empty_list(p, st);
            assert(c.last() == (n, x));
            assert(run_calls(p, st, c) == apply_call(p, st, n, x));
        },
    }
}

proof fn lemma_calls_for_prefix<V>(model: Seq<EntryView>, vals: Seq<FieldValue<V>>, n: int)
    requires
        vals.len() == model.len(),
        forall|k: int| 0 <= k < model.len() ==> #[trigger] value_fits(model[k], vals[k]),
        0 <= n <= model.len(),
    ensures
        build_run(plan_spec(model), calls_for(vals.subrange(0, n))) == encoded_prefix(
            plan_spec(model),
            vals,
            n,
        ),
    decreases n,
{
    let p = plan_spec(model);
    if n == 0 {
        assert(encoded_prefix(p, vals, 0) =~= initial_slots::<V>(p));
    } else {
        let sub = vals.subrange(0, n);
        assert(sub.drop_last() =~= vals.subrange(0, n - 1));
        assert(sub.last() == vals[n - 1]);
        lemma_calls_for_prefix(model, vals, n - 1);
        lemma_run_concat(
            p,
            initial_slots::<V>(p),
            calls_for(vals.subrange(0, n - 1)),
            member_calls(n - 1, vals[n - 1]),
        );
        lemma_member_calls(model, vals, n - 1);
    }
}

proof fn lemma_finalize_encoded<V>(model: Seq<EntryView>, vals: Seq<FieldValue<V>>, k: int)
    requires
        vals.len() == model.len(),
        forall|j: int| 0 <= j < model.len() ==> #[trigger] value_fits(model[j], vals[j]),
        0 <= k <= model.len(),
    ensures
        finalize_from(plan_spec(model), encoded_prefix(plan_spec(model), vals, model.len() as int), k)
            == Ok::<Seq<FieldValue<V>>, Seq<char>>(vals.skip(k)),
    decreases model.len() - k,
{
    let p = plan_spec(model);
    let st = encoded_prefix(p, vals, model.len() as int);
    if k == model.len() {
        assert(vals.skip(k) =~= Seq::<FieldValue<V>>::empty());
    } else {
        lemma_finalize_encoded(model, vals, k + 1);
        lemma_plan_facts(model, k);
        assert(value_fits(model[k], vals[k]));
        assert(slot_value(p[k], st[k]) == vals[k]);
        assert(seq![vals[k]] + vals.skip(k + 1) =~= vals.skip(k));
    }
}

/// Round trip: after the factory, the calls that set every member's value
/// (each required member once, each optional member once where it has a
/// value, each element through the appender), finalization returns exactly
/// those values, as a record built directly from them would hold.
pub proof fn law_round_trip<V>(model: Seq<EntryView>, vals: Seq<FieldValue<V>>)
    requires
        vals.len() == model.len(),
        forall|k: int| 0 <= k < model.len() ==> #[trigger] value_fits(model[k], vals[k]),
    ensures
        finalize(plan_spec(model), build_run(plan_spec(model), calls_for(vals))) == Ok::<
            Seq<FieldValue<V>>,
            Seq<char>,
        >(vals),
{
    assert(vals.subrange(0, vals.len() as int) =~= vals);
    lemma_calls_for_prefix(model, vals, model.len() as int);
    lemma_finalize_encoded(model, vals, 0);
    assert(vals.skip(0) =~= vals);
}

/// A member annotated `each = "x"` whose type is a collection gets a mutator
/// named `x` that appends and never stores a whole value; after the factory,
/// calls of it leave the member's slot holding their arguments in call order.
pub proof fn law_appender_accumulates<V>(model: Seq<EntryView>, k: int, xs: Seq<V>)
    requires
        0 <= k < model.len(),
        model[k].class is Accumulating,
    ensures
        plan_spec(model)[k].method == model[k].class->Accumulating_1,
        plan_spec(model)[k].action == Action::Push,
        plan_spec(model)[k].action != Action::Store,
        build_run(plan_spec(model), appends(k, xs))[k] == SlotState::List(xs),
{
    let p = plan_spec(model);
    lemma_plan_facts(model, k);
    lemma_run_appends(p, initial_slots::<V>(p), k, xs);
    assert(list_of(initial_slots::<V>(p)[k]) + xs =~= xs);
}

/// An appender called on any builder state appends its arguments, in call
/// order, to what its member's slot holds, and leaves every other slot as it
/// was.
pub proof fn law_appender_from_any_state<V>(
    model: Seq<EntryView>,
    k: int,
    st: Seq<SlotState<V>>,
    xs: Seq<V>,
)
    requires
        0 <= k < model.len(),
        model[k].class is Accumulating,
        st.len() == model.len(),
        st[k] is List,
    ensures
        run_calls(plan_spec(model), st, appends(k, xs)) == st.update(
            k,
            SlotState::List(list_of(st[k]) + xs),
        ),
{
    lemma_plan_facts(model, k);
    lemma_run_appends(plan_spec(model), st, k, xs);
}

/// Member `j` is required and its slot is not present.
pub open spec fn unset_required<V>(p: Seq<FieldPlanView>, st: Seq<SlotState<V>>, j: int) -> bool {
    p[j].finish == Finish::RequirePresent && !(st[j] is Present)
}

proof fn lemma_finalize_names_first<V>(p: Seq<FieldPlanView>, st: Seq<SlotState<V>>, k: int)
    requires
        0 <= k <= p.len(),
        finalize_from(p, st, k) is Err,
    ensures
        exists|j: int|
            k <= j < p.len() && #[trigger] unset_required(p, st, j) && finalize_from(p, st, k)
                == Err::<Seq<FieldValue<V>>, Seq<char>>(p[j].field) && forall|m: int|
                k <= m < j ==> !unset_required(p, st, m),
    decreases p.len() - k,
{
    if unset_required(p, st, k) {
        assert(finalize_from(p, st, k) == Err::<Seq<FieldValue<V>>, Seq<char>>(p[k].field));
    } else {
        lemma_finalize_names_first(p, st, k + 1);
        let j = choose|j: int|
            k + 1 <= j < p.len() && #[trigger] unset_required(p, st, j) && finalize_from(p, st, k + 1)
                == Err::<Seq<FieldValue<V>>, Seq<char>>(p[j].field) && forall|m: int|
                k + 1 <= m < j ==> !unset_required(p, st, m);
        assert(k <= j < p.len() && unset_required(p, st, j));
    }
}

/// With only required members, a failing finalization names the first
/// member, in declaration order, whose setter was never called.
pub proof fn law_missing_field_names_first_unset<V>(model: Seq<EntryView>, calls: Seq<(int, V)>)
    requires
        forall|k: int| 0 <= k < model.len() ==> #[trigger] model[k].class == ClassView::Required,
        finalize(plan_spec(model), build_run(plan_spec(model), calls)) is Err,
    ensures
        exists|k: int|
            0 <= k < model.len() && #[trigger] never_called(calls, k) && (forall|m: int|
                0 <= m < k ==> !never_called(calls, m)) && finalize(
                plan_spec(model),
                build_run(plan_spec(model), calls),
            ) == Err::<Seq<FieldValue<V>>, Seq<char>>(model[k].name),
{
    let p = plan_spec(model);
    let st = build_run(p, calls);
    assert forall|j: int| 0 <= j < p.len() implies p[j].action == Action::Store && p[j].init
        == SlotInit::Absent && p[j].finish == Finish::RequirePresent && p[j].field == model[j].name by {
        assert(model[j].class == ClassView::Required);
    }
    lemma_finalize_names_first(p, st, 0);
    let j = choose|j: int|
        0 <= j < p.len() && #[trigger] unset_required(p, st, j) && finalize_from(p, st, 0) == Err::<
            Seq<FieldValue<V>>,
            Seq<char>,
        >(p[j].field) && forall|m: int| 0 <= m < j ==> !unset_required(p, st, m);
    lemma_store_present(p, calls, j);
    assert(never_called(calls, j));
    assert forall|m: int| 0 <= m < j implies !never_called(calls, m) by {
        lemma_store_present(p, calls, m);
        assert(!unset_required(p, st, m));
        let c = choose|c: int| 0 <= c < calls.len() && #[trigger] calls[c].0 == m;
        assert(calls[c].0 == m);
    }
}

/// The arguments of the calls made on member `k`, in call order.
pub open spec fn values_for<V>(calls: Seq<(int, V)>, k: int) -> Seq<V>
    decreases calls.len(),
{
    if calls.len() == 0 {
        Seq::empty()
    } else {
        values_for(calls.drop_last(), k) + (if calls.last().0 == k {
            seq![calls.last().1]
        } else {
            Seq::empty()
        })
    }
}

/// The value a member ends with when its mutator was called with `vs`: a
/// required member the last of them, an optional member the last of them if
/// any, an accumulating member all of them in order.
pub open spec fn final_value<V>(e: EntryView, vs: Seq<V>) -> FieldValue<V> {
    match e.class {
        ClassView::Required => FieldValue::One(vs.last()),
        ClassView::Optional(_) => if vs.len() == 0 {
            FieldValue::Maybe(None)
        } else {
            FieldValue::Maybe(Some(vs.last()))
        },
        ClassView::Accumulating(_, _) => FieldValue::Many(vs),
    }
}

/// The slot of member `f` after its mutator was called with `vs`.
pub open spec fn slot_after<V>(f: FieldPlanView, vs: Seq<V>) -> SlotState<V> {
    if f.action == Action::Push {
        SlotState::List(vs)
    } else if vs.len() == 0 {
        SlotState::Absent
    } else {
        SlotState::Present(vs.last())
    }
}

proof fn lemma_slot_after<V>(model: Seq<EntryView>, calls: Seq<(int, V)>, k: int)
    requires
        0 <= k < model.len(),
    ensures
        build_run(plan_spec(model), calls)[k] == slot_after(plan_spec(model)[k], values_for(calls, k)),
        build_run(plan_spec(model), calls).len() == model.len(),
    decreases calls.len(),
{
    let p = plan_spec(model);
    lemma_plan_facts(model, k);
    lemma_run_len(p, initial_slots::<V>(p), calls);
    if calls.len() == 0 {
        assert(values_for(calls, k) =~= Seq::<V>::empty());
    } else {
        let front = calls.drop_last();
        lemma_slot_after(model, front, k);
        lemma_run_len(p, initial_slots::<V>(p), front);
        let c = calls.last();
        if c.0 == k {
            assert(values_for(calls, k) =~= values_for(front, k).push(c.1));
            if p[k].action == Action::Push {
                assert(list_of(build_run(p, front)[k]).push(c.1) =~= values_for(calls, k));
            }
        } else {
            assert(values_for(calls, k) =~= values_for(front, k));
        }
    }
}

proof fn lemma_finalize_after<V>(model: Seq<EntryView>, calls: Seq<(int, V)>, k: int)
    requires
        0 <= k <= model.len(),
        forall|j: int|
            0 <= j < model.len() && #[trigger] model[j].class == ClassView::Required ==> values_for(
                calls,
                j,
            ).len() > 0,
    ensures
        finalize_from(plan_spec(model), build_run(plan_spec(model), calls), k) == Ok::<
            Seq<FieldValue<V>>,
            Seq<char>,
        >(Seq::new(model.len() as nat, |j: int| final_value(model[j], values_for(calls, j))).skip(k)),
    decreases model.len() - k,
{
    let p = plan_spec(model);
    let st = build_run(p, calls);
    let expected = Seq::new(model.len() as nat, |j: int| final_value(model[j], values_for(calls, j)));
    if k == model.len() {
        assert(expected.skip(k) =~= Seq::<FieldValue<V>>::empty());
    } else {
        lemma_finalize_after(model, calls, k + 1);
        lemma_plan_facts(model, k);
        lemma_slot_after(model, calls, k);
        if model[k].class == ClassView::Required {
            assert(values_for(calls, k).len() > 0);
        }
        assert(slot_value(p[k], st[k]) == expected[k]);
        assert(seq![expected[k]] + expected.skip(k + 1) =~= expected.skip(k));
    }
}

/// Round trip in any call order: after the factory and any sequence of
/// mutator calls, interleaved as they come, in which every required member's
/// setter was called at least once, finalization returns the record a
/// direct construction with these values gives: each required member the
/// last value set, each optional member the last value set if any, each
/// accumulating member all appended elements in call order.
pub proof fn law_round_trip_any_order<V>(model: Seq<EntryView>, calls: Seq<(int, V)>)
    requires
        forall|j: int|
            0 <= j < model.len() && #[trigger] model[j].class == ClassView::Required ==> values_for(
                calls,
                j,
            ).len() > 0,
    ensures
        finalize(plan_spec(model), build_run(plan_spec(model), calls)) == Ok::<
            Seq<FieldValue<V>>,
            Seq<char>,
        >(Seq::new(model.len() as nat, |j: int| final_value(model[j], values_for(calls, j)))),
{
    lemma_finalize_after(model, calls, 0);
    let expected = Seq::new(model.len() as nat, |j: int| final_value(model[j], values_for(calls, j)));
    assert(expected.skip(0) =~= expected);
}

} // verus!
