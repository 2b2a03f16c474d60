//! Ordering policies for upcoming events.
//!
//! A display list can be ordered three ways: ascending by days left,
//! descending by days left, or randomly shuffled. The two sorts are stable:
//! events with equal day counts keep their relative input order. The shuffle
//! uses a non-seedable random source, so nothing is promised of it beyond
//! that the output holds exactly the input's elements.

use vstd::prelude::*;
use vstd::seq_lib::group_seq_lib_default;
use vstd::seq_lib::group_to_multiset_ensures;
use rand::seq::SliceRandom;
use crate::event::FutureEvent;

verus! {

/// The strategy by which upcoming events are sequenced for display.
#[derive(Debug, Clone, Copy, PartialEq, Eq, Structural)]
pub enum SortOrder {
    Shuffle,
    TimeAsc,
    TimeDesc,
}

/// The failure of parsing an ordering token.
#[derive(Debug, Clone, Copy, PartialEq, Eq, Structural)]
pub enum PolicyError {
    /// The token is none of the three recognized orderings.
    InvalidPolicy,
}

impl SortOrder {
    /// Parses one of the three recognized ordering tokens.
    pub fn from_str(s: &str) -> (r: Result<SortOrder, PolicyError>)
        ensures
            r == Ok::<SortOrder, PolicyError>(SortOrder::Shuffle) <==> s@ == "shuffle"@,
            r == Ok::<SortOrder, PolicyError>(SortOrder::TimeAsc) <==> s@ == "time-asc"@,
            r == Ok::<SortOrder, PolicyError>(SortOrder::TimeDesc) <==> s@ == "time-desc"@,
            r is Err <==> (s@ != "shuffle"@ && s@ != "time-asc"@ && s@ != "time-desc"@),
    {
        proof {
            reveal_strlit("shuffle");
            reveal_strlit("time-asc");
            reveal_strlit("time-desc");
            assert("shuffle"@ != "time-asc"@ && "shuffle"@ != "time-desc"@ && "time-asc"@
                != "time-desc"@) by {
                assert("shuffle"@.len() == 7);
                assert("time-asc"@.len() == 8);
                assert("time-desc"@.len() == 9);
            }
        }
        let t = s.to_owned();
        if t == "shuffle".to_owned() {
            Ok(SortOrder::Shuffle)
        } else if t == "time-asc".to_owned() {
            Ok(SortOrder::TimeAsc)
        } else if t == "time-desc".to_owned() {
            Ok(SortOrder::TimeDesc)
        } else {
            Err(PolicyError::InvalidPolicy)
        }
    }
}

/// Whether `a` may stand before `b` under the chosen direction.
pub open spec fn days_ordered(a: u16, b: u16, is_asc: bool) -> bool {
    if is_asc {
        a <= b
    } else {
        a >= b
    }
}

/// The sequence is sorted by days left in the chosen direction.
pub open spec fn sorted_by_days(s: Seq<FutureEvent>, is_asc: bool) -> bool {
    forall|i: int, j: int|
        #![trigger s[i], s[j]]
        0 <= i < j < s.len() ==> days_ordered(s[i].days_left, s[j].days_left, is_asc)
}

/// The predicate selecting events with exactly `days` days left.
pub open spec fn has_days(days: u16) -> spec_fn(FutureEvent) -> bool {
    |e: FutureEvent| e.days_left == days
}

/// The subsequence of events with exactly `days` days left, in their
/// original relative order.
pub open spec fn with_days(s: Seq<FutureEvent>, days: u16) -> Seq<FutureEvent> {
    s.filter(has_days(days))
}

/// `output` is the stable sort of `input` in the chosen direction: same
/// length and elements, sorted, and events with equal day counts keep their
/// relative order (for each day count, the selected subsequences agree).
pub open spec fn stable_sorted(
    input: Seq<FutureEvent>,
    output: Seq<FutureEvent>,
    is_asc: bool,
) -> bool {
    &&& output.len() == input.len()
    &&& sorted_by_days(output, is_asc)
    &&& forall|days: u16| #[trigger] with_days(output, days) == with_days(input, days)
    &&& output.to_multiset() == input.to_multiset()
}

/// `output` is an admissible reordering of `input` under the policy:
/// the stable sort for the two directed policies (ascending when the policy
/// is absent), and any permutation for the shuffle.
pub open spec fn ordered_by(
    input: Seq<FutureEvent>,
    output: Seq<FutureEvent>,
    order: Option<SortOrder>,
) -> bool {
    match order {
        Some(SortOrder::Shuffle) => {
            &&& output.to_multiset() == input.to_multiset()
            &&& output.len() == input.len()
        },
        Some(SortOrder::TimeAsc) => stable_sorted(input, output, true),
        Some(SortOrder::TimeDesc) => stable_sorted(input, output, false),
        None => stable_sorted(input, output, true),
    }
}

proof fn lemma_filter_singleton(x: FutureEvent, pred: spec_fn(FutureEvent) -> bool)
    ensures
        seq![x].filter(pred) == if pred(x) {
            seq![x]
        } else {
            Seq::<FutureEvent>::empty()
        },
{
    reveal_with_fuel(Seq::filter, 2);
    assert(seq![x].drop_last() =~= Seq::<FutureEvent>::empty());
    if pred(x) {
        assert(seq![x].filter(pred) =~= seq![x]);
    } else {
        assert(seq![x].filter(pred) =~= Seq::<FutureEvent>::empty());
    }
}

proof fn lemma_filter_none(s: Seq<FutureEvent>, pred: spec_fn(FutureEvent) -> bool)
    requires
        forall|i: int| 0 <= i < s.len() ==> !pred(#[trigger] s[i]),
    ensures
        s.filter(pred) == Seq::<FutureEvent>::empty(),
    decreases s.len(),
{
    reveal(Seq::filter);
    if s.len() > 0 {
        assert(forall|i: int|
            0 <= i < s.drop_last().len() ==> #[trigger] s.drop_last()[i] == s[i]);
        lemma_filter_none(s.drop_last(), pred);
        assert(!pred(s.last()));
    }
}

/// Inserting `e` at an insertion point found by scanning from the left keeps
/// the accumulator a stable sort of the events handled so far.
proof fn lemma_stable_insert(
    prev: Seq<FutureEvent>,
    p: int,
    e: FutureEvent,
    done: Seq<FutureEvent>,
    is_asc: bool,
)
    requires
        0 <= p <= prev.len(),
        sorted_by_days(prev, is_asc),
        forall|q: int| 0 <= q < p ==> days_ordered(#[trigger] prev[q].days_left, e.days_left, is_asc),
        p < prev.len() ==> !days_ordered(prev[p].days_left, e.days_left, is_asc),
        forall|days: u16| #[trigger] with_days(prev, days) == with_days(done, days),
        prev.to_multiset() == done.to_multiset(),
    ensures
        sorted_by_days(prev.insert(p, e), is_asc),
        forall|days: u16|
            #[trigger] with_days(prev.insert(p, e), days) == with_days(done.push(e), days),
        prev.insert(p, e).to_multiset() == done.push(e).to_multiset(),
{
    broadcast use group_seq_lib_default;
    broadcast use group_to_multiset_ensures;

    let a = prev.subrange(0, p);
    let b = prev.subrange(p, prev.len() as int);
    let ins = prev.insert(p, e);
    assert(a.push(e) =~= a + seq![e]);
    assert(ins == (a + seq![e]) + b);
    assert(prev =~= a + b);
    prev.insert_ensures(p, e);

    // Sortedness: everything before the insertion point may stand before
    // `e`, and everything from it on must stand strictly after `e`.
    assert forall|i: int, j: int|
        0 <= i < j < ins.len() implies days_ordered(ins[i].days_left, ins[j].days_left, is_asc) by {
        if i < p && j < p {
            assert(ins[i] == prev[i] && ins[j] == prev[j]);
        } else if i < p && j == p {
            assert(ins[i] == prev[i] && ins[j] == e);
        } else if i < p && j > p {
            assert(ins[i] == prev[i] && ins[j] == prev[j - 1]);
        } else if i == p && j > p {
            assert(ins[i] == e && ins[j] == prev[j - 1]);
            assert(days_ordered(prev[p].days_left, prev[j - 1].days_left, is_asc));
        } else {
            assert(ins[i] == prev[i - 1] && ins[j] == prev[j - 1]);
        }
    };

    // Every event from the insertion point on has a day count different
    // from `e`'s, so `e` stands after all its equals: stability.
    assert forall|q: int| 0 <= q < b.len() implies !has_days(e.days_left)(b[q]) by {
        assert(b[q] == prev[p + q]);
        if p + q > p {
            assert(days_ordered(prev[p].days_left, prev[p + q].days_left, is_asc));
        }
    };

    assert forall|days: u16|
        #[trigger] with_days(ins, days) == with_days(done.push(e), days) by {
        lemma_filter_singleton(e, has_days(days));
        assert(done.push(e) =~= done + seq![e]);
        assert(with_days(ins, days) == (a.filter(has_days(days)) + seq![e].filter(has_days(days)))
            + b.filter(has_days(days)));
        assert(with_days(done + seq![e], days) == done.filter(has_days(days)) + seq![e].filter(
            has_days(days),
        ));
        if days == e.days_left {
            lemma_filter_none(b, has_days(days));
            assert(with_days(prev, days) == a.filter(has_days(days)) + b.filter(has_days(days)));
            assert(with_days(ins, days) =~= with_days(done, days) + seq![e]);
            assert(with_days(done + seq![e], days) =~= with_days(done, days) + seq![e]);
        } else {
            assert(with_days(prev, days) == a.filter(has_days(days)) + b.filter(has_days(days)));
            assert(with_days(ins, days) =~= with_days(prev, days));
            assert(with_days(done + seq![e], days) =~= with_days(done, days));
        }
    };

    assert(ins.to_multiset() == prev.to_multiset().insert(e));
    assert(done.push(e).to_multiset() =~= done.to_multiset().insert(e));
}

fn insertion_point(sorted_events: &Vec<FutureEvent>, days: u16, is_asc: bool) -> (p: usize)
    ensures
        p <= sorted_events@.len(),
        forall|q: int|
            0 <= q < p ==> days_ordered(#[trigger] sorted_events@[q].days_left, days, is_asc),
        p < sorted_events@.len() ==> !days_ordered(
            sorted_events@[p as int].days_left,
            days,
            is_asc,
        ),
{
    let mut p: usize = 0;
    while p < sorted_events.len()
        invariant
            p <= sorted_events@.len(),
            forall|q: int|
                0 <= q < p ==> days_ordered(#[trigger] sorted_events@[q].days_left, days, is_asc),
        ensures
            p <= sorted_events@.len(),
            forall|q: int|
                0 <= q < p ==> days_ordered(#[trigger] sorted_events@[q].days_left, days, is_asc),
            p < sorted_events@.len() ==> !days_ordered(
                sorted_events@[p as int].days_left,
                days,
                is_asc,
            ),
        decreases sorted_events@.len() - p,
    {
        let stands_before = if is_asc {
            sorted_events[p].days_left <= days
        } else {
            sorted_events[p].days_left >= days
        };
        if !stands_before {
            break;
        }
        p += 1;
    }
    p
}

/// A new list holding the same events, stably sorted by days left:
/// ascending when `is_asc` is set, descending otherwise. Events with equal
/// day counts keep their relative input order.
pub fn events_sorted_by_time(events: &Vec<FutureEvent>, is_asc: bool) -> (r: Vec<FutureEvent>)
    ensures
        stable_sorted(events@, r@, is_asc),
{
    let mut sorted_events: Vec<FutureEvent> = Vec::new();
    let mut i: usize = 0;
    proof {
        assert(events@.take(0) =~= Seq::<FutureEvent>::empty());
        assert(sorted_events@ =~= Seq::<FutureEvent>::empty());
    }
    while i < events.len()
        invariant
            i <= events@.len(),
            sorted_events@.len() == i as int,
            sorted_by_days(sorted_events@, is_asc),
            forall|days: u16|
                #[trigger] with_days(sorted_events@, days) == with_days(
                    events@.take(i as int),
                    days,
                ),
            sorted_events@.to_multiset() == events@.take(i as int).to_multiset(),
        decreases events@.len() - i,
    {
        let e = events[i].clone();
        let ghost prev = sorted_events@;
        let ghost done = events@.take(i as int);
        let p = insertion_point(&sorted_events, e.days_left, is_asc);
        sorted_events.insert(p, e);
        proof {
            lemma_stable_insert(prev, p as int, e, done, is_asc);
            assert(events@.take(i + 1 as int) =~= done.push(events@[i as int]));
        }
        i += 1;
    }
    proof {
        assert(events@.take(events@.len() as int) =~= events@);
    }
    sorted_events
}

/// Relies on rand::seq::SliceRandom::shuffle with rand::thread_rng: a
/// Fisher-Yates shuffle that permutes the slice in place by swaps, so the
/// result holds exactly the input's elements. The permutation is drawn from
/// a non-seedable process-wide source, so nothing more is promised.
#[verifier::external_body]
fn shuffled(events: &Vec<FutureEvent>) -> (r: Vec<FutureEvent>)
    ensures
        r@.to_multiset() == events@.to_multiset(),
        r@.len() == events@.len(),
{
    let mut cloned = events.clone();
    cloned.shuffle(&mut rand::thread_rng());
    cloned
}

/// A new list holding the same events, reordered under the policy: stably
/// sorted for the two directed policies (ascending when the policy is
/// absent), randomly permuted for the shuffle.
pub fn sort_events(events: &Vec<FutureEvent>, order: &Option<SortOrder>) -> (r: Vec<FutureEvent>)
    ensures
        ordered_by(events@, r@, *order),
        r@.len() == events@.len(),
        r@.to_multiset() == events@.to_multiset(),
{
    match order {
        Some(o) => match o {
            SortOrder::Shuffle => shuffled(events),
            SortOrder::TimeAsc => events_sorted_by_time(events, true),
            SortOrder::TimeDesc => events_sorted_by_time(events, false),
        },
        None => events_sorted_by_time(events, true),
    }
}

} // verus!
