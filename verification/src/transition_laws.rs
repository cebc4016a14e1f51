//! What the moves of sessions between routes tell.
use crate::join::{sorting_keeps_items, with_key, with_key_contains, with_key_holds};
use crate::moment::Moment;
use crate::number::{Number, Op};
use crate::order::{distinct_sorted, distinct_sorted_holds, stable_sorted, Key};
use crate::order_laws::{
    chained_item, choices_agree, counting_goes_on, keyed_items, sorting_ascends,
    sorting_counts_alike,
};
use crate::rounding::ceiling_of;
use crate::transition::{
    all_steps, by_routes, edge_of, edges_of, own_place, session_of, session_steps,
    sorted_members_stay, step_ms, step_of, steps_in, time_of, EventView, StepView,
};
use vstd::prelude::*;

verus! {

/// `f` takes one half and ninety-five hundredths of the count `n` well enough to tell the rank that
/// they reach.
pub open spec fn takes_shares(f: spec_fn(Op) -> Number, n: nat) -> bool {
    let count = f(Op::Integer(n as i64));
    &&& ceiling_of(f(Op::Multiply(Number { bits: 0x3fe0_0000_0000_0000 }, count))) == (n + 1)
        / 2
    &&& ceiling_of(f(Op::Multiply(Number { bits: 0x3fee_6666_6666_6666 }, count))) == (95 * n
        + 99) / 100
}

/// How many of the first items count, where all up to the one at `at` do.
proof fn items_up_to<T>(items: Seq<T>, p: spec_fn(T) -> bool, at: int)
    requires
        0 <= at < items.len(),
        forall|i: int| 0 <= i <= at ==> p(#[trigger] items[i]),
    ensures
        items.filter(p).len() >= at + 1,
    decreases items.len(),
{
    let rest = items.drop_last();
    assert(rest.push(items.last()) == items);
    counting_goes_on(rest, items.last(), p);
    if at < rest.len() {
        assert forall|i: int| 0 <= i <= at implies p(#[trigger] rest[i]) by {
            assert(rest[i] == items[i]);
        }
        items_up_to(rest, p, at);
    } else {
        assert(p(items[at]));
        if at > 0 {
            assert forall|i: int| 0 <= i <= at - 1 implies p(#[trigger] rest[i]) by {
                assert(rest[i] == items[i]);
            }
            items_up_to(rest, p, at - 1);
        }
    }
}

/// How many items count, where none from the one at `at` on does.
proof fn items_before<T>(items: Seq<T>, p: spec_fn(T) -> bool, at: int)
    requires
        0 <= at <= items.len(),
        forall|i: int| at <= i < items.len() ==> !p(#[trigger] items[i]),
    ensures
        items.filter(p).len() <= at,
    decreases items.len(),
{
    reveal(Seq::filter);
    if items.len() > 0 {
        let rest = items.drop_last();
        assert(rest.push(items.last()) == items);
        counting_goes_on(rest, items.last(), p);
        assert(items[items.len() - 1] == items.last());
        if at < items.len() {
            assert forall|i: int| at <= i < rest.len() implies !p(#[trigger] rest[i]) by {
                assert(rest[i] == items[i]);
            }
            items_before(rest, p, at);
        } else {
            items_before(rest, p, at - 1);
        }
    }
}

/// The value at a rank of some values: as many values as the rank are no greater, and fewer are less.
pub proof fn rank_is_reached(values: Seq<Number>, rank: int)
    requires
        1 <= rank <= values.len(),
    ensures
        ({
            let v = stable_sorted::<Number, Number>(values, own_place())[rank - 1];
            &&& values.contains(v)
            &&& values.filter(|n: Number| n.place() <= v.place()).len() >= rank
            &&& values.filter(|n: Number| n.place() < v.place()).len() < rank
        }),
{
    let sorted = stable_sorted::<Number, Number>(values, own_place());
    let p = |n: Number| n.place() <= sorted[rank - 1].place();
    let q = |n: Number| n.place() < sorted[rank - 1].place();
    sorting_ascends::<Number, Number>(values, own_place());
    sorting_counts_alike::<Number, Number>(values, own_place(), p);
    sorting_counts_alike::<Number, Number>(values, own_place(), q);
    let v = sorted[rank - 1];
    sorted_members_stay::<Number, Number>(values, own_place());
    assert(sorted.contains(v));
    assert forall|i: int| 0 <= i <= rank - 1 implies p(#[trigger] sorted[i]) by {
        if i < rank - 1 {
            assert(!<Number as Key>::precedes(
                own_place()(sorted[rank - 1]),
                own_place()(sorted[i]),
            ));
        }
    }
    assert forall|i: int| rank - 1 <= i < sorted.len() implies !q(#[trigger] sorted[i]) by {
        if i > rank - 1 {
            assert(!<Number as Key>::precedes(
                own_place()(sorted[i]),
                own_place()(sorted[rank - 1]),
            ));
        }
    }
    items_up_to(sorted, p, rank - 1);
    items_before(sorted, q, rank - 1);
}

/// The moves of sessions from one route to another.
pub open spec fn moves_between(
    steps: Seq<StepView>,
    from_route: Seq<char>,
    to_route: Seq<char>,
) -> Seq<StepView> {
    steps.filter(|s: StepView| s.from == from_route && s.to == to_route)
}

/// How many of some moves took no longer than `ms`.
pub open spec fn no_longer_than(moves: Seq<StepView>, ms: Number) -> nat {
    moves.filter(|s: StepView| s.ms.place() <= ms.place()).len()
}

/// How many of some moves took less than `ms`.
pub open spec fn shorter_than(moves: Seq<StepView>, ms: Number) -> nat {
    moves.filter(|s: StepView| s.ms.place() < ms.place()).len()
}

proof fn counts_of_times(moves: Seq<StepView>, p: spec_fn(Number) -> bool)
    ensures
        moves.map_values(step_ms()).filter(p).len() == moves.filter(|s: StepView| p(s.ms)).len(),
    decreases moves.len(),
{
    reveal(Seq::filter);
    let times = moves.map_values(step_ms());
    if moves.len() > 0 {
        counts_of_times(moves.drop_last(), p);
        assert(times.drop_last() == moves.drop_last().map_values(step_ms()));
        assert(times.last() == moves.last().ms);
    }
}

proof fn rank_of_moves(moves: Seq<StepView>, rank: int)
    requires
        1 <= rank <= moves.len(),
    ensures
        ({
            let v = stable_sorted::<Number, Number>(
                moves.map_values(step_ms()),
                own_place(),
            )[rank - 1];
            &&& exists|i: int| 0 <= i < moves.len() && (#[trigger] moves[i]).ms == v
            &&& no_longer_than(moves, v) >= rank
            &&& shorter_than(moves, v) < rank
        }),
{
    let times = moves.map_values(step_ms());
    let v = stable_sorted::<Number, Number>(times, own_place())[rank - 1];
    rank_is_reached(times, rank);
    let p = |n: Number| n.place() <= v.place();
    let q = |n: Number| n.place() < v.place();
    counts_of_times(moves, p);
    counts_of_times(moves, q);
    choices_agree(
        moves,
        |s: StepView| p(s.ms),
        |s: StepView| s.ms.place() <= v.place(),
    );
    choices_agree(moves, |s: StepView| q(s.ms), |s: StepView| s.ms.place() < v.place());
    let i = choose|i: int| 0 <= i < times.len() && times[i] == v;
    assert(moves[i].ms == v);
}

/// What is reported of the moves between two routes: how many there were; a time that was measured
/// and that half of the moves at least did not exceed, while fewer than half were shorter; and such
/// a time for ninety-five of a hundred. The first is no longer than the second.
pub proof fn reported_times_are_quantiles(
    f: spec_fn(Op) -> Number,
    events: Seq<EventView>,
    e: int,
)
    requires
        0 <= e < edges_of(f, events).len(),
        takes_shares(
            f,
            moves_between(
                all_steps(f, events),
                edges_of(f, events)[e].from_route,
                edges_of(f, events)[e].to_route,
            ).len(),
        ),
    ensures
        ({
            let edge = edges_of(f, events)[e];
            let moves = moves_between(all_steps(f, events), edge.from_route, edge.to_route);
            &&& moves.len() > 0
            &&& moves.len() <= i64::MAX ==> edge.count == moves.len()
            &&& edge.p50_ms matches Some(half) && edge.p95_ms matches Some(most) && {
                &&& exists|i: int| 0 <= i < moves.len() && (#[trigger] moves[i]).ms == half
                &&& exists|i: int| 0 <= i < moves.len() && (#[trigger] moves[i]).ms == most
                &&& 2 * no_longer_than(moves, half) >= moves.len()
                &&& 2 * shorter_than(moves, half) < moves.len()
                &&& 100 * no_longer_than(moves, most) >= 95 * moves.len()
                &&& 100 * shorter_than(moves, most) < 95 * moves.len()
                &&& half.place() <= most.place()
            }
        }),
{
    let steps = all_steps(f, events);
    let keys = steps.map_values(by_routes());
    let names = distinct_sorted::<(String, String)>(keys);
    let k = names[e];
    let edge = edges_of(f, events)[e];
    let moves = moves_between(steps, edge.from_route, edge.to_route);
    let n = moves.len();
    assert(edge == edge_of(f, k, with_key(steps, by_routes(), k)));
    keyed_items(
        steps,
        by_routes(),
        k,
        |s: StepView| s.from == edge.from_route && s.to == edge.to_route,
    );
    assert(with_key(steps, by_routes(), k) == moves);
    distinct_sorted_holds::<(String, String)>(keys);
    assert(names.contains(k));
    let i = choose|i: int| 0 <= i < keys.len() && keys[i] == k;
    with_key_contains(steps, by_routes(), i);
    assert(moves.len() > 0);
    let times = moves.map_values(step_ms());
    let sorted = stable_sorted::<Number, Number>(times, own_place());
    sorting_counts_alike::<Number, Number>(times, own_place(), |n: Number| true);
    sorting_ascends::<Number, Number>(times, own_place());
    let half = (n + 1) / 2;
    let most = (95 * n + 99) / 100;
    rank_of_moves(moves, half as int);
    rank_of_moves(moves, most as int);
    if half < most {
        assert(!<Number as Key>::precedes(
            own_place()(sorted[most - 1]),
            own_place()(sorted[half - 1]),
        ));
    }
}

/// `s` is a move of one session: from one of its requests to the next, with no request of the session
/// between them, and with the milliseconds that went by.
pub open spec fn is_move(
    f: spec_fn(Op) -> Number,
    events: Seq<EventView>,
    s: StepView,
    a: EventView,
    b: EventView,
) -> bool {
    &&& events.contains(a) && events.contains(b)
    &&& a.session == b.session
    &&& a.at <= b.at
    &&& s.from == a.route && s.to == b.route
    &&& (b.at - a.at) / 1000 <= i64::MAX ==> s.ms == f(
        Op::Divide(f(Op::Integer(((b.at - a.at) / 1000) as i64)), f(Op::Integer(1000))),
    )
    &&& forall|i: int|
        0 <= i < events.len() && (#[trigger] events[i]).session == a.session ==> !(a.at
            < events[i].at < b.at)
}

proof fn steps_of_a_session(f: spec_fn(Op) -> Number, sorted: Seq<EventView>)
    ensures
        steps_in(f, sorted).len() == if sorted.len() == 0 {
            0
        } else {
            sorted.len() - 1
        },
        forall|i: int|
            0 <= i < steps_in(f, sorted).len() ==> #[trigger] steps_in(f, sorted)[i] == step_of(
                f,
                sorted[i],
                sorted[i + 1],
            ),
    decreases sorted.len(),
{
    if sorted.len() >= 2 {
        let rest = sorted.drop_last();
        steps_of_a_session(f, rest);
        assert forall|i: int| 0 <= i < steps_in(f, sorted).len() implies #[trigger] steps_in(
            f,
            sorted,
        )[i] == step_of(f, sorted[i], sorted[i + 1]) by {
            if i < steps_in(f, rest).len() {
                assert(steps_in(f, rest)[i] == step_of(f, rest[i], rest[i + 1]));
            }
        }
    }
}

proof fn session_moves_hold(
    f: spec_fn(Op) -> Number,
    events: Seq<EventView>,
    session: Seq<char>,
    i: int,
)
    requires
        0 <= i < session_steps(f, events, session).len(),
    ensures
        exists|a: EventView, b: EventView| #[trigger]
            is_move(f, events, session_steps(f, events, session)[i], a, b) && a.session == session,
{
    let own = with_key(events, session_of(), session);
    let sorted = stable_sorted::<EventView, Moment>(own, time_of());
    sorting_ascends::<EventView, Moment>(own, time_of());
    sorting_counts_alike::<EventView, Moment>(own, time_of(), |e: EventView| true);
    sorting_keeps_items::<EventView, int, Moment>(own, time_of(), time_of());
    steps_of_a_session(f, sorted);
    let a = sorted[i];
    let b = sorted[i + 1];
    assert(sorted.contains(a) && sorted.contains(b));
    let m = choose|m: int| 0 <= m < own.len() && own[m] == a;
    let n = choose|n: int| 0 <= n < own.len() && own[n] == b;
    with_key_holds(events, session_of(), session, m);
    with_key_holds(events, session_of(), session, n);
    assert(!<Moment as Key>::precedes(time_of()(sorted[i + 1]), time_of()(sorted[i])));
    assert forall|j: int|
        0 <= j < events.len() && (#[trigger] events[j]).session == a.session implies !(a.at
        < events[j].at < b.at) by {
        with_key_contains(events, session_of(), j);
        assert(sorted.contains(events[j]));
        let k = choose|k: int| 0 <= k < sorted.len() && sorted[k] == events[j];
        if k < i {
            assert(!<Moment as Key>::precedes(time_of()(sorted[i]), time_of()(sorted[k])));
        } else if k > i + 1 {
            assert(!<Moment as Key>::precedes(time_of()(sorted[k]), time_of()(sorted[i + 1])));
        }
    }
    assert(is_move(f, events, session_steps(f, events, session)[i], a, b));
}

/// Every move is one of a session from a request to its next one.
pub proof fn moves_follow_sessions(f: spec_fn(Op) -> Number, events: Seq<EventView>, i: int)
    requires
        0 <= i < all_steps(f, events).len(),
    ensures
        exists|a: EventView, b: EventView| #[trigger]
            is_move(f, events, all_steps(f, events)[i], a, b),
{
    let sessions = distinct_sorted::<String>(events.map_values(session_of()));
    let parts = sessions.map_values(|s: Seq<char>| session_steps(f, events, s));
    let (g, j) = chained_item(parts, i);
    assert(parts[g] == session_steps(f, events, sessions[g]));
    session_moves_hold(f, events, sessions[g], j);
}

} // verus!
