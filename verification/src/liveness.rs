//! When a dinner gets stuck, and when it cannot.
//!
//! A dinner is deadlocked when somebody is still at the table and nobody at the
//! table can move. Guests around a ring who all reach for the same side first
//! can bring that about. Guests who all take their forks in one common order
//! cannot: one of them can always move, each move brings the dinner nearer its
//! end, and so every such dinner can be finished from wherever it stands.

use vstd::prelude::*;
use crate::dinner::{DinnerView, Step, next_keeps_wf};
use crate::error::PoolError;
use crate::philosopher::{Order, PhilosopherView};
use crate::safety::{fresh_is_wf, turns_keep_wf};
use crate::script::Stage;
use crate::table::{Grant, Holders};

verus! {

/// A turn of the guest at seat `who` would change the dinner: the guest is at
/// the table and the fork it is after, if any, is not in use.
pub open spec fn can_move(dinner: DinnerView, who: int) -> bool {
    dinner.seated(who) && dinner.answer(who) != Ok::<Step, PoolError>(Step::Waiting)
        && dinner.answer(who) != Ok::<Step, PoolError>(Step::Over)
}

/// Somebody is still at the table and nobody can move.
pub open spec fn deadlocked(dinner: DinnerView) -> bool {
    !dinner.all_over() && forall|who: int| !#[trigger] can_move(dinner, who)
}

/// The turns still to be taken before every guest has left: three for an idle
/// guest, one less for each stage it has reached.
pub open spec fn turns_left(stages: Seq<Stage>) -> nat
    decreases stages.len(),
{
    if stages.len() == 0 {
        0
    } else {
        (turns_left(stages.drop_last()) + 3 - stages.last().rank()) as nat
    }
}

/// Every guest fits the table and takes the fork that `rank` puts lower first.
pub open spec fn ordered_by(
    guests: Seq<PhilosopherView>,
    forks: nat,
    rank: spec_fn(int) -> int,
) -> bool {
    forall|who: int|
        0 <= who < guests.len() ==> (#[trigger] guests[who]).fits(forks) && rank(
            guests[who].first() as int,
        ) < rank(guests[who].second() as int)
}

/// Every guest's two forks are on a table with `forks` forks, and they are
/// two.
pub open spec fn all_fit(guests: Seq<PhilosopherView>, forks: nat) -> bool {
    forall|who: int| 0 <= who < guests.len() ==> (#[trigger] guests[who]).fits(forks)
}

/// The fork to the right of seat `who` at a round table with `seats` seats.
pub open spec fn right_of(who: int, seats: nat) -> int {
    if who + 1 == seats {
        0
    } else {
        who + 1
    }
}

/// The guests sit around a table with as many forks as guests, each between
/// the fork of its own seat on the left and the next seat's on the right.
pub open spec fn around_the_table(guests: Seq<PhilosopherView>) -> bool {
    &&& 2 <= guests.len() <= usize::MAX
    &&& forall|who: int|
        0 <= who < guests.len() ==> (#[trigger] guests[who]).left == who && guests[who].right
            == right_of(who, guests.len())
}

/// Every guest takes its left fork first.
pub open spec fn all_left_first(guests: Seq<PhilosopherView>) -> bool {
    forall|who: int| 0 <= who < guests.len() ==> (#[trigger] guests[who]).order == Order::LeftFirst
}

/// Every guest takes its left fork first, but for the one at seat `odd`, who
/// takes its right fork first.
pub open spec fn one_right_first(guests: Seq<PhilosopherView>, odd: int) -> bool {
    &&& 0 <= odd < guests.len()
    &&& forall|who: int|
        0 <= who < guests.len() ==> (#[trigger] guests[who]).order == if who == odd {
            Order::RightFirst
        } else {
            Order::LeftFirst
        }
}

/// One turn of every guest in the order of the seats, for the first `seats`
/// seats.
pub open spec fn round(seats: nat) -> Seq<int> {
    Seq::new(seats, |who: int| who)
}

/// The turn of a guest that cannot move changes nothing.
pub proof fn idle_turn_changes_nothing(dinner: DinnerView, who: int)
    requires
        !can_move(dinner, who),
    ensures
        dinner.next(who) == dinner,
{
}

/// A deadlock is for ever: whoever takes turns, in whatever order, the dinner
/// stays exactly as it is, so nobody who is still at the table ever leaves.
pub proof fn deadlock_is_for_ever(dinner: DinnerView, schedule: Seq<int>)
    requires
        deadlocked(dinner),
    ensures
        dinner.after(schedule) == dinner,
    decreases schedule.len(),
{
    if schedule.len() > 0 {
        deadlock_is_for_ever(dinner, schedule.drop_last());
        assert(!can_move(dinner, schedule.last()));
    }
}

/// Taking turns one after another is the same as taking them in two runs.
pub proof fn after_both(dinner: DinnerView, early: Seq<int>, late: Seq<int>)
    ensures
        dinner.after(early + late) == dinner.after(early).after(late),
    decreases late.len(),
{
    if late.len() == 0 {
        assert(early + late =~= early);
    } else {
        after_both(dinner, early, late.drop_last());
        assert((early + late).drop_last() =~= early + late.drop_last());
        assert((early + late).last() == late.last());
    }
}

/// The dinner around a table after the first `seats` guests have each had one
/// turn: each of them holds the fork on its left, everything else is as it was.
proof fn ring_after_some(guests: Seq<PhilosopherView>, seats: nat)
    requires
        around_the_table(guests),
        all_left_first(guests),
        seats <= guests.len(),
    ensures
        DinnerView::fresh(guests.len(), guests).after(round(seats)) == (DinnerView {
            forks: Seq::new(
                guests.len(),
                |fork: int|
                    if fork < seats {
                        Some(fork as usize)
                    } else {
                        None
                    },
            ),
            guests: guests,
            stages: Seq::new(
                guests.len(),
                |who: int|
                    if who < seats {
                        Stage::HoldingFirst
                    } else {
                        Stage::Idle
                    },
            ),
            granted: Seq::new(seats, |who: int| Grant::took(who as usize, who as usize)),
        }),
    decreases seats,
{
    let start = DinnerView::fresh(guests.len(), guests);
    let goal = DinnerView {
        forks: Seq::new(
            guests.len(),
            |fork: int|
                if fork < seats {
                    Some(fork as usize)
                } else {
                    None
                },
        ),
        guests: guests,
        stages: Seq::new(
            guests.len(),
            |who: int|
                if who < seats {
                    Stage::HoldingFirst
                } else {
                    Stage::Idle
                },
        ),
        granted: Seq::new(seats, |who: int| Grant::took(who as usize, who as usize)),
    };
    if seats == 0 {
        assert(start.forks =~= goal.forks);
        assert(start.stages =~= goal.stages);
        assert(start.granted =~= goal.granted);
    } else {
        let fewer = (seats - 1) as nat;
        ring_after_some(guests, fewer);
        assert(round(seats).drop_last() =~= round(fewer));
        assert(round(seats).last() == fewer);
        let middle = start.after(round(fewer));
        let guest = guests[fewer as int];
        assert(guest.first() == fewer);
        let reached = middle.next(fewer as int);
        assert(reached.forks =~= goal.forks);
        assert(reached.stages =~= goal.stages);
        assert(reached.granted =~= goal.granted);
    }
}

/// Circular wait: around a table where every guest takes its left fork first,
/// once each guest has had one turn, every guest holds one fork and waits for
/// the one in its neighbour's hand. The dinner is deadlocked, and whatever
/// turns follow, no guest ever gets to eat.
pub proof fn ring_deadlocks(guests: Seq<PhilosopherView>, schedule: Seq<int>)
    requires
        around_the_table(guests),
        all_left_first(guests),
    ensures
        deadlocked(DinnerView::fresh(guests.len(), guests).after(round(guests.len()))),
        forall|who: int|
            0 <= who < guests.len() ==> #[trigger] DinnerView::fresh(guests.len(), guests).after(
                round(guests.len()) + schedule,
            ).stages[who] == Stage::HoldingFirst,
{
    let start = DinnerView::fresh(guests.len(), guests);
    ring_after_some(guests, guests.len());
    let stuck = start.after(round(guests.len()));
    assert(!stuck.stages[0].is_over());
    assert forall|who: int| !#[trigger] can_move(stuck, who) by {
        if stuck.seated(who) {
            let guest = guests[who];
            let wanted = guest.second() as int;
            assert(wanted == right_of(who, guests.len()));
            assert(stuck.forks[wanted] is Some);
        }
    }
    deadlock_is_for_ever(stuck, schedule);
    after_both(start, round(guests.len()), schedule);
}

/// A fork in use that `rank` puts no lower than any other fork in use among
/// the first `upto`.
proof fn highest_in_use(forks: Holders, rank: spec_fn(int) -> int, upto: int) -> (top: int)
    requires
        0 <= upto <= forks.len(),
        exists|fork: int| 0 <= fork < upto && (#[trigger] forks[fork]) is Some,
    ensures
        0 <= top < upto,
        forks[top] is Some,
        forall|fork: int|
            0 <= fork < upto && (#[trigger] forks[fork]) is Some ==> rank(fork) <= rank(top),
    decreases upto,
{
    let last = upto - 1;
    if exists|fork: int| 0 <= fork < last && (#[trigger] forks[fork]) is Some {
        let below = highest_in_use(forks, rank, last);
        if forks[last] is Some && rank(last) > rank(below) {
            last
        } else {
            below
        }
    } else {
        let found = choose|fork: int| 0 <= fork < upto && (#[trigger] forks[fork]) is Some;
        assert(found == last);
        last
    }
}

/// No deadlock under a common order: while somebody is still at the table, a
/// guest can be named who can move, and its turn does not fail.
pub proof fn ordered_can_move(dinner: DinnerView, rank: spec_fn(int) -> int) -> (who: int)
    requires
        dinner.wf(),
        ordered_by(dinner.guests, dinner.forks.len(), rank),
        !dinner.all_over(),
    ensures
        can_move(dinner, who),
        dinner.answer(who) is Ok,
{
    if exists|eater: int|
        0 <= eater < dinner.stages.len() && #[trigger] dinner.stages[eater] == Stage::HoldingBoth {
        choose|eater: int|
            0 <= eater < dinner.stages.len() && #[trigger] dinner.stages[eater]
                == Stage::HoldingBoth
    } else if exists|fork: int| 0 <= fork < dinner.forks.len() && (#[trigger] dinner.forks[fork]) is Some {
        let top = highest_in_use(dinner.forks, rank, dinner.forks.len() as int);
        let holder = dinner.forks[top]->0 as int;
        assert(dinner.holds(holder, top));
        let stage = dinner.stages[holder];
        assert(stage == Stage::HoldingFirst);
        let guest = dinner.guests[holder];
        assert(guest.fits(dinner.forks.len()));
        let wanted = guest.second() as int;
        assert(rank(top) < rank(wanted));
        if dinner.forks[wanted] is Some {
            assert(rank(wanted) <= rank(top));
        }
        holder
    } else {
        let waiting = choose|who: int|
            0 <= who < dinner.stages.len() && !(#[trigger] dinner.stages[who]).is_over();
        let stage = dinner.stages[waiting];
        let guest = dinner.guests[waiting];
        assert(guest.fits(dinner.forks.len()));
        if stage == Stage::HoldingFirst {
            assert(dinner.forks[guest.first() as int] is Some);
        }
        assert(dinner.forks[guest.first() as int] is None);
        waiting
    }
}

/// Moving a guest on to a later stage leaves fewer turns to be taken, by as
/// many as the stage is later.
proof fn later_stage_fewer_turns(stages: Seq<Stage>, who: int, stage: Stage)
    requires
        0 <= who < stages.len(),
        stages[who].rank() <= stage.rank(),
    ensures
        turns_left(stages.update(who, stage)) + stage.rank() == turns_left(stages)
            + stages[who].rank(),
        turns_left(stages) >= 3 - stages[who].rank(),
    decreases stages.len(),
{
    let changed = stages.update(who, stage);
    if who == stages.len() - 1 {
        assert(changed.drop_last() =~= stages.drop_last());
    } else {
        later_stage_fewer_turns(stages.drop_last(), who, stage);
        assert(changed.drop_last() =~= stages.drop_last().update(who, stage));
    }
}

/// Every move is progress: the turn of a guest that can move leaves fewer
/// turns to be taken than there were. A dinner of `n` guests therefore sees at
/// most `3 * n` moves, however the turns fall.
pub proof fn move_is_progress(dinner: DinnerView, who: int)
    requires
        dinner.wf(),
        can_move(dinner, who),
    ensures
        turns_left(dinner.next(who).stages) < turns_left(dinner.stages),
{
    let reached = dinner.next(who).stages[who];
    assert(dinner.next(who).stages =~= dinner.stages.update(who, reached));
    later_stage_fewer_turns(dinner.stages, who, reached);
}

/// Under a common order a dinner can always be finished: from wherever it
/// stands there are turns after which every guest has left the table, and
/// every guest that had not failed before has eaten.
pub proof fn ordered_dinner_finishes(
    dinner: DinnerView,
    rank: spec_fn(int) -> int,
) -> (schedule: Seq<int>)
    requires
        dinner.wf(),
        ordered_by(dinner.guests, dinner.forks.len(), rank),
    ensures
        dinner.after(schedule).all_over(),
        forall|who: int|
            0 <= who < dinner.stages.len() && dinner.stages[who] != Stage::Failed
                ==> #[trigger] dinner.after(schedule).stages[who] == Stage::Done,
    decreases turns_left(dinner.stages),
{
    if dinner.all_over() {
        Seq::empty()
    } else {
        let who = ordered_can_move(dinner, rank);
        let moved = dinner.next(who);
        next_keeps_wf(dinner, who);
        move_is_progress(dinner, who);
        let rest = ordered_dinner_finishes(moved, rank);
        let schedule = seq![who] + rest;
        assert(seq![who].drop_last() =~= Seq::<int>::empty());
        assert(dinner.after(seq![who]) == moved) by {
            reveal_with_fuel(DinnerView::after, 2);
        }
        after_both(dinner, seq![who], rest);
        assert forall|seat: int|
            0 <= seat < dinner.stages.len() && dinner.stages[seat]
                != Stage::Failed implies #[trigger] dinner.after(schedule).stages[seat]
            == Stage::Done by {
            assert(moved.stages[seat] != Stage::Failed);
        }
        schedule
    }
}

/// Guests that fit the table and take the fork with the lower index first
/// follow a common order: the order of the indices.
pub proof fn lowest_first_orders(guests: Seq<PhilosopherView>, forks: nat)
    requires
        forall|who: int|
            0 <= who < guests.len() ==> (#[trigger] guests[who]).fits(forks) && guests[who].order
                == Order::lowest_first_of(guests[who].left, guests[who].right),
    ensures
        ordered_by(guests, forks, |fork: int| fork),
{
    let rank = |fork: int| fork;
    assert forall|who: int| 0 <= who < guests.len() implies (#[trigger] guests[who]).fits(forks)
        && rank(guests[who].first() as int) < rank(guests[who].second() as int) by {
        let guest = guests[who];
        assert(guest.order == Order::lowest_first_of(guest.left, guest.right));
    }
}

/// Around a table where one guest takes its right fork first and all others
/// their left, the guests follow a common order: count the forks from the
/// odd guest's right.
pub proof fn one_right_first_orders(
    guests: Seq<PhilosopherView>,
    odd: int,
) -> (rank: spec_fn(int) -> int)
    requires
        around_the_table(guests),
        one_right_first(guests, odd),
    ensures
        ordered_by(guests, guests.len(), rank),
{
    let seats = guests.len() as int;
    let rank = |fork: int|
        if fork > odd {
            fork - odd - 1
        } else {
            fork + seats - odd - 1
        };
    assert forall|who: int| 0 <= who < guests.len() implies (#[trigger] guests[who]).fits(
        guests.len(),
    ) && rank(guests[who].first() as int) < rank(guests[who].second() as int) by {
        let guest = guests[who];
        assert(guest.left == who);
        assert(guest.right == right_of(who, guests.len()));
    }
    rank
}

/// Guests that fit the table do not fail: whoever had not failed before a run
/// has not failed after it.
pub proof fn never_failed(dinner: DinnerView, schedule: Seq<int>)
    requires
        dinner.wf(),
        all_fit(dinner.guests, dinner.forks.len()),
    ensures
        forall|who: int|
            0 <= who < dinner.stages.len() && dinner.stages[who] != Stage::Failed
                ==> #[trigger] dinner.after(schedule).stages[who] != Stage::Failed,
    decreases schedule.len(),
{
    if schedule.len() > 0 {
        let earlier = schedule.drop_last();
        never_failed(dinner, earlier);
        turns_keep_wf(dinner, earlier);
        let middle = dinner.after(earlier);
        assert forall|who: int|
            0 <= who < dinner.stages.len() && dinner.stages[who]
                != Stage::Failed implies #[trigger] dinner.after(schedule).stages[who]
            != Stage::Failed by {
            assert(middle.stages[who] != Stage::Failed);
            let turn = schedule.last();
            if middle.seated(turn) {
                assert(middle.guests[turn].fits(middle.forks.len()));
            }
        }
    }
}

/// Deadlock avoidance under a common order: seat guests who follow one at a
/// table with every fork free, let them take turns in any order and stop at
/// any moment. The dinner is not deadlocked there, and turns can follow after
/// which every guest has eaten.
pub proof fn ordered_fresh_finishes(
    forks: nat,
    guests: Seq<PhilosopherView>,
    rank: spec_fn(int) -> int,
    schedule: Seq<int>,
) -> (rest: Seq<int>)
    requires
        guests.len() <= usize::MAX,
        ordered_by(guests, forks, rank),
    ensures
        !deadlocked(DinnerView::fresh(forks, guests).after(schedule)),
        forall|who: int|
            0 <= who < guests.len() ==> #[trigger] DinnerView::fresh(forks, guests).after(
                schedule + rest,
            ).stages[who] == Stage::Done,
{
    let start = DinnerView::fresh(forks, guests);
    fresh_is_wf(forks, guests);
    turns_keep_wf(start, schedule);
    let reached = start.after(schedule);
    if !reached.all_over() {
        let mover = ordered_can_move(reached, rank);
        assert(can_move(reached, mover));
    }
    never_failed(start, schedule);
    let rest = ordered_dinner_finishes(reached, rank);
    after_both(start, schedule, rest);
    rest
}

/// Deadlock avoidance by the lowest fork first: guests that fit the table and
/// each take the fork with the lower index first never deadlock, whatever
/// forks they sit between, and their dinner can always be finished.
pub proof fn lowest_first_finishes(
    forks: nat,
    guests: Seq<PhilosopherView>,
    schedule: Seq<int>,
) -> (rest: Seq<int>)
    requires
        guests.len() <= usize::MAX,
        forall|who: int|
            0 <= who < guests.len() ==> (#[trigger] guests[who]).fits(forks) && guests[who].order
                == Order::lowest_first_of(guests[who].left, guests[who].right),
    ensures
        !deadlocked(DinnerView::fresh(forks, guests).after(schedule)),
        forall|who: int|
            0 <= who < guests.len() ==> #[trigger] DinnerView::fresh(forks, guests).after(
                schedule + rest,
            ).stages[who] == Stage::Done,
{
    lowest_first_orders(guests, forks);
    ordered_fresh_finishes(forks, guests, |fork: int| fork, schedule)
}

/// Deadlock avoidance around a table: where exactly one guest takes its right
/// fork first and all others their left, the dinner never deadlocks and can
/// always be finished.
pub proof fn one_right_first_finishes(
    guests: Seq<PhilosopherView>,
    odd: int,
    schedule: Seq<int>,
) -> (rest: Seq<int>)
    requires
        around_the_table(guests),
        one_right_first(guests, odd),
    ensures
        !deadlocked(DinnerView::fresh(guests.len(), guests).after(schedule)),
        forall|who: int|
            0 <= who < guests.len() ==> #[trigger] DinnerView::fresh(guests.len(), guests).after(
                schedule + rest,
            ).stages[who] == Stage::Done,
{
    let rank = one_right_first_orders(guests, odd);
    ordered_fresh_finishes(guests.len(), guests, rank, schedule)
}

} // verus!
