//! What a guest did to the table, and that it gives back what it took.
//!
//! The table keeps every request it granted. The requests granted to one
//! guest, picked out of them in order, are that guest's record, and the record
//! of a guest that has left is balanced: every fork it took it put down once,
//! the later taken first.

use vstd::prelude::*;
use crate::dinner::{DinnerView, next_keeps_wf};
use crate::error::PoolError;
use crate::philosopher::PhilosopherView;
use crate::safety::{fresh_is_wf, turns_keep_wf};
use crate::script::Stage;
use crate::table::{
    Grant,
    Holders,
    Op,
    acquire_answer,
    after_acquire,
    after_release,
    is_free,
    release_answer,
};

verus! {

/// The table grants `who` the request `op` as the forks stand.
pub open spec fn is_granted(forks: Holders, who: usize, op: Op) -> bool {
    match op {
        Op::Acquire(fork) => acquire_answer(forks, fork) == Ok::<bool, PoolError>(true),
        Op::Release(fork) => release_answer(forks, fork, who) == Ok::<(), PoolError>(()),
    }
}

/// The forks after `who` has made the request `op`.
pub open spec fn apply(forks: Holders, who: usize, op: Op) -> Holders {
    match op {
        Op::Acquire(fork) => after_acquire(forks, fork, who),
        Op::Release(fork) => after_release(forks, fork, who),
    }
}

/// The forks after `who` has made the requests `ops`, one after the other.
pub open spec fn replay(forks: Holders, who: usize, ops: Seq<Op>) -> Holders
    decreases ops.len(),
{
    if ops.len() == 0 {
        forks
    } else {
        apply(replay(forks, who, ops.drop_last()), who, ops.last())
    }
}

/// The table grants each of the requests `ops` as `who` makes them in turn.
pub open spec fn all_granted(forks: Holders, who: usize, ops: Seq<Op>) -> bool
    decreases ops.len(),
{
    ops.len() == 0 || (all_granted(forks, who, ops.drop_last()) && is_granted(
        replay(forks, who, ops.drop_last()),
        who,
        ops.last(),
    ))
}

/// The requests that the table grants the guest at seat `who` in its next
/// turn: the fork it takes, or the forks it puts down, in order.
pub open spec fn turn_ops(dinner: DinnerView, who: int) -> Seq<Op> {
    if !dinner.seated(who) {
        Seq::empty()
    } else {
        let first = dinner.guests[who].first();
        let second = dinner.guests[who].second();
        match dinner.stages[who] {
            Stage::Idle => if is_free(dinner.forks, first) {
                seq![Op::Acquire(first)]
            } else {
                Seq::empty()
            },
            Stage::HoldingFirst => if second >= dinner.forks.len() {
                seq![Op::Release(first)]
            } else if is_free(dinner.forks, second) {
                seq![Op::Acquire(second)]
            } else {
                Seq::empty()
            },
            Stage::HoldingBoth => seq![Op::Release(second), Op::Release(first)],
            Stage::Done => Seq::empty(),
            Stage::Failed => Seq::empty(),
        }
    }
}

/// The requests `ops` as grants to the hand `who`.
pub open spec fn by_guest(who: usize, ops: Seq<Op>) -> Seq<Grant> {
    Seq::new(ops.len(), |at: int| Grant { who: who, op: ops[at] })
}

/// The record of the hand `who`: the requests among `grants` that were
/// granted to it, in order.
pub open spec fn record(grants: Seq<Grant>, who: usize) -> Seq<Op>
    decreases grants.len(),
{
    if grants.len() == 0 {
        Seq::empty()
    } else if grants.last().who == who {
        record(grants.drop_last(), who).push(grants.last().op)
    } else {
        record(grants.drop_last(), who)
    }
}

/// What the guest has done to the table to stand where it stands, on a table
/// with `forks` forks: nothing yet, one fork taken, both taken, or both taken
/// and put down again; a guest that failed took nothing, or took its first
/// fork and put it down.
pub open spec fn ledger(guest: PhilosopherView, stage: Stage, forks: nat) -> Seq<Op> {
    match stage {
        Stage::Idle => Seq::empty(),
        Stage::HoldingFirst => seq![Op::Acquire(guest.first())],
        Stage::HoldingBoth => seq![Op::Acquire(guest.first()), Op::Acquire(guest.second())],
        Stage::Done => seq![
            Op::Acquire(guest.first()),
            Op::Acquire(guest.second()),
            Op::Release(guest.second()),
            Op::Release(guest.first()),
        ],
        Stage::Failed => if guest.first() < forks {
            seq![Op::Acquire(guest.first()), Op::Release(guest.first())]
        } else {
            Seq::empty()
        },
    }
}

/// How often `fork` is taken in `ops`.
pub open spec fn acquires(ops: Seq<Op>, fork: usize) -> nat
    decreases ops.len(),
{
    if ops.len() == 0 {
        0
    } else {
        acquires(ops.drop_last(), fork) + if ops.last() == Op::Acquire(fork) {
            1nat
        } else {
            0nat
        }
    }
}

/// How often `fork` is put down in `ops`.
pub open spec fn releases(ops: Seq<Op>, fork: usize) -> nat
    decreases ops.len(),
{
    if ops.len() == 0 {
        0
    } else {
        releases(ops.drop_last(), fork) + if ops.last() == Op::Release(fork) {
            1nat
        } else {
            0nat
        }
    }
}

/// A turn changes the table by exactly the requests of [`turn_ops`], the
/// table grants every one of them, and they are what the turn adds to the
/// table's grants, in their order.
pub proof fn turn_is_its_ops(dinner: DinnerView, who: int)
    requires
        dinner.wf(),
        dinner.seated(who),
    ensures
        all_granted(dinner.forks, who as usize, turn_ops(dinner, who)),
        dinner.next(who).forks == replay(dinner.forks, who as usize, turn_ops(dinner, who)),
        dinner.next(who).granted == dinner.granted + by_guest(
            who as usize,
            turn_ops(dinner, who),
        ),
{
    assert(dinner.next(who).granted =~= dinner.granted + by_guest(
        who as usize,
        turn_ops(dinner, who),
    ));
    let ops = turn_ops(dinner, who);
    let seat = who as usize;
    reveal_with_fuel(replay, 3);
    reveal_with_fuel(all_granted, 3);
    if ops.len() == 1 {
        assert(ops.drop_last() =~= Seq::<Op>::empty());
    } else if ops.len() == 2 {
        assert(ops.drop_last() =~= seq![ops[0]]);
        assert(ops.drop_last().drop_last() =~= Seq::<Op>::empty());
    }
}

/// One turn of anyone adds to a guest's ledger exactly what the table granted
/// that guest in the turn.
proof fn turn_extends_ledger(dinner: DinnerView, turn: int, who: int)
    requires
        dinner.wf(),
        dinner.seated(who),
    ensures
        ledger(
            dinner.next(turn).guests[who],
            dinner.next(turn).stages[who],
            dinner.next(turn).forks.len(),
        ) == ledger(dinner.guests[who], dinner.stages[who], dinner.forks.len()) + if turn == who {
            turn_ops(dinner, who)
        } else {
            Seq::<Op>::empty()
        },
{
    next_keeps_wf(dinner, turn);
    let before = ledger(dinner.guests[who], dinner.stages[who], dinner.forks.len());
    let added = if turn == who {
        turn_ops(dinner, who)
    } else {
        Seq::<Op>::empty()
    };
    let after = ledger(
        dinner.next(turn).guests[who],
        dinner.next(turn).stages[who],
        dinner.next(turn).forks.len(),
    );
    assert(after =~= before + added);
}

/// One turn of anyone adds to a guest's record exactly what the table granted
/// that guest in the turn.
proof fn turn_extends_record(dinner: DinnerView, turn: int, who: int)
    requires
        dinner.wf(),
        dinner.seated(who),
    ensures
        record(dinner.next(turn).granted, who as usize) == record(dinner.granted, who as usize)
            + if turn == who {
            turn_ops(dinner, who)
        } else {
            Seq::<Op>::empty()
        },
{
    let seat = who as usize;
    let before = dinner.granted;
    let after = dinner.next(turn).granted;
    let added = if turn == who {
        turn_ops(dinner, who)
    } else {
        Seq::<Op>::empty()
    };
    if after.len() == before.len() {
        assert(after =~= before);
        assert(record(before, seat) + added =~= record(before, seat));
    } else if after.len() == before.len() + 1 {
        assert(after.drop_last() =~= before);
        assert(record(after, seat) =~= record(before, seat) + added);
    } else {
        let middle = after.drop_last();
        let turn_seat = turn as usize;
        let first = dinner.guests[turn].first();
        let second = dinner.guests[turn].second();
        assert(middle =~= before.push(Grant::put(turn_seat, second)));
        assert(middle.drop_last() =~= before);
        assert(after.last() == Grant::put(turn_seat, first));
        assert(middle.last() == Grant::put(turn_seat, second));
        if turn == who {
            assert(record(middle, seat) =~= record(before, seat).push(Op::Release(second)));
            assert(record(after, seat) =~= record(middle, seat).push(Op::Release(first)));
        } else {
            assert(record(middle, seat) =~= record(before, seat));
            assert(record(after, seat) =~= record(middle, seat));
        }
        assert(record(after, seat) =~= record(before, seat) + added);
    }
}

/// A record that agrees with the guest's ledger before a run agrees with it
/// after the run: the table has granted the guest what its stage says, no
/// more and no less.
pub proof fn record_is_ledger(dinner: DinnerView, schedule: Seq<int>, who: int)
    requires
        dinner.wf(),
        dinner.seated(who),
        record(dinner.granted, who as usize) == ledger(
            dinner.guests[who],
            dinner.stages[who],
            dinner.forks.len(),
        ),
    ensures
        record(dinner.after(schedule).granted, who as usize) == ledger(
            dinner.guests[who],
            dinner.after(schedule).stages[who],
            dinner.forks.len(),
        ),
    decreases schedule.len(),
{
    if schedule.len() > 0 {
        let earlier = schedule.drop_last();
        let middle = dinner.after(earlier);
        record_is_ledger(dinner, earlier, who);
        turns_keep_wf(dinner, earlier);
        turn_extends_ledger(middle, schedule.last(), who);
        turn_extends_record(middle, schedule.last(), who);
        next_keeps_wf(middle, schedule.last());
    }
}

/// Release symmetry: start a dinner with every fork free and let the guests
/// take turns in any order. Of a guest that has come to `Done`, the table's
/// grants hold just this: its first fork taken, its second taken, the second
/// put down and the first put down, each once and in this order.
pub proof fn release_symmetry(
    forks: nat,
    guests: Seq<PhilosopherView>,
    schedule: Seq<int>,
    who: int,
)
    requires
        guests.len() <= usize::MAX,
        0 <= who < guests.len(),
        DinnerView::fresh(forks, guests).after(schedule).stages[who] == Stage::Done,
    ensures
        record(DinnerView::fresh(forks, guests).after(schedule).granted, who as usize) == seq![
            Op::Acquire(guests[who].first()),
            Op::Acquire(guests[who].second()),
            Op::Release(guests[who].second()),
            Op::Release(guests[who].first()),
        ],
{
    fresh_is_wf(forks, guests);
    record_is_ledger(DinnerView::fresh(forks, guests), schedule, who);
}

/// Nothing is left behind and nothing is put down twice: in the record of a
/// guest that has left the table, by eating or by failing, every fork is put
/// down exactly as often as it was taken, and that is at most once.
pub proof fn leaver_is_balanced(
    forks: nat,
    guests: Seq<PhilosopherView>,
    schedule: Seq<int>,
    who: int,
    fork: usize,
)
    requires
        guests.len() <= usize::MAX,
        0 <= who < guests.len(),
        DinnerView::fresh(forks, guests).after(schedule).stages[who].is_over(),
    ensures
        acquires(
            record(DinnerView::fresh(forks, guests).after(schedule).granted, who as usize),
            fork,
        ) == releases(
            record(DinnerView::fresh(forks, guests).after(schedule).granted, who as usize),
            fork,
        ),
        acquires(
            record(DinnerView::fresh(forks, guests).after(schedule).granted, who as usize),
            fork,
        ) <= 1,
{
    let dinner = DinnerView::fresh(forks, guests);
    let last = dinner.after(schedule);
    let ops = record(last.granted, who as usize);
    fresh_is_wf(forks, guests);
    turns_keep_wf(dinner, schedule);
    record_is_ledger(dinner, schedule, who);
    assert(last.stages[who] == Stage::Done ==> guests[who].first() != guests[who].second()) by {
        if last.stages[who] == Stage::Done {
            done_had_two_forks(dinner, schedule, who);
        }
    }
    reveal_with_fuel(acquires, 5);
    reveal_with_fuel(releases, 5);
    if ops.len() == 2 {
        assert(ops.drop_last() =~= seq![ops[0]]);
        assert(ops.drop_last().drop_last() =~= Seq::<Op>::empty());
    } else if ops.len() == 4 {
        assert(ops.drop_last() =~= seq![ops[0], ops[1], ops[2]]);
        assert(ops.drop_last().drop_last() =~= seq![ops[0], ops[1]]);
        assert(ops.drop_last().drop_last().drop_last() =~= seq![ops[0]]);
        assert(ops.drop_last().drop_last().drop_last().drop_last() =~= Seq::<Op>::empty());
    }
}

/// A guest that was not done at the start and is done after a run ate with
/// two different forks.
proof fn done_had_two_forks(dinner: DinnerView, schedule: Seq<int>, who: int)
    requires
        dinner.wf(),
        dinner.seated(who),
        dinner.stages[who] != Stage::Done,
        dinner.after(schedule).stages[who] == Stage::Done,
    ensures
        dinner.guests[who].first() != dinner.guests[who].second(),
    decreases schedule.len(),
{
    if schedule.len() > 0 {
        let earlier = schedule.drop_last();
        let middle = dinner.after(earlier);
        turns_keep_wf(dinner, earlier);
        if middle.stages[who] == Stage::Done {
            done_had_two_forks(dinner, earlier, who);
        } else {
            assert(middle.next(schedule.last()).stages[who] == Stage::Done);
        }
    }
}

} // verus!
