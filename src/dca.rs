//! Deferred trade scheduler: recurring trade orders queued per block.
//!
//! Each block, the orders due are taken from the queue in the order they were
//! queued; the caller runs each against the trade engine and reports how it
//! went, and the scheduler re-plans, suspends or terminates the schedule.

use vstd::prelude::*;
use vstd::std_specs::hash::*;
use std::collections::HashMap;
use crate::arith::ArithmeticError;
use crate::math::TradeQuote;
use crate::omnipool::{self, Omnipool};
use crate::types::{AccountId, AssetId, Balance};

verus! {

broadcast use vstd::std_specs::hash::group_hash_axioms;

pub type ScheduleId = u32;

pub type BlockNumber = u64;

/// The trade a schedule repeats.
#[derive(Clone, Copy, Debug, PartialEq, Eq, Structural)]
pub enum Order {
    Sell { asset_in: AssetId, asset_out: AssetId, amount_in: Balance, min_limit: Balance },
    Buy { asset_in: AssetId, asset_out: AssetId, amount_out: Balance, max_limit: Balance },
}

/// How many times a schedule runs.
#[derive(Clone, Copy, Debug, PartialEq, Eq, Structural)]
pub enum Recurrence {
    Fixed(u32),
    Perpetual,
}

#[derive(Clone, Copy, Debug, PartialEq, Eq, Structural)]
pub struct Schedule {
    pub owner: AccountId,
    /// Blocks between two executions.
    pub period: BlockNumber,
    pub order: Order,
    pub recurrence: Recurrence,
}

#[derive(Clone, Copy, Debug, PartialEq, Eq, Structural)]
pub enum Error {
    ScheduleNotFound,
    NotScheduleOwner,
    ScheduleMustBeSuspended,
    ScheduleAlreadySuspended,
    /// The schedule is not queued in the given block.
    ScheduleNotPlanned,
    /// The schedule still waits in a queue and cannot be run now.
    ScheduleStillPlanned,
    BlockNumberIsNotInFuture,
    /// The block's queue is full.
    TooManyScheduledOrders,
    /// A schedule needs a positive period and at least one execution.
    InvalidSchedule,
    Arithmetic(ArithmeticError),
}

/// How an attempt to run a schedule's trade went.
#[derive(Clone, Copy, Debug, PartialEq, Eq, Structural)]
pub enum ExecutionOutcome {
    Executed,
    /// A failure that may pass, such as too little liquidity.
    TransientFailure,
    /// A failure that will not pass.
    PermanentFailure,
}

/// What the scheduler did with a schedule after an attempt.
#[derive(Clone, Copy, Debug, PartialEq, Eq, Structural)]
pub enum ExecutionAction {
    /// Queued again for the given block.
    Replanned(BlockNumber),
    /// Suspended until its owner resumes it.
    Suspended,
    /// Its last execution is done; its bond is released.
    Completed(Balance),
    /// Ended by a permanent failure; its bond is released.
    Terminated(Balance),
}

/// Whether a failed trade may succeed later: failures that hang on the
/// owner's funds or on the pool's liquidity or prices at the moment pass,
/// all others do not.
pub open spec fn is_transient(e: omnipool::Error) -> bool {
    match e {
        omnipool::Error::InsufficientBalance
        | omnipool::Error::InsufficientLiquidity
        | omnipool::Error::BuyLimitNotReached
        | omnipool::Error::SellLimitExceeded
        | omnipool::Error::MaxInRatioExceeded
        | omnipool::Error::MaxOutRatioExceeded
        | omnipool::Error::CircuitBreaker(_) => true,
        _ => false,
    }
}

/// How an attempt ended, from the trade engine's answer.
pub fn outcome_of(r: &Result<TradeQuote, omnipool::Error>) -> (o: ExecutionOutcome)
    ensures
        o == match *r {
            Ok(_) => ExecutionOutcome::Executed,
            Err(e) => if is_transient(e) {
                ExecutionOutcome::TransientFailure
            } else {
                ExecutionOutcome::PermanentFailure
            },
        },
{
    match r {
        Ok(_) => ExecutionOutcome::Executed,
        Err(e) => match e {
            omnipool::Error::InsufficientBalance
            | omnipool::Error::InsufficientLiquidity
            | omnipool::Error::BuyLimitNotReached
            | omnipool::Error::SellLimitExceeded
            | omnipool::Error::MaxInRatioExceeded
            | omnipool::Error::MaxOutRatioExceeded
            | omnipool::Error::CircuitBreaker(_) => ExecutionOutcome::TransientFailure,
            _ => ExecutionOutcome::PermanentFailure,
        },
    }
}

/// What running `order` against `pool` gives, the owner holding
/// `who_balance` of the asset paid in.
pub open spec fn order_result(pool: &Omnipool, order: Order, who_balance: Balance) -> Result<
    TradeQuote,
    omnipool::Error,
> {
    match order {
        Order::Sell { asset_in, asset_out, amount_in, min_limit } => pool.sell_result(
            who_balance,
            asset_in,
            asset_out,
            amount_in,
            min_limit,
        ),
        Order::Buy { asset_in, asset_out, amount_out, max_limit } => pool.buy_result(
            who_balance,
            asset_in,
            asset_out,
            amount_out,
            max_limit,
        ),
    }
}

/// Runs `order` against `pool` as a sell or a buy.
pub fn run_order(pool: &mut Omnipool, order: Order, who_balance: Balance) -> (r: Result<
    TradeQuote,
    omnipool::Error,
>)
    requires
        old(pool).wf(),
    ensures
        final(pool).wf(),
        r == order_result(old(pool), order, who_balance),
        r is Err ==> final(pool).unchanged(old(pool)),
        r matches Ok(q) ==> match order {
            Order::Sell { asset_in, asset_out, .. } => final(pool).is_traded(
                old(pool),
                asset_in,
                asset_out,
                q,
            ),
            Order::Buy { asset_in, asset_out, .. } => final(pool).is_traded(
                old(pool),
                asset_in,
                asset_out,
                q,
            ),
        },
{
    match order {
        Order::Sell { asset_in, asset_out, amount_in, min_limit } => pool.sell(
            who_balance,
            asset_in,
            asset_out,
            amount_in,
            min_limit,
        ),
        Order::Buy { asset_in, asset_out, amount_out, max_limit } => pool.buy(
            who_balance,
            asset_in,
            asset_out,
            amount_out,
            max_limit,
        ),
    }
}

/// The scheduler's state as mathematical maps.
pub struct SchedulerView {
    pub schedules: Map<ScheduleId, Schedule>,
    /// Schedules queued for each block, in queue order.
    pub planned: Map<BlockNumber, Seq<ScheduleId>>,
    /// Executions left to schedules with a fixed recurrence.
    pub remaining: Map<ScheduleId, u32>,
    /// Suspended schedules, with the block they were taken from.
    pub suspended: Map<ScheduleId, BlockNumber>,
    /// Bonds reserved for schedules.
    pub bonds: Map<ScheduleId, Balance>,
    /// The block whose queue holds each queued schedule.
    pub locations: Map<ScheduleId, BlockNumber>,
    pub next_id: ScheduleId,
    pub max_per_block: usize,
}

impl SchedulerView {
    pub open spec fn wf(self) -> bool {
        &&& self.max_per_block > 0
        &&& forall|id: ScheduleId| #[trigger]
            self.schedules.contains_key(id) ==> (self.remaining.contains_key(id)
                <==> self.schedules[id].recurrence is Fixed)
        &&& forall|id: ScheduleId| #[trigger]
            self.remaining.contains_key(id) ==> self.schedules.contains_key(id)
                && self.remaining[id] > 0
        &&& forall|id: ScheduleId| #[trigger] self.schedules.contains_key(id) ==> id < self.next_id
        &&& forall|id: ScheduleId| #[trigger]
            self.schedules.contains_key(id) ==> self.schedules[id].period > 0
        &&& forall|id: ScheduleId| #[trigger]
            self.suspended.contains_key(id) ==> self.schedules.contains_key(id)
        &&& forall|b: BlockNumber| #[trigger]
            self.planned.contains_key(b) ==> self.planned[b].len() <= self.max_per_block
                && self.planned[b].no_duplicates()
        &&& forall|b: BlockNumber, i: int|
            self.planned.contains_key(b) && 0 <= i < self.planned[b].len() ==> {
                &&& self.locations.contains_key(#[trigger] self.planned[b][i])
                &&& self.locations[self.planned[b][i]] == b
            }
        &&& forall|id: ScheduleId| #[trigger]
            self.locations.contains_key(id) ==> {
                &&& self.planned_at(self.locations[id]).contains(id)
                &&& self.schedules.contains_key(id)
                &&& !self.suspended.contains_key(id)
            }
    }

    /// Whether schedule `id` waits in some block's queue.
    pub open spec fn is_queued(self, id: ScheduleId) -> bool {
        self.locations.contains_key(id)
    }

    /// Schedules queued for block `b`.
    pub open spec fn planned_at(self, b: BlockNumber) -> Seq<ScheduleId> {
        if self.planned.contains_key(b) {
            self.planned[b]
        } else {
            Seq::empty()
        }
    }

    /// This state with `id` queued last in block `b`.
    pub open spec fn enqueue(self, b: BlockNumber, id: ScheduleId) -> SchedulerView {
        SchedulerView {
            planned: self.planned.insert(b, self.planned_at(b).push(id)),
            locations: self.locations.insert(id, b),
            ..self
        }
    }

    /// This state with `id` taken out of the queue of block `b`; the other
    /// schedules of that block keep their order.
    pub open spec fn unqueue(self, b: BlockNumber, id: ScheduleId) -> SchedulerView {
        SchedulerView {
            planned: self.planned.insert(b, self.planned_at(b).remove_value(id)),
            locations: self.locations.remove(id),
            ..self
        }
    }

    /// This state with the queue of block `b` taken out.
    pub open spec fn take(self, b: BlockNumber) -> SchedulerView {
        SchedulerView {
            planned: self.planned.remove(b),
            locations: self.locations.remove_keys(self.planned_at(b).to_set()),
            ..self
        }
    }

    /// This state with every record of `id` but its place in a queue gone.
    pub open spec fn forget(self, id: ScheduleId) -> SchedulerView {
        SchedulerView {
            schedules: self.schedules.remove(id),
            remaining: self.remaining.remove(id),
            suspended: self.suspended.remove(id),
            bonds: self.bonds.remove(id),
            ..self
        }
    }

    /// The block that a call at `current` names: `start` if given, else the
    /// next one.
    pub open spec fn target_block(current: BlockNumber, start: Option<BlockNumber>) -> Result<
        BlockNumber,
        Error,
    > {
        match start {
            Some(b) => if b <= current {
                Err(Error::BlockNumberIsNotInFuture)
            } else {
                Ok(b)
            },
            None => if current == u64::MAX {
                Err(Error::Arithmetic(ArithmeticError::Overflow))
            } else {
                Ok((current + 1) as u64)
            },
        }
    }

    /// Outcome of `schedule`.
    pub open spec fn schedule_spec(
        self,
        schedule: Schedule,
        bond: Balance,
        current: BlockNumber,
        start: Option<BlockNumber>,
    ) -> Result<(ScheduleId, SchedulerView), Error> {
        if schedule.period == 0 || schedule.recurrence == Recurrence::Fixed(0) {
            Err(Error::InvalidSchedule)
        } else {
            match Self::target_block(current, start) {
                Err(e) => Err(e),
                Ok(b) => if self.planned_at(b).len() >= self.max_per_block {
                    Err(Error::TooManyScheduledOrders)
                } else if self.next_id == u32::MAX {
                    Err(Error::Arithmetic(ArithmeticError::Overflow))
                } else {
                    let id = self.next_id;
                    Ok(
                        (
                            id,
                            SchedulerView {
                                schedules: self.schedules.insert(id, schedule),
                                remaining: match schedule.recurrence {
                                    Recurrence::Fixed(n) => self.remaining.insert(id, n),
                                    Recurrence::Perpetual => self.remaining,
                                },
                                bonds: self.bonds.insert(id, bond),
                                next_id: (id + 1) as u32,
                                ..self
                            }.enqueue(b, id),
                        ),
                    )
                },
            }
        }
    }

    /// Outcome of `record_execution` for a schedule that was due at
    /// `current`.
    pub open spec fn record_spec(self, id: ScheduleId, current: BlockNumber, outcome: ExecutionOutcome) -> Result<
        (ExecutionAction, SchedulerView),
        Error,
    > {
        if !self.schedules.contains_key(id) {
            Err(Error::ScheduleNotFound)
        } else if self.suspended.contains_key(id) {
            Err(Error::ScheduleAlreadySuspended)
        } else if self.is_queued(id) {
            Err(Error::ScheduleStillPlanned)
        } else {
            let s = self.schedules[id];
            let bond = if self.bonds.contains_key(id) {
                self.bonds[id]
            } else {
                0
            };
            match outcome {
                ExecutionOutcome::PermanentFailure => Ok(
                    (ExecutionAction::Terminated(bond), self.forget(id)),
                ),
                ExecutionOutcome::TransientFailure => Ok(
                    (
                        ExecutionAction::Suspended,
                        SchedulerView { suspended: self.suspended.insert(id, current), ..self },
                    ),
                ),
                ExecutionOutcome::Executed => if s.recurrence is Fixed && self.remaining[id] == 1 {
                    Ok((ExecutionAction::Completed(bond), self.forget(id)))
                } else {
                    let counted = if s.recurrence is Fixed {
                        SchedulerView {
                            remaining: self.remaining.insert(id, (self.remaining[id] - 1) as u32),
                            ..self
                        }
                    } else {
                        self
                    };
                    if current + s.period > u64::MAX || self.planned_at(
                        (current + s.period) as u64,
                    ).len() >= self.max_per_block {
                        Ok(
                            (
                                ExecutionAction::Suspended,
                                SchedulerView {
                                    suspended: counted.suspended.insert(id, current),
                                    ..counted
                                },
                            ),
                        )
                    } else {
                        let next = (current + s.period) as u64;
                        Ok((ExecutionAction::Replanned(next), counted.enqueue(next, id)))
                    }
                },
            }
        }
    }

    /// Outcome of `pause`.
    pub open spec fn pause_spec(self, who: AccountId, id: ScheduleId, planned_block: BlockNumber) -> Result<
        SchedulerView,
        Error,
    > {
        if !self.schedules.contains_key(id) {
            Err(Error::ScheduleNotFound)
        } else if self.schedules[id].owner != who {
            Err(Error::NotScheduleOwner)
        } else if self.suspended.contains_key(id) {
            Err(Error::ScheduleAlreadySuspended)
        } else if !(self.is_queued(id) && self.locations[id] == planned_block) {
            Err(Error::ScheduleNotPlanned)
        } else {
            let v = self.unqueue(planned_block, id);
            Ok(SchedulerView { suspended: v.suspended.insert(id, planned_block), ..v })
        }
    }

    /// Outcome of `resume`.
    pub open spec fn resume_spec(
        self,
        who: AccountId,
        id: ScheduleId,
        current: BlockNumber,
        next: Option<BlockNumber>,
    ) -> Result<SchedulerView, Error> {
        if !self.schedules.contains_key(id) {
            Err(Error::ScheduleNotFound)
        } else if self.schedules[id].owner != who {
            Err(Error::NotScheduleOwner)
        } else if !self.suspended.contains_key(id) {
            Err(Error::ScheduleMustBeSuspended)
        } else {
            match Self::target_block(current, next) {
                Err(e) => Err(e),
                Ok(b) => if self.planned_at(b).len() >= self.max_per_block {
                    Err(Error::TooManyScheduledOrders)
                } else {
                    Ok(
                        SchedulerView {
                            suspended: self.suspended.remove(id),
                            ..self
                        }.enqueue(b, id),
                    )
                },
            }
        }
    }

    /// Outcome of `terminate`: the schedule leaves its queue, if it is in
    /// one, and every record of it is dropped.
    pub open spec fn terminate_spec(self, id: ScheduleId) -> Result<(Balance, SchedulerView), Error> {
        if !self.schedules.contains_key(id) {
            Err(Error::ScheduleNotFound)
        } else {
            let bond = if self.bonds.contains_key(id) {
                self.bonds[id]
            } else {
                0
            };
            let dequeued = if self.is_queued(id) {
                self.unqueue(self.locations[id], id)
            } else {
                self
            };
            Ok((bond, dequeued.forget(id)))
        }
    }
}

/// A schedule that no block's location names is in no block's queue.
pub proof fn lemma_unqueued_is_in_no_queue(v: SchedulerView, id: ScheduleId)
    requires
        v.wf(),
        !v.is_queued(id),
    ensures
        forall|b: BlockNumber| !(#[trigger] v.planned_at(b)).contains(id),
{
    assert forall|b: BlockNumber| !(#[trigger] v.planned_at(b)).contains(id) by {
        if v.planned_at(b).contains(id) {
            let i = choose|i: int| 0 <= i < v.planned_at(b).len() && v.planned_at(b)[i] == id;
            assert(v.locations.contains_key(v.planned[b][i]));
        }
    }
}

/// A successful execution of an active schedule, taken out of every queue,
/// with a fixed recurrence counts its remaining executions down by exactly
/// one; after the last one nothing of the schedule is left, in no map and
/// in no queue. A perpetual schedule never has a count.
pub proof fn lemma_execution_counts_down(v: SchedulerView, id: ScheduleId, current: BlockNumber)
    requires
        v.wf(),
        v.schedules.contains_key(id),
        !v.suspended.contains_key(id),
        !v.is_queued(id),
    ensures
        v.schedules[id].recurrence is Perpetual ==> !v.remaining.contains_key(id),
        v.record_spec(id, current, ExecutionOutcome::Executed) matches Ok((action, after)) && {
            match v.schedules[id].recurrence {
                Recurrence::Perpetual => !after.remaining.contains_key(id) && after.schedules.contains_key(
                    id,
                ),
                Recurrence::Fixed(_) => if v.remaining[id] == 1 {
                    &&& action is Completed
                    &&& !after.schedules.contains_key(id)
                    &&& !after.remaining.contains_key(id)
                    &&& !after.suspended.contains_key(id)
                    &&& !after.bonds.contains_key(id)
                    &&& !after.is_queued(id)
                    &&& forall|b: BlockNumber| !(#[trigger] after.planned_at(b)).contains(id)
                } else {
                    &&& after.schedules.contains_key(id)
                    &&& after.remaining[id] == v.remaining[id] - 1
                },
            }
        },
{
    if v.schedules[id].recurrence is Fixed && v.remaining[id] == 1 {
        lemma_forget_wf(v, id);
        lemma_unqueued_is_in_no_queue(v.forget(id), id);
    }
}

/// Pausing a schedule queued in the next block and resuming it without
/// naming a block queues it again in that block, after the schedules
/// already there, whose order is kept.
pub proof fn lemma_pause_then_resume_requeues_last(
    v: SchedulerView,
    who: AccountId,
    id: ScheduleId,
    current: BlockNumber,
)
    requires
        v.wf(),
        current < u64::MAX,
        v.pause_spec(who, id, (current + 1) as u64) is Ok,
    ensures
        v.pause_spec(who, id, (current + 1) as u64)->Ok_0.resume_spec(who, id, current, None) matches Ok(
            after,
        ) && after.planned_at((current + 1) as u64) == v.planned_at((current + 1) as u64).remove_value(
            id,
        ).push(id) && !after.suspended.contains_key(id),
{
    let b = (current + 1) as u64;
    let paused = v.pause_spec(who, id, b)->Ok_0;
    v.planned_at(b).index_of_first_ensures(id);
    assert(paused.planned_at(b).len() < v.max_per_block);
}

/// `resume` refuses every explicit block that is not after the current one.
pub proof fn lemma_resume_refuses_past_blocks(
    v: SchedulerView,
    who: AccountId,
    id: ScheduleId,
    current: BlockNumber,
    next: BlockNumber,
)
    requires
        v.schedules.contains_key(id),
        v.schedules[id].owner == who,
        v.suspended.contains_key(id),
        next <= current,
    ensures
        v.resume_spec(who, id, current, Some(next)) == Err::<SchedulerView, Error>(
            Error::BlockNumberIsNotInFuture,
        ),
{
}

proof fn lemma_enqueue_wf(v: SchedulerView, b: BlockNumber, id: ScheduleId)
    requires
        v.wf(),
        v.planned_at(b).len() < v.max_per_block,
        !v.is_queued(id),
        v.schedules.contains_key(id),
        !v.suspended.contains_key(id),
    ensures
        v.enqueue(b, id).wf(),
{
    let w = v.enqueue(b, id);
    let old_q = v.planned_at(b);
    let new_q = old_q.push(id);
    lemma_unqueued_is_in_no_queue(v, id);
    assert(!old_q.contains(id));
    assert(w.planned[b] == new_q);
    assert(new_q[old_q.len() as int] == id);
    assert forall|c: BlockNumber| #[trigger] w.planned.contains_key(c) implies w.planned[c].len()
        <= w.max_per_block && w.planned[c].no_duplicates() by {
        if c != b {
            assert(v.planned.contains_key(c));
        } else {
            assert forall|i: int, j: int| 0 <= i < new_q.len() && 0 <= j < new_q.len() && i != j implies new_q[i]
                != new_q[j] by {
                if i < old_q.len() && j < old_q.len() {
                    assert(v.planned.contains_key(b));
                } else if i < old_q.len() {
                    assert(old_q[i] != id);
                } else {
                    assert(old_q[j] != id);
                }
            }
        }
    }
    assert forall|c: BlockNumber, i: int|
        w.planned.contains_key(c) && 0 <= i < w.planned[c].len() implies w.locations.contains_key(
        #[trigger] w.planned[c][i]) && w.locations[w.planned[c][i]] == c by {
        if c != b {
            assert(v.planned.contains_key(c));
            assert(v.locations.contains_key(v.planned[c][i]));
            assert(v.planned[c][i] != id);
        } else if i < old_q.len() {
            assert(v.planned.contains_key(b));
            assert(v.locations.contains_key(v.planned[b][i]));
            assert(old_q[i] != id);
        }
    }
    assert forall|k: ScheduleId| #[trigger] w.locations.contains_key(k) implies {
        &&& w.planned_at(w.locations[k]).contains(k)
        &&& w.schedules.contains_key(k)
        &&& !w.suspended.contains_key(k)
    } by {
        if k == id {
            assert(w.planned_at(b)[old_q.len() as int] == id);
        } else {
            assert(v.locations.contains_key(k));
            let l = v.locations[k];
            if l == b {
                let j = choose|j: int| 0 <= j < old_q.len() && old_q[j] == k;
                assert(w.planned_at(b)[j] == k);
            }
        }
    }
    lemma_view_wf_rest(v, w);
}

/// The clauses of `wf` that speak of neither queues nor locations carry
/// over between states that agree on everything else.
proof fn lemma_view_wf_rest(v: SchedulerView, w: SchedulerView)
    requires
        v.wf(),
        w.schedules == v.schedules,
        forall|k: ScheduleId| #[trigger] w.suspended.contains_key(k) ==> v.schedules.contains_key(k),
        w.remaining == v.remaining,
        w.next_id == v.next_id,
        w.max_per_block == v.max_per_block,
    ensures
        w.max_per_block > 0,
        forall|id: ScheduleId| #[trigger]
            w.schedules.contains_key(id) ==> (w.remaining.contains_key(id)
                <==> w.schedules[id].recurrence is Fixed),
        forall|id: ScheduleId| #[trigger]
            w.remaining.contains_key(id) ==> w.schedules.contains_key(id) && w.remaining[id] > 0,
        forall|id: ScheduleId| #[trigger] w.schedules.contains_key(id) ==> id < w.next_id,
        forall|id: ScheduleId| #[trigger] w.schedules.contains_key(id) ==> w.schedules[id].period > 0,
        forall|id: ScheduleId| #[trigger] w.suspended.contains_key(id) ==> w.schedules.contains_key(id),
{
}

proof fn lemma_unqueue_wf(v: SchedulerView, b: BlockNumber, id: ScheduleId)
    requires
        v.wf(),
        v.is_queued(id),
        v.locations[id] == b,
    ensures
        v.unqueue(b, id).wf(),
        v.planned_at(b).contains(id),
{
    let w = v.unqueue(b, id);
    let old_q = v.planned_at(b);
    old_q.index_of_first_ensures(id);
    let i0 = old_q.index_of_first(id)->0;
    let new_q = old_q.remove(i0);
    assert(v.planned.contains_key(b));
    assert(w.planned[b] == new_q);
    assert(new_q.len() == old_q.len() - 1);
    assert forall|k: int| 0 <= k < new_q.len() implies #[trigger] new_q[k] == if k < i0 {
        old_q[k]
    } else {
        old_q[k + 1]
    } by {}
    assert forall|k: int| 0 <= k < new_q.len() implies #[trigger] new_q[k] != id by {
        if k < i0 {
            assert(old_q[k] != old_q[i0]);
        } else {
            assert(old_q[k + 1] != old_q[i0]);
        }
    }
    assert forall|c: BlockNumber| #[trigger] w.planned.contains_key(c) implies w.planned[c].len()
        <= w.max_per_block && w.planned[c].no_duplicates() by {
        if c != b {
            assert(v.planned.contains_key(c));
        } else {
            assert forall|x: int, y: int| 0 <= x < new_q.len() && 0 <= y < new_q.len() && x != y implies new_q[x]
                != new_q[y] by {
                let ox = if x < i0 { x } else { x + 1 };
                let oy = if y < i0 { y } else { y + 1 };
                assert(new_q[x] == old_q[ox]);
                assert(new_q[y] == old_q[oy]);
            }
        }
    }
    assert forall|c: BlockNumber, i: int|
        w.planned.contains_key(c) && 0 <= i < w.planned[c].len() implies w.locations.contains_key(
        #[trigger] w.planned[c][i]) && w.locations[w.planned[c][i]] == c by {
        if c != b {
            assert(v.planned.contains_key(c));
            assert(v.locations.contains_key(v.planned[c][i]));
            assert(v.planned[c][i] != id);
        } else {
            let oi = if i < i0 { i } else { i + 1 };
            assert(new_q[i] == old_q[oi]);
            assert(v.locations.contains_key(v.planned[b][oi]));
            assert(new_q[i] != id);
        }
    }
    assert forall|k: ScheduleId| #[trigger] w.locations.contains_key(k) implies {
        &&& w.planned_at(w.locations[k]).contains(k)
        &&& w.schedules.contains_key(k)
        &&& !w.suspended.contains_key(k)
    } by {
        assert(v.locations.contains_key(k));
        let l = v.locations[k];
        if l == b {
            let j = choose|j: int| 0 <= j < old_q.len() && old_q[j] == k;
            assert(j != i0);
            let nj = if j < i0 { j } else { j - 1 };
            assert(new_q[nj] == k);
        }
    }
    lemma_view_wf_rest(v, w);
}

proof fn lemma_take_wf(v: SchedulerView, b: BlockNumber)
    requires
        v.wf(),
    ensures
        v.take(b).wf(),
        v.planned_at(b).no_duplicates(),
        forall|i: int| 0 <= i < v.planned_at(b).len() ==> !v.take(b).is_queued(
            #[trigger] v.planned_at(b)[i],
        ),
{
    let w = v.take(b);
    let q = v.planned_at(b);
    assert forall|c: BlockNumber| #[trigger] w.planned.contains_key(c) implies w.planned[c].len()
        <= w.max_per_block && w.planned[c].no_duplicates() by {
        assert(v.planned.contains_key(c));
    }
    assert forall|c: BlockNumber, i: int|
        w.planned.contains_key(c) && 0 <= i < w.planned[c].len() implies w.locations.contains_key(
        #[trigger] w.planned[c][i]) && w.locations[w.planned[c][i]] == c by {
        assert(v.planned.contains_key(c));
        assert(v.locations.contains_key(v.planned[c][i]));
        if q.contains(v.planned[c][i]) {
            let j = choose|j: int| 0 <= j < q.len() && q[j] == v.planned[c][i];
            assert(v.locations.contains_key(v.planned[b][j]));
        }
    }
    assert forall|k: ScheduleId| #[trigger] w.locations.contains_key(k) implies {
        &&& w.planned_at(w.locations[k]).contains(k)
        &&& w.schedules.contains_key(k)
        &&& !w.suspended.contains_key(k)
    } by {
        assert(v.locations.contains_key(k));
        assert(!q.to_set().contains(k));
        if v.locations[k] == b {
            assert(v.planned_at(b).contains(k));
            assert(q.to_set().contains(k));
        }
    }
    if v.planned.contains_key(b) {
        assert(v.planned[b].no_duplicates());
    }
    assert forall|i: int| 0 <= i < q.len() implies !w.is_queued(#[trigger] q[i]) by {
        assert(q.to_set().contains(q[i]));
    }
    lemma_view_wf_rest(v, w);
}

proof fn lemma_forget_wf(v: SchedulerView, id: ScheduleId)
    requires
        v.wf(),
        !v.is_queued(id),
    ensures
        v.forget(id).wf(),
{
    let w = v.forget(id);
    assert forall|k: ScheduleId| #[trigger] w.schedules.contains_key(k) implies (
    w.remaining.contains_key(k) <==> w.schedules[k].recurrence is Fixed) by {
        assert(v.schedules.contains_key(k));
    }
    assert forall|k: ScheduleId| #[trigger] w.remaining.contains_key(k) implies w.schedules.contains_key(k)
        && w.remaining[k] > 0 by {
        assert(v.remaining.contains_key(k));
    }
    assert forall|k: ScheduleId| #[trigger] w.schedules.contains_key(k) implies k < w.next_id
        && w.schedules[k].period > 0 by {
        assert(v.schedules.contains_key(k));
    }
    assert forall|c: BlockNumber| #[trigger] w.planned.contains_key(c) implies w.planned[c].len()
        <= w.max_per_block && w.planned[c].no_duplicates() by {
        assert(v.planned.contains_key(c));
    }
    assert forall|c: BlockNumber, i: int|
        w.planned.contains_key(c) && 0 <= i < w.planned[c].len() implies w.locations.contains_key(
        #[trigger] w.planned[c][i]) && w.locations[w.planned[c][i]] == c by {
        assert(v.locations.contains_key(v.planned[c][i]));
    }
    assert forall|k: ScheduleId| #[trigger] w.locations.contains_key(k) implies {
        &&& w.planned_at(w.locations[k]).contains(k)
        &&& w.schedules.contains_key(k)
        &&& !w.suspended.contains_key(k)
    } by {
        assert(v.locations.contains_key(k));
    }
}

/// Suspending, or changing the records of, a schedule that waits in no
/// queue keeps the state well formed.
proof fn lemma_records_wf(v: SchedulerView, w: SchedulerView, id: ScheduleId)
    requires
        v.wf(),
        !v.is_queued(id),
        v.schedules.contains_key(id),
        w.planned == v.planned,
        w.locations == v.locations,
        w.schedules == v.schedules,
        w.next_id == v.next_id,
        w.max_per_block == v.max_per_block,
        w.remaining.dom() == v.remaining.dom(),
        forall|k: ScheduleId| #[trigger] w.remaining.contains_key(k) ==> w.remaining[k] > 0,
        forall|k: ScheduleId| k != id ==> (#[trigger] w.suspended.contains_key(k) <==> v.suspended.contains_key(k)),
    ensures
        w.wf(),
{
    assert forall|k: ScheduleId| #[trigger] w.schedules.contains_key(k) implies (
    w.remaining.contains_key(k) <==> w.schedules[k].recurrence is Fixed) by {
        assert(v.schedules.contains_key(k));
        assert(w.remaining.contains_key(k) == v.remaining.contains_key(k));
    }
    assert forall|k: ScheduleId| #[trigger] w.remaining.contains_key(k) implies w.schedules.contains_key(k)
        && w.remaining[k] > 0 by {
        assert(v.remaining.contains_key(k));
    }
    assert forall|c: BlockNumber| #[trigger] w.planned.contains_key(c) implies w.planned[c].len()
        <= w.max_per_block && w.planned[c].no_duplicates() by {
        assert(v.planned.contains_key(c));
    }
    assert forall|c: BlockNumber, i: int|
        w.planned.contains_key(c) && 0 <= i < w.planned[c].len() implies w.locations.contains_key(
        #[trigger] w.planned[c][i]) && w.locations[w.planned[c][i]] == c by {
        assert(v.locations.contains_key(v.planned[c][i]));
    }
    assert forall|k: ScheduleId| #[trigger] w.locations.contains_key(k) implies {
        &&& w.planned_at(w.locations[k]).contains(k)
        &&& w.schedules.contains_key(k)
        &&& !w.suspended.contains_key(k)
    } by {
        assert(v.locations.contains_key(k));
    }
    lemma_view_wf_rest(v, SchedulerView { remaining: v.remaining, ..w });
    assert forall|k: ScheduleId| #[trigger] w.schedules.contains_key(k) implies k < w.next_id
        && w.schedules[k].period > 0 by {
        assert(v.schedules.contains_key(k));
    }
}

/// The scheduler.
pub struct Scheduler {
    max_per_block: usize,
    next_id: ScheduleId,
    schedules: HashMap<ScheduleId, Schedule>,
    planned: HashMap<BlockNumber, Vec<ScheduleId>>,
    remaining: HashMap<ScheduleId, u32>,
    suspended: HashMap<ScheduleId, BlockNumber>,
    bonds: HashMap<ScheduleId, Balance>,
    locations: HashMap<ScheduleId, BlockNumber>,
}

impl View for Scheduler {
    type V = SchedulerView;

    closed spec fn view(&self) -> SchedulerView {
        SchedulerView {
            schedules: self.schedules@,
            planned: self.planned@.map_values(|v: Vec<ScheduleId>| v@),
            remaining: self.remaining@,
            suspended: self.suspended@,
            bonds: self.bonds@,
            locations: self.locations@,
            next_id: self.next_id,
            max_per_block: self.max_per_block,
        }
    }
}

impl Scheduler {
    /// An empty scheduler that queues at most `max_per_block` schedules in
    /// one block; identifiers start at one.
    pub fn new(max_per_block: usize) -> (r: Scheduler)
        requires
            max_per_block > 0,
        ensures
            r@.wf(),
            r@.schedules == Map::<ScheduleId, Schedule>::empty(),
            r@.planned == Map::<BlockNumber, Seq<ScheduleId>>::empty(),
            r@.remaining == Map::<ScheduleId, u32>::empty(),
            r@.suspended == Map::<ScheduleId, BlockNumber>::empty(),
            r@.bonds == Map::<ScheduleId, Balance>::empty(),
            r@.locations == Map::<ScheduleId, BlockNumber>::empty(),
            r@.next_id == 1,
            r@.max_per_block == max_per_block,
    {
        let r = Scheduler {
            max_per_block,
            next_id: 1,
            schedules: HashMap::new(),
            planned: HashMap::new(),
            remaining: HashMap::new(),
            suspended: HashMap::new(),
            bonds: HashMap::new(),
            locations: HashMap::new(),
        };
        proof {
            assert(r@.planned =~= Map::<BlockNumber, Seq<ScheduleId>>::empty());
        }
        r
    }

    /// Schedules queued for block `b`, in queue order.
    pub fn schedule_ids_per_block(&self, b: BlockNumber) -> (r: Vec<ScheduleId>)
        ensures
            r@ == self@.planned_at(b),
    {
        match self.planned.get(&b) {
            Some(v) => {
                let mut out: Vec<ScheduleId> = Vec::new();
                let mut i: usize = 0;
                while i < v.len()
                    invariant
                        i <= v@.len(),
                        out@ == v@.subrange(0, i as int),
                    decreases v@.len() - i,
                {
                    out.push(v[i]);
                    i += 1;
                    proof {
                        assert(out@ =~= v@.subrange(0, i as int));
                    }
                }
                proof {
                    assert(out@ =~= v@);
                }
                out
            },
            None => Vec::new(),
        }
    }

    pub fn schedules(&self, id: ScheduleId) -> (r: Option<Schedule>)
        ensures
            r == (if self@.schedules.contains_key(id) {
                Some(self@.schedules[id])
            } else {
                None
            }),
    {
        match self.schedules.get(&id) {
            Some(s) => Some(*s),
            None => None,
        }
    }

    /// Executions left to `id`; `None` for a perpetual or unknown schedule.
    pub fn remaining_recurrences(&self, id: ScheduleId) -> (r: Option<u32>)
        ensures
            r == (if self@.remaining.contains_key(id) {
                Some(self@.remaining[id])
            } else {
                None
            }),
    {
        match self.remaining.get(&id) {
            Some(n) => Some(*n),
            None => None,
        }
    }

    /// The block `id` was suspended at, if it is suspended.
    pub fn suspended(&self, id: ScheduleId) -> (r: Option<BlockNumber>)
        ensures
            r == (if self@.suspended.contains_key(id) {
                Some(self@.suspended[id])
            } else {
                None
            }),
    {
        match self.suspended.get(&id) {
            Some(b) => Some(*b),
            None => None,
        }
    }

    pub fn bond(&self, id: ScheduleId) -> (r: Option<Balance>)
        ensures
            r == (if self@.bonds.contains_key(id) {
                Some(self@.bonds[id])
            } else {
                None
            }),
    {
        match self.bonds.get(&id) {
            Some(b) => Some(*b),
            None => None,
        }
    }

    /// The block whose queue holds `id`, if any.
    pub fn location(&self, id: ScheduleId) -> (r: Option<BlockNumber>)
        ensures
            r == (if self@.locations.contains_key(id) {
                Some(self@.locations[id])
            } else {
                None
            }),
    {
        match self.locations.get(&id) {
            Some(b) => Some(*b),
            None => None,
        }
    }

    fn planned_len(&self, b: BlockNumber) -> (r: usize)
        ensures
            r == self@.planned_at(b).len(),
    {
        match self.planned.get(&b) {
            Some(v) => v.len(),
            None => 0,
        }
    }

    fn enqueue(&mut self, b: BlockNumber, id: ScheduleId)
        ensures
            final(self)@ == old(self)@.enqueue(b, id),
    {
        let mut list = match self.planned.remove(&b) {
            Some(v) => v,
            None => Vec::new(),
        };
        list.push(id);
        self.planned.insert(b, list);
        self.locations.insert(id, b);
        proof {
            assert(self@.planned =~= old(self)@.planned.insert(
                b,
                old(self)@.planned_at(b).push(id),
            ));
            assert(self@ == old(self)@.enqueue(b, id));
        }
    }

    /// Takes `id` out of the queue of block `b`, where it waits.
    fn unqueue(&mut self, b: BlockNumber, id: ScheduleId)
        requires
            old(self)@.wf(),
            old(self)@.is_queued(id),
            old(self)@.locations[id] == b,
        ensures
            final(self)@ == old(self)@.unqueue(b, id),
            final(self)@.wf(),
    {
        proof {
            lemma_unqueue_wf(old(self)@, b, id);
        }
        let mut list = match self.planned.remove(&b) {
            Some(v) => v,
            None => Vec::new(),
        };
        let ghost old_list = list@;
        assert(old_list == old(self)@.planned_at(b));
        let mut i: usize = 0;
        while i < list.len() && list[i] != id
            invariant
                i <= list@.len(),
                list@ == old_list,
                forall|j: int| 0 <= j < i ==> list@[j] != id,
            decreases list@.len() - i,
        {
            i += 1;
        }
        proof {
            old_list.index_of_first_ensures(id);
            if i == list.len() {
                assert(!old_list.contains(id));
            }
            let k = old_list.index_of_first(id)->0;
            assert(k == i as int);
        }
        list.remove(i);
        self.planned.insert(b, list);
        self.locations.remove(&id);
        proof {
            assert(self@.planned =~= old(self)@.planned.insert(
                b,
                old(self)@.planned_at(b).remove_value(id),
            ));
            assert(self@ == old(self)@.unqueue(b, id));
        }
    }

    fn forget(&mut self, id: ScheduleId)
        ensures
            final(self)@ == old(self)@.forget(id),
    {
        self.schedules.remove(&id);
        self.remaining.remove(&id);
        self.suspended.remove(&id);
        self.bonds.remove(&id);
        proof {
            assert(self@.planned == old(self)@.planned);
        }
    }

    /// Takes the queue of block `b` out of the scheduler: the schedules due
    /// in that block, in the order they were queued, none of them in a
    /// queue any more.
    pub fn take_due(&mut self, b: BlockNumber) -> (r: Vec<ScheduleId>)
        requires
            old(self)@.wf(),
        ensures
            final(self)@.wf(),
            r@ == old(self)@.planned_at(b),
            r@.no_duplicates(),
            final(self)@ == old(self)@.take(b),
            forall|i: int| 0 <= i < r@.len() ==> !final(self)@.is_queued(#[trigger] r@[i]),
    {
        proof {
            lemma_take_wf(old(self)@, b);
        }
        let r = match self.planned.remove(&b) {
            Some(v) => v,
            None => Vec::new(),
        };
        let ghost old_locations = self.locations@;
        let mut i: usize = 0;
        while i < r.len()
            invariant
                i <= r@.len(),
                r@ == old(self)@.planned_at(b),
                old_locations == old(self)@.locations,
                self.locations@ == old_locations.remove_keys(r@.subrange(0, i as int).to_set()),
                self.planned@ == old(self).planned@.remove(b),
                self.schedules@ == old(self).schedules@,
                self.remaining@ == old(self).remaining@,
                self.suspended@ == old(self).suspended@,
                self.bonds@ == old(self).bonds@,
                self.next_id == old(self).next_id,
                self.max_per_block == old(self).max_per_block,
            decreases r@.len() - i,
        {
            let id = r[i];
            self.locations.remove(&id);
            proof {
                assert(r@.subrange(0, i as int + 1).to_set() =~= r@.subrange(0, i as int).to_set().insert(
                    id,
                )) by {
                    assert forall|x: ScheduleId| r@.subrange(0, i as int + 1).to_set().contains(x)
                        <==> r@.subrange(0, i as int).to_set().insert(id).contains(x) by {
                        if r@.subrange(0, i as int + 1).contains(x) {
                            let j = choose|j: int| 0 <= j < i + 1 && #[trigger] r@.subrange(0, i as int + 1)[j] == x;
                            if j < i {
                                assert(r@.subrange(0, i as int)[j] == x);
                            }
                        }
                        if r@.subrange(0, i as int).contains(x) {
                            let j = choose|j: int| 0 <= j < i && #[trigger] r@.subrange(0, i as int)[j] == x;
                            assert(r@.subrange(0, i as int + 1)[j] == x);
                        }
                        if x == id {
                            assert(r@.subrange(0, i as int + 1)[i as int] == x);
                        }
                    }
                }
                assert(self.locations@ =~= old_locations.remove_keys(
                    r@.subrange(0, i as int + 1).to_set(),
                ));
            }
            i += 1;
        }
        proof {
            assert(r@.subrange(0, r@.len() as int) == r@);
            assert(self@.planned =~= old(self)@.planned.remove(b));
            assert(self@ == old(self)@.take(b));
        }
        r
    }

    /// Records how the attempt to run schedule `id`, due at `current` and
    /// taken out of its queue, went; a suspended or still queued schedule is
    /// not run. After a permanent failure the schedule is terminated; after
    /// a transient one it is suspended; after an execution a fixed
    /// recurrence counts down by one, the last execution completes the
    /// schedule, and otherwise it is queued again a period later (suspended
    /// instead if that block is full or beyond the last block).
    pub fn record_execution(&mut self, id: ScheduleId, current: BlockNumber, outcome: ExecutionOutcome) -> (r:
        Result<ExecutionAction, Error>)
        requires
            old(self)@.wf(),
        ensures
            final(self)@.wf(),
            match old(self)@.record_spec(id, current, outcome) {
                Ok((a, v)) => r == Ok::<ExecutionAction, Error>(a) && final(self)@ == v,
                Err(e) => r == Err::<ExecutionAction, Error>(e) && final(self)@ == old(self)@,
            },
            final(self)@.planned_at(current) == old(self)@.planned_at(current),
            forall|k: ScheduleId| k != id ==> {
                &&& (#[trigger] final(self)@.schedules.contains_key(k)) == old(self)@.schedules.contains_key(k)
                &&& final(self)@.suspended.contains_key(k) == old(self)@.suspended.contains_key(k)
                &&& final(self)@.locations.contains_key(k) == old(self)@.locations.contains_key(k)
            },
    {
        let s = match self.schedules.get(&id) {
            Some(s) => *s,
            None => return Err(Error::ScheduleNotFound),
        };
        if self.suspended.contains_key(&id) {
            return Err(Error::ScheduleAlreadySuspended);
        }
        if self.locations.contains_key(&id) {
            return Err(Error::ScheduleStillPlanned);
        }
        let bond = match self.bonds.get(&id) {
            Some(b) => *b,
            None => 0,
        };
        match outcome {
            ExecutionOutcome::PermanentFailure => {
                proof {
                    lemma_forget_wf(old(self)@, id);
                }
                self.forget(id);
                return Ok(ExecutionAction::Terminated(bond));
            },
            ExecutionOutcome::TransientFailure => {
                self.suspended.insert(id, current);
                proof {
                    assert(self@.planned == old(self)@.planned);
                    lemma_records_wf(old(self)@, self@, id);
                }
                return Ok(ExecutionAction::Suspended);
            },
            ExecutionOutcome::Executed => {},
        }
        match s.recurrence {
            Recurrence::Fixed(_) => {
                let n = match self.remaining.get(&id) {
                    Some(n) => *n,
                    None => 0,
                };
                if n == 1 {
                    proof {
                        lemma_forget_wf(old(self)@, id);
                    }
                    self.forget(id);
                    return Ok(ExecutionAction::Completed(bond));
                }
                self.remaining.insert(id, n - 1);
                proof {
                    assert(self@.planned == old(self)@.planned);
                    assert(self@.remaining.dom() =~= old(self)@.remaining.dom());
                    lemma_records_wf(old(self)@, self@, id);
                }
            },
            Recurrence::Perpetual => {},
        }
        let ghost counted = self@;
        let next = match current.checked_add(s.period) {
            Some(n) => n,
            None => {
                self.suspended.insert(id, current);
                proof {
                    assert(self@.planned == counted.planned);
                    lemma_records_wf(counted, self@, id);
                }
                return Ok(ExecutionAction::Suspended);
            },
        };
        if self.planned_len(next) >= self.max_per_block {
            self.suspended.insert(id, current);
            proof {
                assert(self@.planned == counted.planned);
                lemma_records_wf(counted, self@, id);
            }
            return Ok(ExecutionAction::Suspended);
        }
        proof {
            lemma_enqueue_wf(counted, next, id);
        }
        self.enqueue(next, id);
        Ok(ExecutionAction::Replanned(next))
    }

    /// Runs the order of schedule `id`, taken from the queue of `current`
    /// and neither suspended nor queued again, against `pool`, its owner
    /// holding `who_balance` of the asset it pays in, and records how that
    /// went. Returns the scheduler's action and the trade, when there was
    /// one.
    pub fn execute_schedule(
        &mut self,
        pool: &mut Omnipool,
        id: ScheduleId,
        current: BlockNumber,
        who_balance: Balance,
    ) -> (r: Result<(ExecutionAction, Option<TradeQuote>), Error>)
        requires
            old(self)@.wf(),
            old(pool).wf(),
        ensures
            final(self)@.wf(),
            final(pool).wf(),
            final(self)@.planned_at(current) == old(self)@.planned_at(current),
            forall|k: ScheduleId| k != id ==> {
                &&& (#[trigger] final(self)@.schedules.contains_key(k)) == old(self)@.schedules.contains_key(k)
                &&& final(self)@.suspended.contains_key(k) == old(self)@.suspended.contains_key(k)
                &&& final(self)@.locations.contains_key(k) == old(self)@.locations.contains_key(k)
            },
            !old(self)@.schedules.contains_key(id) ==> r == Err::<
                (ExecutionAction, Option<TradeQuote>),
                Error,
            >(Error::ScheduleNotFound) && final(self)@ == old(self)@ && final(pool).unchanged(
                old(pool),
            ),
            old(self)@.schedules.contains_key(id) && old(self)@.suspended.contains_key(id) ==> r
                == Err::<(ExecutionAction, Option<TradeQuote>), Error>(
                Error::ScheduleAlreadySuspended,
            ) && final(self)@ == old(self)@ && final(pool).unchanged(old(pool)),
            old(self)@.schedules.contains_key(id) && !old(self)@.suspended.contains_key(id)
                && old(self)@.is_queued(id) ==> r == Err::<
                (ExecutionAction, Option<TradeQuote>),
                Error,
            >(Error::ScheduleStillPlanned) && final(self)@ == old(self)@ && final(pool).unchanged(
                old(pool),
            ),
            old(self)@.schedules.contains_key(id) && !old(self)@.suspended.contains_key(id)
                && !old(self)@.is_queued(id) ==> {
                let trade = order_result(old(pool), old(self)@.schedules[id].order, who_balance);
                let outcome = match trade {
                    Ok(_) => ExecutionOutcome::Executed,
                    Err(e) => if is_transient(e) {
                        ExecutionOutcome::TransientFailure
                    } else {
                        ExecutionOutcome::PermanentFailure
                    },
                };
                &&& (trade is Err ==> final(pool).unchanged(old(pool)))
                &&& old(self)@.record_spec(id, current, outcome) matches Ok((a, v))
                &&& final(self)@ == v
                &&& r == Ok::<(ExecutionAction, Option<TradeQuote>), Error>(
                    (
                        a,
                        match trade {
                            Ok(q) => Some(q),
                            Err(_) => None,
                        },
                    ),
                )
            },
    {
        let s = match self.schedules.get(&id) {
            Some(s) => *s,
            None => return Err(Error::ScheduleNotFound),
        };
        if self.suspended.contains_key(&id) {
            return Err(Error::ScheduleAlreadySuspended);
        }
        if self.locations.contains_key(&id) {
            return Err(Error::ScheduleStillPlanned);
        }
        let trade = run_order(pool, s.order, who_balance);
        let outcome = outcome_of(&trade);
        let action = match self.record_execution(id, current, outcome) {
            Ok(a) => a,
            Err(e) => return Err(e),
        };
        match trade {
            Ok(q) => Ok((action, Some(q))),
            Err(_) => Ok((action, None)),
        }
    }

    /// Runs every schedule due at `block`, in queue order, against `pool`.
    /// The owner of the `i`-th due schedule holds `balances[i]` of the asset
    /// its order pays in (nothing where `balances` is shorter). Returns, for
    /// each due schedule in order, its identifier and what became of it; no
    /// schedule is left queued at `block`.
    pub fn on_initialize(&mut self, pool: &mut Omnipool, block: BlockNumber, balances: &Vec<Balance>) -> (r:
        Vec<(ScheduleId, Result<(ExecutionAction, Option<TradeQuote>), Error>)>)
        requires
            old(self)@.wf(),
            old(pool).wf(),
        ensures
            final(self)@.wf(),
            final(pool).wf(),
            r@.len() == old(self)@.planned_at(block).len(),
            forall|i: int| 0 <= i < r@.len() ==> (#[trigger] r@[i]).0 == old(self)@.planned_at(
                block,
            )[i],
            final(self)@.planned_at(block) == Seq::<ScheduleId>::empty(),
    {
        let due = self.take_due(block);
        let mut out: Vec<(ScheduleId, Result<(ExecutionAction, Option<TradeQuote>), Error>)> =
            Vec::new();
        let mut i: usize = 0;
        while i < due.len()
            invariant
                i <= due@.len(),
                self@.wf(),
                pool.wf(),
                due@ == old(self)@.planned_at(block),
                due@.no_duplicates(),
                out@.len() == i,
                forall|j: int| 0 <= j < i ==> (#[trigger] out@[j]).0 == due@[j],
                forall|j: int| i <= j < due@.len() ==> !self@.is_queued(#[trigger] due@[j]),
                self@.planned_at(block) == Seq::<ScheduleId>::empty(),
            decreases due@.len() - i,
        {
            let id = due[i];
            let balance = if i < balances.len() {
                balances[i]
            } else {
                0
            };
            let ghost before = self@;
            let res = self.execute_schedule(pool, id, block, balance);
            proof {
                assert forall|j: int| i + 1 <= j < due@.len() implies !self@.is_queued(
                    #[trigger] due@[j],
                ) by {
                    assert(due@[j] != due@[i as int]);
                    assert(!before.is_queued(due@[j]));
                }
            }
            out.push((id, res));
            i += 1;
        }
        out
    }

    /// Takes schedule `id`, owned by `who`, out of the queue of
    /// `planned_block` and suspends it; the other schedules of that block
    /// keep their order.
    pub fn pause(&mut self, who: AccountId, id: ScheduleId, planned_block: BlockNumber) -> (r: Result<
        (),
        Error,
    >)
        requires
            old(self)@.wf(),
        ensures
            final(self)@.wf(),
            match old(self)@.pause_spec(who, id, planned_block) {
                Ok(v) => r is Ok && final(self)@ == v,
                Err(e) => r == Err::<(), Error>(e) && final(self)@ == old(self)@,
            },
    {
        let s = match self.schedules.get(&id) {
            Some(s) => *s,
            None => return Err(Error::ScheduleNotFound),
        };
        if s.owner != who {
            return Err(Error::NotScheduleOwner);
        }
        if self.suspended.contains_key(&id) {
            return Err(Error::ScheduleAlreadySuspended);
        }
        match self.locations.get(&id) {
            Some(b) => {
                if *b != planned_block {
                    return Err(Error::ScheduleNotPlanned);
                }
            },
            None => return Err(Error::ScheduleNotPlanned),
        }
        self.unqueue(planned_block, id);
        let ghost unqueued = self@;
        self.suspended.insert(id, planned_block);
        proof {
            assert(self@.planned == unqueued.planned);
            let w = self@;
            assert forall|k: ScheduleId| #[trigger] w.locations.contains_key(k) implies {
                &&& w.planned_at(w.locations[k]).contains(k)
                &&& w.schedules.contains_key(k)
                &&& !w.suspended.contains_key(k)
            } by {
                assert(unqueued.locations.contains_key(k));
            }
            assert forall|c: BlockNumber, i: int|
                w.planned.contains_key(c) && 0 <= i < w.planned[c].len() implies w.locations.contains_key(
                #[trigger] w.planned[c][i]) && w.locations[w.planned[c][i]] == c by {
                assert(unqueued.locations.contains_key(unqueued.planned[c][i]));
            }
            assert forall|c: BlockNumber| #[trigger] w.planned.contains_key(c) implies w.planned[c].len()
                <= w.max_per_block && w.planned[c].no_duplicates() by {
                assert(unqueued.planned.contains_key(c));
            }
            lemma_view_wf_rest(unqueued, w);
        }
        Ok(())
    }

    /// Queues the suspended schedule `id`, owned by `who`, last in block
    /// `next`, or in the block after `current` when no block is given.
    pub fn resume(&mut self, who: AccountId, id: ScheduleId, current: BlockNumber, next: Option<
        BlockNumber,
    >) -> (r: Result<(), Error>)
        requires
            old(self)@.wf(),
        ensures
            final(self)@.wf(),
            match old(self)@.resume_spec(who, id, current, next) {
                Ok(v) => r is Ok && final(self)@ == v,
                Err(e) => r == Err::<(), Error>(e) && final(self)@ == old(self)@,
            },
    {
        let s = match self.schedules.get(&id) {
            Some(s) => *s,
            None => return Err(Error::ScheduleNotFound),
        };
        if s.owner != who {
            return Err(Error::NotScheduleOwner);
        }
        if !self.suspended.contains_key(&id) {
            return Err(Error::ScheduleMustBeSuspended);
        }
        let b = match next {
            Some(b) => {
                if b <= current {
                    return Err(Error::BlockNumberIsNotInFuture);
                }
                b
            },
            None => {
                if current == u64::MAX {
                    return Err(Error::Arithmetic(ArithmeticError::Overflow));
                }
                current + 1
            },
        };
        if self.planned_len(b) >= self.max_per_block {
            return Err(Error::TooManyScheduledOrders);
        }
        self.suspended.remove(&id);
        let ghost resumed = self@;
        proof {
            assert(resumed.planned == old(self)@.planned);
            assert(!old(self)@.is_queued(id));
            lemma_records_wf(old(self)@, resumed, id);
        }
        self.enqueue(b, id);
        proof {
            lemma_enqueue_wf(resumed, b, id);
        }
        Ok(())
    }

    /// Ends schedule `id`, taking it out of its queue if it waits in one,
    /// and returns the bond to release.
    pub fn terminate(&mut self, id: ScheduleId) -> (r: Result<Balance, Error>)
        requires
            old(self)@.wf(),
        ensures
            final(self)@.wf(),
            match old(self)@.terminate_spec(id) {
                Ok((bond, v)) => r == Ok::<Balance, Error>(bond) && final(self)@ == v,
                Err(e) => r == Err::<Balance, Error>(e) && final(self)@ == old(self)@,
            },
    {
        if !self.schedules.contains_key(&id) {
            return Err(Error::ScheduleNotFound);
        }
        let bond = match self.bonds.get(&id) {
            Some(b) => *b,
            None => 0,
        };
        match self.locations.get(&id) {
            Some(b) => {
                let b = *b;
                self.unqueue(b, id);
            },
            None => {},
        }
        let ghost dequeued = self@;
        proof {
            lemma_forget_wf(dequeued, id);
        }
        self.forget(id);
        Ok(bond)
    }

    /// Queues `schedule` with `bond` reserved for it, at `start` or else at
    /// the block after `current`, and returns its identifier.
    pub fn schedule(
        &mut self,
        schedule: Schedule,
        bond: Balance,
        current: BlockNumber,
        start: Option<BlockNumber>,
    ) -> (r: Result<ScheduleId, Error>)
        requires
            old(self)@.wf(),
        ensures
            final(self)@.wf(),
            match old(self)@.schedule_spec(schedule, bond, current, start) {
                Ok((id, v)) => r == Ok::<ScheduleId, Error>(id) && final(self)@ == v,
                Err(e) => r == Err::<ScheduleId, Error>(e) && final(self)@ == old(self)@,
            },
    {
        let fixed_zero = match schedule.recurrence {
            Recurrence::Fixed(n) => n == 0,
            Recurrence::Perpetual => false,
        };
        if schedule.period == 0 || fixed_zero {
            return Err(Error::InvalidSchedule);
        }
        let b = match start {
            Some(b) => {
                if b <= current {
                    return Err(Error::BlockNumberIsNotInFuture);
                }
                b
            },
            None => {
                if current == u64::MAX {
                    return Err(Error::Arithmetic(ArithmeticError::Overflow));
                }
                current + 1
            },
        };
        if self.planned_len(b) >= self.max_per_block {
            return Err(Error::TooManyScheduledOrders);
        }
        if self.next_id == u32::MAX {
            return Err(Error::Arithmetic(ArithmeticError::Overflow));
        }
        let id = self.next_id;
        self.schedules.insert(id, schedule);
        match schedule.recurrence {
            Recurrence::Fixed(n) => {
                self.remaining.insert(id, n);
            },
            Recurrence::Perpetual => {},
        }
        self.bonds.insert(id, bond);
        self.next_id = id + 1;
        let ghost added = self@;
        proof {
            let v0 = old(self)@;
            assert(added.planned == v0.planned);
            assert(!v0.schedules.contains_key(id));
            assert(!v0.remaining.contains_key(id));
            assert(!v0.is_queued(id));
            assert(!v0.suspended.contains_key(id) || true);
            assert forall|k: ScheduleId| #[trigger] added.schedules.contains_key(k) implies (
            added.remaining.contains_key(k) <==> added.schedules[k].recurrence is Fixed) by {
                if k != id {
                    assert(v0.schedules.contains_key(k));
                }
            }
            assert forall|k: ScheduleId| #[trigger] added.remaining.contains_key(k) implies added.schedules.contains_key(k)
                && added.remaining[k] > 0 by {
                if k != id {
                    assert(v0.remaining.contains_key(k));
                }
            }
            assert forall|k: ScheduleId| #[trigger] added.schedules.contains_key(k) implies k < added.next_id
                && added.schedules[k].period > 0 by {
                if k != id {
                    assert(v0.schedules.contains_key(k));
                }
            }
            assert forall|c: BlockNumber| #[trigger] added.planned.contains_key(c) implies added.planned[c].len()
                <= added.max_per_block && added.planned[c].no_duplicates() by {
                assert(v0.planned.contains_key(c));
            }
            assert forall|c: BlockNumber, i: int|
                added.planned.contains_key(c) && 0 <= i < added.planned[c].len() implies added.locations.contains_key(
                #[trigger] added.planned[c][i]) && added.locations[added.planned[c][i]] == c by {
                assert(v0.locations.contains_key(v0.planned[c][i]));
            }
            assert forall|k: ScheduleId| #[trigger] added.locations.contains_key(k) implies {
                &&& added.planned_at(added.locations[k]).contains(k)
                &&& added.schedules.contains_key(k)
                &&& !added.suspended.contains_key(k)
            } by {
                assert(v0.locations.contains_key(k));
            }
            assert(!added.suspended.contains_key(id)) by {
                if v0.suspended.contains_key(id) {
                    // suspended schedules are listed ones
                }
            }
            lemma_enqueue_wf(added, b, id);
        }
        self.enqueue(b, id);
        Ok(id)
    }
}

} // verus!
