use omnipool_core::arith::{Percent, Permill, Price};
use omnipool_core::dca::{
    outcome_of, BlockNumber, Error, ExecutionAction, ExecutionOutcome, Order, Recurrence, Schedule, Scheduler,
};
use omnipool_core::omnipool::{self, Config, Omnipool};

const HDX: u32 = 0;
const LRNA: u32 = 1;
const DAI: u32 = 2;
const BTC: u32 = 3;
const PROTOCOL: u64 = 1_000_000;
const LP2: u64 = 2;
const ALICE: u64 = 1000;
const BOB: u64 = 1001;
const ONE: u128 = 1_000_000_000_000;
const NATIVE_AMOUNT: u128 = 10_000 * ONE;
const ONE_HUNDRED_BLOCKS: BlockNumber = 100;

fn pool_with_btc() -> Omnipool {
    let config = Config {
        hub_asset_id: LRNA,
        stable_asset_id: DAI,
        native_asset_id: HDX,
        protocol_account: PROTOCOL,
        asset_fee: Permill::from_percent(0),
        protocol_fee: Permill::from_percent(0),
        min_trading_limit: 0,
        min_pool_liquidity: 0,
        max_in_ratio: 1,
        max_out_ratio: 1,
        withdrawal_fee: Permill::from_percent(0),
    };
    let mut pool = Omnipool::new(config, u128::MAX, Percent::from_percent(100));
    let half = Price::checked_from_rational(1, 2).unwrap();
    let one = Price::checked_from_rational(1, 1).unwrap();
    pool.initialize_pool(half, one, Permill::from_percent(100), Permill::from_percent(100), true, 1000 * ONE, NATIVE_AMOUNT)
        .unwrap();
    let btc_price = Price::checked_from_rational(65, 100).unwrap();
    pool.add_token(BTC, 2000 * ONE, btc_price, Permill::from_percent(100), LP2, true).unwrap();
    pool
}

fn buy_btc_schedule(owner: u64, recurrence: Recurrence) -> Schedule {
    Schedule {
        owner,
        period: ONE_HUNDRED_BLOCKS,
        order: Order::Buy { asset_in: DAI, asset_out: BTC, amount_out: ONE, max_limit: u128::MAX },
        recurrence,
    }
}

fn hdx_schedule(owner: u64) -> Schedule {
    Schedule {
        owner,
        period: ONE_HUNDRED_BLOCKS,
        order: Order::Buy { asset_in: HDX, asset_out: BTC, amount_out: ONE, max_limit: 2 * ONE },
        recurrence: Recurrence::Perpetual,
    }
}

/// Runs every schedule due at `block`, each owner holding `balance` of the
/// asset it pays in; returns what each owner received, in queue order.
fn on_initialize(dca: &mut Scheduler, pool: &mut Omnipool, block: BlockNumber, balance: u128) -> Vec<u128> {
    let due = dca.schedule_ids_per_block(block);
    let balances = vec![balance; due.len()];
    let results = dca.on_initialize(pool, block, &balances);
    assert_eq!(results.iter().map(|r| r.0).collect::<Vec<_>>(), due);
    assert!(dca.schedule_ids_per_block(block).is_empty());
    results.into_iter().map(|(_, r)| r.unwrap().1.map(|q| q.amount_out).unwrap_or(0)).collect()
}

#[test]
fn schedule_is_executed_in_block_when_user_has_fixed_schedule_planned() {
    let mut pool = pool_with_btc();
    let mut dca = Scheduler::new(5);
    assert_eq!(dca.schedule(buy_btc_schedule(ALICE, Recurrence::Fixed(5)), 0, 500, None), Ok(1));

    let received = on_initialize(&mut dca, &mut pool, 501, 10000 * ONE);

    assert_eq!(received, vec![ONE]);
    assert_eq!(dca.remaining_recurrences(1).unwrap(), 4);
    assert_eq!(dca.schedule_ids_per_block(601), vec![1]);
}

#[test]
fn schedule_is_planned_with_period_when_block_has_already_planned_schedule() {
    let mut pool = pool_with_btc();
    let mut dca = Scheduler::new(5);
    assert_eq!(dca.schedule(buy_btc_schedule(ALICE, Recurrence::Fixed(5)), 0, 0, Some(601)), Ok(1));
    assert_eq!(dca.schedule(buy_btc_schedule(ALICE, Recurrence::Fixed(5)), 0, 500, None), Ok(2));

    on_initialize(&mut dca, &mut pool, 501, 10000 * ONE);

    assert_eq!(dca.schedule_ids_per_block(601), vec![1, 2]);
}

#[test]
fn schedule_is_suspended_in_block_when_error_happens() {
    let mut pool = pool_with_btc();
    let mut dca = Scheduler::new(5);
    assert_eq!(dca.schedule(buy_btc_schedule(ALICE, Recurrence::Fixed(5)), 0, 500, None), Ok(1));

    let received = on_initialize(&mut dca, &mut pool, 501, 0);

    assert_eq!(received, vec![0]);
    assert_eq!(dca.remaining_recurrences(1).unwrap(), 5);
    assert_eq!(dca.suspended(1), Some(501));
}

#[test]
fn schedule_is_executed_in_block_when_user_has_perpetual_schedule_planned() {
    let mut pool = pool_with_btc();
    let mut dca = Scheduler::new(5);
    assert_eq!(dca.schedule(buy_btc_schedule(ALICE, Recurrence::Perpetual), 0, 500, None), Ok(1));

    let received = on_initialize(&mut dca, &mut pool, 501, 10000 * ONE);

    assert_eq!(received, vec![ONE]);
    assert_eq!(dca.remaining_recurrences(1), None);
    assert_eq!(dca.schedule_ids_per_block(601), vec![1]);
}

#[test]
fn resume_should_fail_when_called_by_non_owner() {
    let mut dca = Scheduler::new(5);
    dca.schedule(hdx_schedule(ALICE), 0, 500, None).unwrap();
    assert_eq!(dca.pause(ALICE, 1, 501), Ok(()));
    assert_eq!(dca.resume(BOB, 1, 500, None), Err(Error::NotScheduleOwner));
}

#[test]
fn resume_should_schedule_to_next_block_when_next_execution_block_is_not_defined() {
    let mut dca = Scheduler::new(5);
    dca.schedule(hdx_schedule(ALICE), 0, 500, None).unwrap();
    assert_eq!(dca.pause(ALICE, 1, 501), Ok(()));
    assert_eq!(dca.resume(ALICE, 1, 500, None), Ok(()));
    assert_eq!(dca.schedule_ids_per_block(501), vec![1]);
}

#[test]
fn resume_should_schedule_to_next_block_when_there_is_already_existing_schedule_in_next_block() {
    let mut dca = Scheduler::new(5);
    dca.schedule(hdx_schedule(ALICE), 0, 500, None).unwrap();
    dca.schedule(hdx_schedule(BOB), 0, 500, None).unwrap();
    assert_eq!(dca.schedule_ids_per_block(501), vec![1, 2]);

    assert_eq!(dca.pause(ALICE, 1, 501), Ok(()));
    assert_eq!(dca.schedule_ids_per_block(501), vec![2]);

    assert_eq!(dca.resume(ALICE, 1, 500, None), Ok(()));
    assert_eq!(dca.schedule_ids_per_block(501), vec![2, 1]);
}

#[test]
fn resume_should_fail_when_specified_next_block_is_not_greater_than_current_block() {
    for block in [1u64, 499, 500, 501] {
        let mut dca = Scheduler::new(5);
        dca.schedule(hdx_schedule(ALICE), 0, 500, None).unwrap();
        assert_eq!(dca.pause(ALICE, 1, 501), Ok(()));
        assert_eq!(dca.resume(ALICE, 1, 501, Some(block)), Err(Error::BlockNumberIsNotInFuture));
    }
}

#[test]
fn resume_should_schedule_to_next_block_when_next_execution_block_is_defined() {
    let mut dca = Scheduler::new(5);
    dca.schedule(hdx_schedule(ALICE), 0, 500, None).unwrap();
    assert_eq!(dca.pause(ALICE, 1, 501), Ok(()));
    assert_eq!(dca.resume(ALICE, 1, 500, Some(1000)), Ok(()));
    assert_eq!(dca.schedule_ids_per_block(1000), vec![1]);
}

#[test]
fn resume_should_schedule_to_next_block_when_there_is_already_existing_schedule_in_next_block_and_next_block_is_specified(
) {
    let mut dca = Scheduler::new(5);
    dca.schedule(hdx_schedule(ALICE), 0, 500, None).unwrap();
    dca.schedule(hdx_schedule(BOB), 0, 500, Some(1000)).unwrap();
    assert_eq!(dca.pause(ALICE, 1, 501), Ok(()));
    assert_eq!(dca.resume(ALICE, 1, 500, Some(1000)), Ok(()));
    assert_eq!(dca.schedule_ids_per_block(1000), vec![2, 1]);
}

#[test]
fn resume_should_schedule_remove_schedule_from_suspended() {
    let mut dca = Scheduler::new(5);
    dca.schedule(hdx_schedule(ALICE), 0, 500, None).unwrap();
    assert_eq!(dca.pause(ALICE, 1, 501), Ok(()));
    assert!(dca.suspended(1).is_some());
    assert_eq!(dca.resume(ALICE, 1, 500, None), Ok(()));
    assert!(dca.suspended(1).is_none());
}

#[test]
fn resume_should_fail_when_schedule_is_not_suspended() {
    let mut dca = Scheduler::new(5);
    dca.schedule(hdx_schedule(ALICE), 0, 500, None).unwrap();
    assert_eq!(dca.resume(ALICE, 1, 500, None), Err(Error::ScheduleMustBeSuspended));
}

#[test]
fn fixed_schedule_counts_down_and_is_removed_after_last_execution() {
    let mut pool = pool_with_btc();
    let mut dca = Scheduler::new(5);
    dca.schedule(buy_btc_schedule(ALICE, Recurrence::Fixed(3)), 7, 500, None).unwrap();
    let mut block: BlockNumber = 501;
    for left in [2u32, 1] {
        assert_eq!(dca.take_due(block), vec![1]);
        let (action, _) = dca.execute_schedule(&mut pool, 1, block, 10000 * ONE).unwrap();
        block += ONE_HUNDRED_BLOCKS;
        assert_eq!(action, ExecutionAction::Replanned(block));
        assert_eq!(dca.remaining_recurrences(1), Some(left));
    }
    assert_eq!(dca.take_due(block), vec![1]);
    let (action, _) = dca.execute_schedule(&mut pool, 1, block, 10000 * ONE).unwrap();
    assert_eq!(action, ExecutionAction::Completed(7));
    assert_eq!(dca.schedules(1), None);
    assert_eq!(dca.remaining_recurrences(1), None);
    assert_eq!(dca.bond(1), None);
    assert_eq!(dca.suspended(1), None);
    assert!(dca.schedule_ids_per_block(block + ONE_HUNDRED_BLOCKS).is_empty());
}

#[test]
fn permanent_failure_terminates_schedule() {
    let mut pool = pool_with_btc();
    let mut dca = Scheduler::new(5);
    let schedule = Schedule {
        owner: ALICE,
        period: ONE_HUNDRED_BLOCKS,
        order: Order::Sell { asset_in: DAI, asset_out: 4242, amount_in: ONE, min_limit: 0 },
        recurrence: Recurrence::Perpetual,
    };
    dca.schedule(schedule, 9, 500, None).unwrap();
    assert_eq!(dca.take_due(501), vec![1]);
    let (action, trade) = dca.execute_schedule(&mut pool, 1, 501, 10000 * ONE).unwrap();
    assert_eq!(action, ExecutionAction::Terminated(9));
    assert_eq!(trade, None);
    assert_eq!(dca.schedules(1), None);
}

#[test]
fn failures_are_classified_by_cause() {
    assert_eq!(outcome_of(&Err(omnipool::Error::InsufficientBalance)), ExecutionOutcome::TransientFailure);
    assert_eq!(outcome_of(&Err(omnipool::Error::BuyLimitNotReached)), ExecutionOutcome::TransientFailure);
    assert_eq!(outcome_of(&Err(omnipool::Error::AssetNotFound)), ExecutionOutcome::PermanentFailure);
    assert_eq!(outcome_of(&Err(omnipool::Error::NotAllowed)), ExecutionOutcome::PermanentFailure);
}

#[test]
fn full_block_refuses_more_schedules() {
    let mut dca = Scheduler::new(2);
    dca.schedule(hdx_schedule(ALICE), 0, 500, None).unwrap();
    dca.schedule(hdx_schedule(ALICE), 0, 500, None).unwrap();
    assert_eq!(dca.schedule(hdx_schedule(ALICE), 0, 500, None), Err(Error::TooManyScheduledOrders));
    assert_eq!(dca.schedule_ids_per_block(501), vec![1, 2]);
}

#[test]
fn schedule_rejects_past_start_and_empty_schedules() {
    let mut dca = Scheduler::new(2);
    assert_eq!(dca.schedule(hdx_schedule(ALICE), 0, 500, Some(500)), Err(Error::BlockNumberIsNotInFuture));
    let mut s = hdx_schedule(ALICE);
    s.period = 0;
    assert_eq!(dca.schedule(s, 0, 500, None), Err(Error::InvalidSchedule));
    assert_eq!(dca.schedule(buy_btc_schedule(ALICE, Recurrence::Fixed(0)), 0, 500, None), Err(Error::InvalidSchedule));
}

#[test]
fn pause_checks_owner_and_queue() {
    let mut dca = Scheduler::new(5);
    dca.schedule(hdx_schedule(ALICE), 0, 500, None).unwrap();
    assert_eq!(dca.pause(BOB, 1, 501), Err(Error::NotScheduleOwner));
    assert_eq!(dca.pause(ALICE, 1, 502), Err(Error::ScheduleNotPlanned));
    assert_eq!(dca.pause(ALICE, 2, 501), Err(Error::ScheduleNotFound));
    assert_eq!(dca.pause(ALICE, 1, 501), Ok(()));
    assert_eq!(dca.pause(ALICE, 1, 501), Err(Error::ScheduleAlreadySuspended));
}

#[test]
fn terminate_removes_schedule_from_its_block() {
    let mut dca = Scheduler::new(5);
    dca.schedule(hdx_schedule(ALICE), 3, 500, None).unwrap();
    dca.schedule(hdx_schedule(BOB), 4, 500, None).unwrap();
    assert_eq!(dca.terminate(1), Ok(3));
    assert_eq!(dca.schedule_ids_per_block(501), vec![2]);
    assert_eq!(dca.schedules(1), None);
    assert_eq!(dca.terminate(1), Err(Error::ScheduleNotFound));
}

#[test]
fn schedule_at_the_last_block_overflows() {
    let mut dca = Scheduler::new(5);
    assert_eq!(
        dca.schedule(hdx_schedule(ALICE), 0, u64::MAX, None),
        Err(Error::Arithmetic(omnipool_core::arith::ArithmeticError::Overflow))
    );
}

#[test]
fn suspended_schedule_is_not_executed() {
    let mut pool = pool_with_btc();
    let mut dca = Scheduler::new(5);
    dca.schedule(buy_btc_schedule(ALICE, Recurrence::Fixed(5)), 0, 500, None).unwrap();
    assert_eq!(dca.pause(ALICE, 1, 501), Ok(()));
    let before = pool.asset_state(BTC);
    assert_eq!(dca.execute_schedule(&mut pool, 1, 501, 10000 * ONE), Err(Error::ScheduleAlreadySuspended));
    assert_eq!(pool.asset_state(BTC), before);
    assert_eq!(dca.remaining_recurrences(1), Some(5));
}

#[test]
fn queued_schedule_cannot_be_run_before_it_is_taken() {
    let mut pool = pool_with_btc();
    let mut dca = Scheduler::new(5);
    dca.schedule(buy_btc_schedule(ALICE, Recurrence::Fixed(5)), 0, 500, None).unwrap();
    assert_eq!(dca.location(1), Some(501));
    assert_eq!(dca.execute_schedule(&mut pool, 1, 501, 10000 * ONE), Err(Error::ScheduleStillPlanned));
    assert_eq!(dca.take_due(501), vec![1]);
    assert_eq!(dca.location(1), None);
    assert!(dca.execute_schedule(&mut pool, 1, 501, 10000 * ONE).is_ok());
    assert_eq!(dca.location(1), Some(601));
}

#[test]
fn block_driver_runs_due_schedules_in_queue_order() {
    let mut pool = pool_with_btc();
    let mut dca = Scheduler::new(5);
    dca.schedule(buy_btc_schedule(ALICE, Recurrence::Fixed(1)), 4, 500, None).unwrap();
    dca.schedule(buy_btc_schedule(BOB, Recurrence::Perpetual), 5, 500, None).unwrap();
    let results = dca.on_initialize(&mut pool, 501, &vec![10000 * ONE, 0]);
    assert_eq!(results.len(), 2);
    assert_eq!(results[0].0, 1);
    assert_eq!(results[0].1.unwrap().0, ExecutionAction::Completed(4));
    assert_eq!(results[1].0, 2);
    assert_eq!(results[1].1, Ok((ExecutionAction::Suspended, None)));
    assert!(dca.schedule_ids_per_block(501).is_empty());
    assert_eq!(dca.schedules(1), None);
    assert_eq!(dca.location(1), None);
    assert_eq!(dca.suspended(2), Some(501));
}
