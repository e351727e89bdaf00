use cronos::address::Address;
use cronos::cache::{Bucket, CacheEntry, Filter, Notification, TaskCache};
use cronos::config::Config;
use cronos::cron;
use cronos::errors::CronosError;
use cronos::instruction::{AccountMeta, Instruction, ADMIN_TASK_CANCEL_TAG};
use cronos::scheduler::{Daemon, Task, TaskStatus, TASK_PAYLOAD_LIMIT};

fn addr(n: u64) -> Address {
    Address { lo: n as u128, hi: 0 }
}

fn fresh_daemon(owner: Address) -> Daemon {
    let mut d = Daemon { owner: addr(0), bump: 0, task_count: 0 };
    d.new(owner, 250).unwrap();
    d
}

fn test_config() -> Config {
    Config {
        admin: addr(1),
        bump: 251,
        node_fee: 3,
        program_fee: 2,
        registry_address: addr(2),
    }
}

#[test]
fn civil_parts_epoch_and_leap_day() {
    // 1970-01-01T00:00:00 was a Thursday
    assert_eq!(cron::civil_parts(0), (0, 0, 0, 1, 1, 4, 1970));
    // 2000-02-29T00:00:00 was a Tuesday in a leap year
    assert_eq!(cron::civil_parts(951782400), (0, 0, 0, 29, 2, 2, 2000));
    // 2000-02-29T13:37:59
    assert_eq!(cron::civil_parts(951831479), (59, 37, 13, 29, 2, 2, 2000));
}

#[test]
fn parse_schedule_fields() {
    let s = cron::parse_schedule_str("*/15 30 12 1-7 6 0 2026").unwrap();
    assert_eq!((s.sec.lo, s.sec.hi, s.sec.step), (0, 59, 15));
    assert_eq!((s.min.lo, s.min.hi, s.min.step), (30, 30, 1));
    assert_eq!((s.hour.lo, s.hour.hi, s.hour.step), (12, 12, 1));
    assert_eq!((s.dom.lo, s.dom.hi, s.dom.step), (1, 7, 1));
    assert_eq!((s.month.lo, s.month.hi, s.month.step), (6, 6, 1));
    assert_eq!((s.dow.lo, s.dow.hi, s.dow.step), (0, 0, 1));
    assert_eq!((s.year.lo, s.year.hi, s.year.step), (2026, 2026, 1));
    // six fields leave the year unrestricted
    let s6 = cron::parse_schedule_str("* * * * * *").unwrap();
    assert_eq!((s6.year.lo, s6.year.hi, s6.year.step), (1970, 9999, 1));
    // rejected expressions
    assert_eq!(
        cron::parse_schedule_str("* * * * *"),
        Err(CronosError::ScheduleInvalid)
    );
    assert_eq!(
        cron::parse_schedule_str("61 * * * * *"),
        Err(CronosError::ScheduleInvalid)
    );
    assert_eq!(
        cron::parse_schedule_str("not a cron line at all"),
        Err(CronosError::ScheduleInvalid)
    );
    assert_eq!(
        cron::parse_schedule_str("*/0 * * * * *"),
        Err(CronosError::ScheduleInvalid)
    );
}

#[test]
fn next_occurrence_every_second_and_hourly() {
    let every = cron::parse_schedule_str("* * * * * * *").unwrap();
    assert_eq!(cron::next_occurrence(&every, 1000, 10_000), Some(1000));
    let hourly = cron::parse_schedule_str("0 0 * * * *").unwrap();
    // from one second past the hour, the next firing is the next boundary
    assert_eq!(cron::next_occurrence(&hourly, 3601, 10_000), Some(7200));
    assert_eq!(cron::next_occurrence(&hourly, 7200, 10_000), Some(7200));
    // a schedule that never fires inside the window
    let y1970 = cron::parse_schedule_str("0 0 0 1 1 * 1971").unwrap();
    assert_eq!(cron::next_occurrence(&y1970, 0, 1000), None);
}

#[test]
fn task_dueness() {
    let config = test_config();
    let mut daemon = fresh_daemon(addr(5));
    // every-second schedule: due immediately at creation time
    let (mut task, mut fee) =
        cronos::scheduler::task_new(&mut daemon, addr(10), addr(11), &config, vec![], "* * * * * * *", 1000)
            .unwrap();
    assert_eq!(task.next_due, 1000);
    assert_eq!(daemon.task_count, 1);
    assert_eq!(fee.balance, 5);
    task.exec(&mut fee, &config, 1000).unwrap();
    // top-of-hour schedule created off the boundary is not due until it
    let (mut task, mut fee) =
        cronos::scheduler::task_new(&mut daemon, addr(10), addr(12), &config, vec![], "0 0 * * * *", 3601)
            .unwrap();
    assert_eq!(task.next_due, 7200);
    assert_eq!(task.id, 1);
    assert_eq!(
        task.exec(&mut fee, &config, 3601),
        Err(CronosError::TaskNotDue)
    );
    assert_eq!(
        task.exec(&mut fee, &config, 7199),
        Err(CronosError::TaskNotDue)
    );
    let payout = task.exec(&mut fee, &config, 7200).unwrap();
    assert_eq!(payout.node_amount, 3);
    assert_eq!(payout.program_amount, 2);
    assert_eq!(fee.balance, 0);
}

#[test]
fn no_drift_accumulation() {
    let config = test_config();
    let mut daemon = fresh_daemon(addr(5));
    let (mut task, mut fee) =
        cronos::scheduler::task_new(&mut daemon, addr(10), addr(11), &config, vec![], "* * * * * *", 1000)
            .unwrap();
    assert_eq!(task.next_due, 1000);
    // a late execution at T0+5 reschedules from the execution time,
    // not from the originally due second
    task.exec(&mut fee, &config, 1005).unwrap();
    assert_eq!(task.next_due, 1006);
    assert_ne!(task.next_due, 1001);
}

#[test]
fn task_new_rejections() {
    let config = test_config();
    let mut daemon = fresh_daemon(addr(5));
    let ix = Instruction { program_id: addr(7), accounts: vec![], data: vec![] };
    let mut payload = Vec::new();
    for _ in 0..(TASK_PAYLOAD_LIMIT + 1) {
        payload.push(ix.clone());
    }
    assert!(matches!(
        cronos::scheduler::task_new(&mut daemon, addr(10), addr(11), &config, payload, "* * * * * *", 0),
        Err(CronosError::PayloadTooLarge)
    ));
    assert!(matches!(
        cronos::scheduler::task_new(&mut daemon, addr(10), addr(11), &config, vec![], "bad", 0),
        Err(CronosError::ScheduleInvalid)
    ));
    assert_eq!(daemon.task_count, 0);
}

#[test]
fn insufficient_fee_and_cancel() {
    let config = test_config();
    let mut daemon = fresh_daemon(addr(5));
    let (mut task, mut fee) =
        cronos::scheduler::task_new(&mut daemon, addr(10), addr(11), &config, vec![], "* * * * * *", 0)
            .unwrap();
    assert_eq!(fee.balance, 5);
    task.exec(&mut fee, &config, 0).unwrap();
    // the escrow covered exactly one execution
    assert_eq!(
        task.exec(&mut fee, &config, 10),
        Err(CronosError::InsufficientFee)
    );
    // owner-gated cancel
    assert_eq!(
        task.cancel(&mut fee, addr(99), &daemon),
        Err(CronosError::NotAuthorizedOwner)
    );
    assert!(matches!(task.status, TaskStatus::Scheduled));
    let refund = task.cancel(&mut fee, addr(5), &daemon).unwrap();
    assert_eq!(refund, 0);
    assert!(matches!(task.status, TaskStatus::Cancelled));
    // a cancelled task is never due
    assert_eq!(
        task.exec(&mut fee, &config, 1_000_000),
        Err(CronosError::TaskNotDue)
    );
}

#[test]
fn admin_cancel_refunds() {
    let config = test_config();
    let mut daemon = fresh_daemon(addr(5));
    let (mut task, mut fee) =
        cronos::scheduler::task_new(&mut daemon, addr(10), addr(11), &config, vec![], "* * * * * *", 0)
            .unwrap();
    assert_eq!(
        task.admin_cancel(&mut fee, addr(42), &config),
        Err(CronosError::NotAuthorizedAdmin)
    );
    let refund = task.admin_cancel(&mut fee, addr(1), &config).unwrap();
    assert_eq!(refund, 5);
    assert_eq!(fee.balance, 0);
    assert!(matches!(task.status, TaskStatus::Cancelled));
}

fn sample_task(next_due: u64) -> Task {
    Task {
        daemon: addr(10),
        id: 0,
        payload: vec![],
        schedule: b"* * * * * *".to_vec(),
        next_due,
        status: TaskStatus::Scheduled,
    }
}

fn notif(a: Address, owner: Address, version: u64, next_due: u64) -> Notification {
    Notification { address: a, owner, version, record: sample_task(next_due) }
}

#[test]
fn cache_dedup() {
    let program = addr(77);
    let filter = Filter { program };
    // versions 5 then 3: the stale one is discarded
    let mut cache = TaskCache::new();
    assert!(cache.observe(&filter, notif(addr(1), program, 5, 500)));
    assert!(!cache.observe(&filter, notif(addr(1), program, 3, 300)));
    let e: &CacheEntry = cache.get(addr(1)).unwrap();
    assert_eq!(e.version, 5);
    assert_eq!(e.task.next_due, 500);
    // versions 3 then 5: the newer one wins
    let mut cache = TaskCache::new();
    assert!(cache.observe(&filter, notif(addr(1), program, 3, 300)));
    assert!(cache.observe(&filter, notif(addr(1), program, 5, 500)));
    let e = cache.get(addr(1)).unwrap();
    assert_eq!(e.version, 5);
    assert_eq!(e.task.next_due, 500);
    // a duplicate of the same version is discarded as well
    assert!(!cache.observe(&filter, notif(addr(1), program, 5, 999)));
    assert_eq!(cache.get(addr(1)).unwrap().task.next_due, 500);
    // an irrelevant notification (foreign program) changes nothing
    assert!(!cache.observe(&filter, notif(addr(2), addr(78), 9, 900)));
    assert!(cache.get(addr(2)).is_none());
}

#[test]
fn at_most_one_in_flight() {
    let program = addr(77);
    let filter = Filter { program };
    let mut cache = TaskCache::new();
    cache.observe(&filter, notif(addr(1), program, 1, 100));
    let mut bucket = Bucket::new(30);
    // two due evaluations before the first dispatch resolves: one submission
    let first = cronos::cache::dispatch_due(&cache, &mut bucket, 100);
    assert_eq!(first, vec![addr(1)]);
    let second = cronos::cache::dispatch_due(&cache, &mut bucket, 101);
    assert!(second.is_empty());
    // after the timeout with no confirmation the task is eligible again
    let third = cronos::cache::dispatch_due(&cache, &mut bucket, 130);
    assert_eq!(third, vec![addr(1)]);
    // a resolved submission clears the mark immediately
    assert!(bucket.release(addr(1)));
    assert!(!bucket.release(addr(1)));
    let fourth = cronos::cache::dispatch_due(&cache, &mut bucket, 131);
    assert_eq!(fourth, vec![addr(1)]);
    // a task that is not due is never dispatched
    let mut bucket2 = Bucket::new(30);
    let none = cronos::cache::dispatch_due(&cache, &mut bucket2, 99);
    assert!(none.is_empty());
}

#[test]
fn sweep_clears_only_stale_marks() {
    let mut bucket = Bucket::new(30);
    assert!(bucket.try_acquire(addr(1), 100));
    assert!(bucket.try_acquire(addr(2), 120));
    // at 131, the mark from 100 is stale, the one from 120 still live
    bucket.sweep(131);
    assert!(bucket.try_acquire(addr(1), 131));
    assert!(!bucket.try_acquire(addr(2), 131));
}

#[test]
fn cancelled_task_not_dispatched() {
    let program = addr(77);
    let filter = Filter { program };
    let mut cache = TaskCache::new();
    let mut n = notif(addr(1), program, 1, 100);
    n.record.status = TaskStatus::Cancelled;
    cache.observe(&filter, n);
    let mut bucket = Bucket::new(30);
    assert!(cronos::cache::dispatch_due(&cache, &mut bucket, 1000).is_empty());
}

#[test]
fn admin_task_cancel_instruction() {
    let ix = cronos::instruction::admin_task_cancel(addr(1), addr(2), addr(3), addr(4));
    assert_eq!(ix.program_id, addr(1));
    assert_eq!(
        ix.accounts,
        vec![
            AccountMeta { pubkey: addr(2), is_signer: true, is_writable: true },
            AccountMeta { pubkey: addr(3), is_signer: false, is_writable: false },
            AccountMeta { pubkey: addr(4), is_signer: false, is_writable: true },
        ]
    );
    assert_eq!(ix.data, vec![ADMIN_TASK_CANCEL_TAG]);
}

fn address_to_pubkey(a: &Address) -> solana_sdk::pubkey::Pubkey {
    let mut b = [0u8; 32];
    b[0..16].copy_from_slice(&a.lo.to_le_bytes());
    b[16..32].copy_from_slice(&a.hi.to_le_bytes());
    solana_sdk::pubkey::Pubkey::new_from_array(b)
}

fn pubkey_to_address(k: &solana_sdk::pubkey::Pubkey) -> Address {
    let b = k.to_bytes();
    Address {
        lo: u128::from_le_bytes(b[0..16].try_into().unwrap()),
        hi: u128::from_le_bytes(b[16..32].try_into().unwrap()),
    }
}

#[test]
fn daemon_and_task_pda_match_ledger_derivation() {
    let program = addr(42);
    let owner = addr(77777);
    let program_pk = address_to_pubkey(&program);
    let (daemon, daemon_bump) = Daemon::pda(&program, owner).unwrap();
    let owner_bytes = address_to_pubkey(&owner).to_bytes();
    let (expected, expected_bump) = solana_sdk::pubkey::Pubkey::find_program_address(
        &[b"daemon", &owner_bytes],
        &program_pk,
    );
    assert_eq!(daemon, pubkey_to_address(&expected));
    assert_eq!(daemon_bump, expected_bump);
    let id: u64 = 3;
    let (task, task_bump) = Task::pda(&program, daemon, id).unwrap();
    let daemon_bytes = address_to_pubkey(&daemon).to_bytes();
    let (expected, expected_bump) = solana_sdk::pubkey::Pubkey::find_program_address(
        &[b"task", &daemon_bytes, &id.to_le_bytes()],
        &program_pk,
    );
    assert_eq!(task, pubkey_to_address(&expected));
    assert_eq!(task_bump, expected_bump);
    let (fee, _) = cronos::scheduler::Fee::pda(&program, task).unwrap();
    assert_ne!(fee, task);
}

#[test]
fn pda_matches_ledger_derivation() {
    let program = addr(123456789);
    let (derived, bump) = cronos::registry::Registry::pda(&program).unwrap();
    let (expected, expected_bump) = solana_sdk::pubkey::Pubkey::find_program_address(
        &[b"registry"],
        &address_to_pubkey(&program),
    );
    assert_eq!(derived, pubkey_to_address(&expected));
    assert_eq!(bump, expected_bump);
    // a different seed yields a different address
    let (config_addr, _) = cronos::config::Config::pda(&program).unwrap();
    assert_ne!(derived, config_addr);
    // derivation is reproducible
    assert_eq!(cronos::registry::Registry::pda(&program).unwrap(), (derived, bump));
}
