use vstd::prelude::*;
use vstd::string::StringSliceAdditionalSpecFns;

use crate::address::{
    address_seed, address_seed_bytes, derive_address, index_seed, index_seed_bytes, pda_of,
    Address,
};
use crate::config::Config;
use crate::cron;
use crate::cron::Schedule;
use crate::errors::CronosError;
use crate::instruction::Instruction;

verus! {

/// Most sub-instructions one task payload may carry.
pub const TASK_PAYLOAD_LIMIT: usize = 32;

/// How far ahead (in seconds) the due-time search looks: four years, so
/// that even a schedule firing only on February 29 is found.
pub const DUE_HORIZON: u64 = 126230400;

/// A per-owner container of tasks.
#[derive(Clone, Copy, Debug, PartialEq, Eq, Structural)]
pub struct Daemon {
    pub owner: Address,
    pub bump: u8,
    pub task_count: u64,
}

/// Forward-only execution state of a task: a scheduled task re-enters
/// `Scheduled` after each execution; a cancelled one never runs again.
#[derive(Clone, Copy, Debug, PartialEq, Eq, Structural)]
pub enum TaskStatus {
    Cancelled,
    Scheduled,
}

/// A schedulable unit of work: an instruction payload, the cron expression
/// held verbatim as UTF-8 bytes, and the next time it is due. Payload and
/// schedule are immutable after creation; only `status` and `next_due`
/// advance.
#[derive(Clone, Debug)]
pub struct Task {
    pub daemon: Address,
    pub id: u64,
    pub payload: Vec<Instruction>,
    pub schedule: Vec<u8>,
    pub next_due: u64,
    pub status: TaskStatus,
}

/// The fee escrowed for a task's executions, depleted on execution and
/// refunded on cancellation.
#[derive(Clone, Copy, Debug, PartialEq, Eq, Structural)]
pub struct Fee {
    pub task: Address,
    pub balance: u64,
}

/// What a successful execution pays out: the node's share and the target
/// program's share.
#[derive(Clone, Copy, Debug, PartialEq, Eq, Structural)]
pub struct FeePayout {
    pub node_amount: u64,
    pub program_amount: u64,
}

/// The seed components that locate an owner's daemon record.
pub open spec fn daemon_seeds(owner: Address) -> Seq<Seq<u8>> {
    seq!["daemon".spec_bytes(), address_seed(owner)]
}

/// The seed components that locate task `id` of a daemon.
pub open spec fn task_seeds(daemon: Address, id: u64) -> Seq<Seq<u8>> {
    seq!["task".spec_bytes(), address_seed(daemon), index_seed(id)]
}

/// The seed components that locate a task's fee escrow.
pub open spec fn fee_seeds(task: Address) -> Seq<Seq<u8>> {
    seq!["fee".spec_bytes(), address_seed(task)]
}

impl Daemon {
    /// The canonical storage address of `owner`'s daemon record under
    /// `program`, with its bump.
    pub fn pda(program: &Address, owner: Address) -> (r: Result<(Address, u8), CronosError>)
        ensures
            r matches Ok(p) ==> pda_of(daemon_seeds(owner), *program) == Some(p),
            r matches Err(e) ==> pda_of(daemon_seeds(owner), *program) is None && e
                == CronosError::AddressSpaceExhausted,
    {
        let mut seeds: Vec<Vec<u8>> = Vec::new();
        seeds.push(vstd::slice::slice_to_vec("daemon".as_bytes()));
        seeds.push(address_seed_bytes(&owner));
        proof {
            assert(seeds.deep_view() =~~= daemon_seeds(owner));
        }
        derive_address(seeds, program)
    }

    /// Initialize the daemon record for `owner` with no tasks yet.
    pub fn new(&mut self, owner: Address, bump: u8) -> (r: Result<(), CronosError>)
        ensures
            old(self).bump != 0 ==> r == Err::<(), CronosError>(
                CronosError::AccountAlreadyInitialized,
            ) && *final(self) == *old(self),
            old(self).bump == 0 ==> r is Ok && *final(self) == (Daemon {
                owner,
                bump,
                task_count: 0,
            }),
    {
        if self.bump != 0 {
            return Err(CronosError::AccountAlreadyInitialized);
        }
        self.owner = owner;
        self.bump = bump;
        self.task_count = 0;
        Ok(())
    }
}

/// Whether `t` is the schedule's earliest firing at or after `from`,
/// within the bounded search window.
pub open spec fn first_due(s: Schedule, from: u64, t: u64) -> bool {
    &&& from <= t <= cron::search_end(from, DUE_HORIZON)
    &&& cron::sched_matches(s, t)
    &&& forall|u: u64| from <= u < t ==> !cron::sched_matches(s, u)
}

impl Fee {
    /// The canonical storage address of a task's fee escrow under
    /// `program`, with its bump.
    pub fn pda(program: &Address, task: Address) -> (r: Result<(Address, u8), CronosError>)
        ensures
            r matches Ok(p) ==> pda_of(fee_seeds(task), *program) == Some(p),
            r matches Err(e) ==> pda_of(fee_seeds(task), *program) is None && e
                == CronosError::AddressSpaceExhausted,
    {
        let mut seeds: Vec<Vec<u8>> = Vec::new();
        seeds.push(vstd::slice::slice_to_vec("fee".as_bytes()));
        seeds.push(address_seed_bytes(&task));
        proof {
            assert(seeds.deep_view() =~~= fee_seeds(task));
        }
        derive_address(seeds, program)
    }
}

/// Law (immediate due-ness): against the every-second schedule the first
/// firing at or after any time is that time itself — a task created then
/// is due at once, and a late execution at time `e` reschedules to `e + 1`
/// rather than catching up on missed seconds.
pub proof fn lemma_every_second_due_now(from: u64)
    requires
        cron::spec_year(from) <= cron::YEAR_MAX,
    ensures
        first_due(cron::wildcard_schedule(), from, from),
{
    cron::lemma_wildcard_matches(from);
}

/// Create a task under `daemon`, due for the first time at the schedule's
/// first firing at or after `now`, with its execution fee escrowed from
/// the configured rates.
///
/// Fails with `PayloadTooLarge` when the payload exceeds
/// `TASK_PAYLOAD_LIMIT` sub-instructions, and with `ScheduleInvalid` when
/// the expression does not parse or never fires within the search window.
/// On success the daemon's `task_count` grows by one and the new task
/// carries the previous count as its id; on error the daemon is unchanged.
pub fn task_new(
    daemon: &mut Daemon,
    daemon_address: Address,
    task_address: Address,
    config: &Config,
    payload: Vec<Instruction>,
    schedule: &str,
    now: u64,
) -> (r: Result<(Task, Fee), CronosError>)
    requires
        old(daemon).task_count < u64::MAX,
        config.node_fee + config.program_fee <= u64::MAX,
    ensures
        r is Err ==> *final(daemon) == *old(daemon),
        payload@.len() > TASK_PAYLOAD_LIMIT ==> r == Err::<(Task, Fee), CronosError>(
            CronosError::PayloadTooLarge,
        ),
        (payload@.len() <= TASK_PAYLOAD_LIMIT && (forall|c: Schedule|
            !cron::schedule_from(schedule.spec_bytes(), c))) ==> r == Err::<
            (Task, Fee),
            CronosError,
        >(CronosError::ScheduleInvalid),
        r matches Err(e) ==> (e == CronosError::PayloadTooLarge || e
            == CronosError::ScheduleInvalid),
        (payload@.len() <= TASK_PAYLOAD_LIMIT && (exists|c: Schedule|
            cron::schedule_from(schedule.spec_bytes(), c) && (exists|u: u64|
                now <= u <= cron::search_end(now, DUE_HORIZON) && cron::sched_matches(c, u))))
            ==> r is Ok,
        r matches Ok(p) ==> {
            &&& payload@.len() <= TASK_PAYLOAD_LIMIT
            &&& *final(daemon) == (Daemon {
                task_count: (old(daemon).task_count + 1) as u64,
                ..*old(daemon)
            })
            &&& p.0.daemon == daemon_address
            &&& p.0.id == old(daemon).task_count
            &&& p.0.payload == payload
            &&& p.0.schedule@ == schedule.spec_bytes()
            &&& p.0.status == TaskStatus::Scheduled
            &&& (exists|c: Schedule|
                cron::schedule_from(schedule.spec_bytes(), c) && first_due(c, now, p.0.next_due))
            &&& p.1 == (Fee {
                task: task_address,
                balance: (config.node_fee + config.program_fee) as u64,
            })
        },
{
    if payload.len() > TASK_PAYLOAD_LIMIT {
        return Err(CronosError::PayloadTooLarge);
    }
    let bytes = vstd::slice::slice_to_vec(schedule.as_bytes());
    let sched = match cron::parse_schedule(&bytes) {
        Ok(c) => c,
        Err(_) => {
            return Err(CronosError::ScheduleInvalid);
        },
    };
    let next_due = match cron::next_occurrence(&sched, now, DUE_HORIZON) {
        Some(t) => t,
        None => {
            proof {
                if exists|c: Schedule|
                    cron::schedule_from(bytes@, c) && (exists|u: u64|
                        now <= u <= cron::search_end(now, DUE_HORIZON) && cron::sched_matches(
                            c,
                            u,
                        )) {
                    let c = choose|c: Schedule|
                        cron::schedule_from(bytes@, c) && (exists|u: u64|
                            now <= u <= cron::search_end(now, DUE_HORIZON) && cron::sched_matches(
                                c,
                                u,
                            ));
                    cron::lemma_schedule_from_unique(bytes@, c, sched);
                }
            }
            return Err(CronosError::ScheduleInvalid);
        },
    };
    let task = Task {
        daemon: daemon_address,
        id: daemon.task_count,
        payload,
        schedule: bytes,
        next_due,
        status: TaskStatus::Scheduled,
    };
    let fee = Fee { task: task_address, balance: config.node_fee + config.program_fee };
    daemon.task_count = daemon.task_count + 1;
    Ok((task, fee))
}

impl Task {
    /// The canonical storage address of task `id` of `daemon` under
    /// `program`, with its bump.
    pub fn pda(program: &Address, daemon: Address, id: u64) -> (r: Result<
        (Address, u8),
        CronosError,
    >)
        ensures
            r matches Ok(p) ==> pda_of(task_seeds(daemon, id), *program) == Some(p),
            r matches Err(e) ==> pda_of(task_seeds(daemon, id), *program) is None && e
                == CronosError::AddressSpaceExhausted,
    {
        let mut seeds: Vec<Vec<u8>> = Vec::new();
        seeds.push(vstd::slice::slice_to_vec("task".as_bytes()));
        seeds.push(address_seed_bytes(&daemon));
        seeds.push(index_seed_bytes(id));
        proof {
            assert(seeds.deep_view() =~~= task_seeds(daemon, id));
        }
        derive_address(seeds, program)
    }

    /// The error `exec` reports for the task, fee and configuration at
    /// time `now`, if any; `None` means the checks pass (the schedule is
    /// then still re-parsed before anything changes).
    pub open spec fn exec_error(self, fee: Fee, config: Config, now: u64) -> Option<CronosError> {
        if !(self.status is Scheduled) {
            Some(CronosError::TaskNotDue)
        } else if now < self.next_due {
            Some(CronosError::TaskNotDue)
        } else if fee.balance < config.node_fee + config.program_fee {
            Some(CronosError::InsufficientFee)
        } else {
            None
        }
    }

    /// Execute a due task: pay the node and program fees out of the escrow
    /// and reschedule.
    ///
    /// Fails with `TaskNotDue` when the task is cancelled or `now` has not
    /// reached its due time, and with `InsufficientFee` when the escrow
    /// cannot cover the configured rates. On success the escrow shrinks by
    /// the paid total and the next due time is recomputed from the
    /// execution time — strictly after `now`, never from the previously
    /// scheduled time — so a late execution skips missed firings instead
    /// of catching up. On any error nothing changes.
    pub fn exec(&mut self, fee: &mut Fee, config: &Config, now: u64) -> (r: Result<
        FeePayout,
        CronosError,
    >)
        requires
            config.node_fee + config.program_fee <= u64::MAX,
            now < u64::MAX,
        ensures
            r matches Err(e) ==> *final(self) == *old(self) && *final(fee) == *old(fee),
            old(self).exec_error(*old(fee), *config, now) matches Some(e) ==> r == Err::<
                FeePayout,
                CronosError,
            >(e),
            old(self).exec_error(*old(fee), *config, now) is None && (forall|c: Schedule|
                !cron::schedule_from(old(self).schedule@, c)) ==> r == Err::<
                FeePayout,
                CronosError,
            >(CronosError::ScheduleInvalid),
            (old(self).exec_error(*old(fee), *config, now) is None && (exists|c: Schedule|
                cron::schedule_from(old(self).schedule@, c) && (exists|u: u64|
                    now + 1 <= u <= cron::search_end((now + 1) as u64, DUE_HORIZON)
                        && cron::sched_matches(c, u)))) ==> r is Ok,
            r matches Ok(payout) ==> {
                &&& old(self).exec_error(*old(fee), *config, now) is None
                &&& payout == (FeePayout {
                    node_amount: config.node_fee,
                    program_amount: config.program_fee,
                })
                &&& *final(fee) == (Fee {
                    balance: (old(fee).balance - config.node_fee - config.program_fee) as u64,
                    ..*old(fee)
                })
                &&& final(self).daemon == old(self).daemon
                &&& final(self).id == old(self).id
                &&& final(self).payload == old(self).payload
                &&& final(self).schedule == old(self).schedule
                &&& final(self).status == TaskStatus::Scheduled
                &&& (exists|c: Schedule|
                    cron::schedule_from(old(self).schedule@, c) && first_due(
                        c,
                        (now + 1) as u64,
                        final(self).next_due,
                    ))
            },
    {
        if !matches!(self.status, TaskStatus::Scheduled) {
            return Err(CronosError::TaskNotDue);
        }
        if now < self.next_due {
            return Err(CronosError::TaskNotDue);
        }
        let total = config.node_fee + config.program_fee;
        if fee.balance < total {
            return Err(CronosError::InsufficientFee);
        }
        let sched = match cron::parse_schedule(&self.schedule) {
            Ok(c) => c,
            Err(_) => {
                return Err(CronosError::ScheduleInvalid);
            },
        };
        let from = now + 1;
        let next_due = match cron::next_occurrence(&sched, from, DUE_HORIZON) {
            Some(t) => t,
            None => {
                proof {
                    if exists|c: Schedule|
                        cron::schedule_from(self.schedule@, c) && (exists|u: u64|
                            from <= u <= cron::search_end(from, DUE_HORIZON)
                                && cron::sched_matches(c, u)) {
                        let c = choose|c: Schedule|
                            cron::schedule_from(self.schedule@, c) && (exists|u: u64|
                                from <= u <= cron::search_end(from, DUE_HORIZON)
                                    && cron::sched_matches(c, u));
                        cron::lemma_schedule_from_unique(self.schedule@, c, sched);
                    }
                }
                return Err(CronosError::ScheduleInvalid);
            },
        };
        fee.balance = fee.balance - total;
        self.next_due = next_due;
        Ok(FeePayout { node_amount: config.node_fee, program_amount: config.program_fee })
    }

    /// Cancel the task with admin privilege and refund the remaining
    /// escrow.
    ///
    /// Succeeds if and only if `admin` matches the configured admin; the
    /// refund is the whole remaining balance.
    pub fn admin_cancel(&mut self, fee: &mut Fee, admin: Address, config: &Config) -> (r: Result<
        u64,
        CronosError,
    >)
        ensures
            admin != config.admin ==> r == Err::<u64, CronosError>(CronosError::NotAuthorizedAdmin)
                && *final(self) == *old(self) && *final(fee) == *old(fee),
            admin == config.admin ==> r == Ok::<u64, CronosError>(old(fee).balance) && *final(fee)
                == (Fee { balance: 0, ..*old(fee) }) && final(self).status == TaskStatus::Cancelled
                && final(self).daemon == old(self).daemon && final(self).id == old(self).id
                && final(self).payload == old(self).payload && final(self).schedule == old(
                self,
            ).schedule && final(self).next_due == old(self).next_due,
    {
        if !(admin == config.admin) {
            return Err(CronosError::NotAuthorizedAdmin);
        }
        let refund = fee.balance;
        fee.balance = 0;
        self.status = TaskStatus::Cancelled;
        Ok(refund)
    }

    /// Cancel the task as its owner and refund the remaining escrow: the
    /// same transition as `admin_cancel`, gated by the daemon's owner.
    pub fn cancel(&mut self, fee: &mut Fee, owner: Address, daemon: &Daemon) -> (r: Result<
        u64,
        CronosError,
    >)
        ensures
            owner != daemon.owner ==> r == Err::<u64, CronosError>(CronosError::NotAuthorizedOwner)
                && *final(self) == *old(self) && *final(fee) == *old(fee),
            owner == daemon.owner ==> r == Ok::<u64, CronosError>(old(fee).balance) && *final(fee)
                == (Fee { balance: 0, ..*old(fee) }) && final(self).status == TaskStatus::Cancelled
                && final(self).daemon == old(self).daemon && final(self).id == old(self).id
                && final(self).payload == old(self).payload && final(self).schedule == old(
                self,
            ).schedule && final(self).next_due == old(self).next_due,
    {
        if !(owner == daemon.owner) {
            return Err(CronosError::NotAuthorizedOwner);
        }
        let refund = fee.balance;
        fee.balance = 0;
        self.status = TaskStatus::Cancelled;
        Ok(refund)
    }
}

} // verus!
