//! Core pinning and real-time scheduling.
//!
//! Both of these are best-effort by design. `SCHED_FIFO` needs privileges the
//! app will usually not have on a gaming PC, and refusing to run without it
//! would make the rig undrivable for most of its users. So the kernel asks,
//! records what it actually got, and reports it.

use vstd::prelude::*;

use crate::arith;
use crate::arith::{from_count, over, Operation};
use crate::scalar::Scalar;
use crate::sys::SysError;
use crate::text;
use crate::text::{count_text, signed_text};

verus! {

/// Bytes in the platform's CPU mask: 1024 CPUs.
pub const CPU_SETSIZE_BYTES: usize = 128;

/// Below this, locking future allocations would make ordinary allocations fail
/// rather than making the loop faster. 64 MB is comfortably more than the
/// kernel's whole working set.
pub const MEMLOCK_FUTURE_THRESHOLD: u64 = 0x0400_0000;

/// One megabyte, in bytes: 1048576.
pub const MEGABYTE: Scalar = 0x4130_0000_0000_0000;

/// Invalid argument.
pub const EINVAL: i32 = 22;

/// How much of the process image is pinned in RAM.
///
/// A major page fault inside a step is unbounded work -- milliseconds, while a
/// disk is read -- and it is one of the few remaining sources of a
/// multi-millisecond outlier once the thread is pinned and prioritised.
#[derive(Clone, Copy, PartialEq, Eq, Structural, Debug)]
pub enum MemoryLock {
    /// Nothing is locked. Page faults are possible anywhere.
    Pageable,
    /// Everything allocated *before* the lock is pinned. Since the kernel
    /// preallocates all of its hot-path buffers at start-up, this covers the
    /// step path.
    Current,
    /// Current and future allocations are pinned. Needs a generous
    /// RLIMIT_MEMLOCK, which stock Linux does not give.
    CurrentAndFuture,
}

impl Default for MemoryLock {
    fn default() -> (lock: Self)
        ensures
            lock == MemoryLock::Pageable,
    {
        MemoryLock::Pageable
    }
}

impl MemoryLock {
    pub open spec fn described(self) -> Seq<char> {
        match self {
            MemoryLock::Pageable => "pageable"@,
            MemoryLock::Current => "mlock(current)"@,
            MemoryLock::CurrentAndFuture => "mlock(current+future)"@,
        }
    }

    pub fn describe(&self) -> (text: &'static str)
        ensures
            text@ == self.described(),
    {
        match self {
            MemoryLock::Pageable => "pageable",
            MemoryLock::Current => "mlock(current)",
            MemoryLock::CurrentAndFuture => "mlock(current+future)",
        }
    }
}

/// What the calling thread actually obtained. Reported to the driver rather
/// than silently assumed.
#[derive(Clone, Copy, PartialEq, Eq, Debug)]
pub struct RtStatus {
    pub fifo_priority: Option<i32>,
    pub pinned_cpu: Option<usize>,
    pub memory_locked: MemoryLock,
    /// The RLIMIT_MEMLOCK actually in force, so the report can tell an operator
    /// what to change rather than just that something is missing.
    pub memlock_limit_bytes: u64,
}

impl Default for RtStatus {
    fn default() -> (status: Self)
        ensures
            status == (RtStatus {
                fifo_priority: None,
                pinned_cpu: None,
                memory_locked: MemoryLock::Pageable,
                memlock_limit_bytes: 0,
            }),
    {
        RtStatus {
            fifo_priority: None,
            pinned_cpu: None,
            memory_locked: MemoryLock::Pageable,
            memlock_limit_bytes: 0,
        }
    }
}

impl RtStatus {
    /// The thread has everything a bounded jitter tail depends on.
    pub open spec fn hardened(self) -> bool {
        self.fifo_priority is Some && self.pinned_cpu is Some && self.memory_locked
            != MemoryLock::Pageable
    }

    /// True when the thread has everything a bounded jitter tail depends on.
    pub fn is_hardened(&self) -> (answer: bool)
        ensures
            answer == self.hardened(),
    {
        self.fifo_priority.is_some() && self.pinned_cpu.is_some() && !matches!(
            self.memory_locked,
            MemoryLock::Pageable
        )
    }

    /// The memlock limit in whole megabytes.
    pub open spec fn limit_text<F: Fn(Operation) -> Scalar, P: Fn(Scalar, usize) -> String>(
        self,
        unit: &F,
        print: &P,
    ) -> Seq<char> {
        text::printed(
            *print,
            over(unit, from_count(unit, self.memlock_limit_bytes), MEGABYTE),
            0,
        )
    }

    /// What to do about the scheduler, if anything.
    pub open spec fn scheduler_advice(self) -> Seq<Seq<char>> {
        if self.fifo_priority is None {
            seq![
                "SCHED_FIFO was refused. Grant it with `sudo setcap cap_sys_nice=eip <binary>`, or run inside a container started with `--cap-add=SYS_NICE`."@,
            ]
        } else {
            Seq::empty()
        }
    }

    /// What to do about the processor, if anything.
    pub open spec fn processor_advice(self) -> Seq<Seq<char>> {
        if self.pinned_cpu is None {
            seq![
                "The thread is not pinned to a CPU. Name one with `--cpu <N>`, and allow it with the container's `--cpuset-cpus` or `taskset`."@,
            ]
        } else {
            Seq::empty()
        }
    }

    /// What to do about memory, if anything.
    pub open spec fn memory_advice<F: Fn(Operation) -> Scalar, P: Fn(Scalar, usize) -> String>(
        self,
        unit: &F,
        print: &P,
    ) -> Seq<Seq<char>> {
        match self.memory_locked {
            MemoryLock::CurrentAndFuture => Seq::empty(),
            MemoryLock::Current => seq![
                "RLIMIT_MEMLOCK is "@ + self.limit_text(unit, print)
                    + " MB, too small to pin future allocations. The hot-path buffers are preallocated and are pinned, so this costs tail latency on any allocation made later, not correctness. Raise it with `ulimit -l unlimited` (needs a limits.conf entry) or `--ulimit memlock=-1` on the container."@,
            ],
            MemoryLock::Pageable => seq![
                "NOTHING is pinned in RAM: RLIMIT_MEMLOCK is "@ + self.limit_text(unit, print)
                    + " MB, smaller than this process's resident set (the telemetry ring alone is tens of MB). A major page fault inside a step costs milliseconds, so expect outliers. Raise it with `ulimit -l unlimited` or `--ulimit memlock=-1` on the container."@,
            ],
        }
    }

    /// Everything there is to do.
    pub open spec fn advised<F: Fn(Operation) -> Scalar, P: Fn(Scalar, usize) -> String>(
        self,
        unit: &F,
        print: &P,
    ) -> Seq<Seq<char>> {
        self.scheduler_advice() + self.processor_advice() + self.memory_advice(unit, print)
    }

    /// What an operator would have to do to close the gap. Empty when there is
    /// nothing left to do.
    pub fn advice<F: Fn(Operation) -> Scalar, P: Fn(Scalar, usize) -> String>(
        &self,
        unit: &F,
        print: &P,
    ) -> (advice: Vec<String>)
        requires
            arith::functional(*unit),
            text::prints(*print),
        ensures
            text::views(advice@) == self.advised(unit, print),
            advice@.len() == 0 ==> self.hardened(),
            advice@.len() == 0 <==> self.hardened() && self.memory_locked
                == MemoryLock::CurrentAndFuture,
    {
        let mut advice: Vec<String> = Vec::new();
        if self.fifo_priority.is_none() {
            advice.push(
                "SCHED_FIFO was refused. Grant it with `sudo setcap cap_sys_nice=eip <binary>`, or run inside a container started with `--cap-add=SYS_NICE`.".to_owned(),
            );
        }
        if self.pinned_cpu.is_none() {
            advice.push(
                "The thread is not pinned to a CPU. Name one with `--cpu <N>`, and allow it with the container's `--cpuset-cpus` or `taskset`.".to_owned(),
            );
        }
        match self.memory_locked {
            MemoryLock::CurrentAndFuture => {},
            MemoryLock::Current => {
                let mut line: String = "RLIMIT_MEMLOCK is ".to_owned();
                line.append(
                    print(
                        over(unit, from_count(unit, self.memlock_limit_bytes), MEGABYTE),
                        0,
                    ).as_str(),
                );
                line.append(
                    " MB, too small to pin future allocations. The hot-path buffers are preallocated and are pinned, so this costs tail latency on any allocation made later, not correctness. Raise it with `ulimit -l unlimited` (needs a limits.conf entry) or `--ulimit memlock=-1` on the container.",
                );
                advice.push(line);
            },
            MemoryLock::Pageable => {
                let mut line: String = "NOTHING is pinned in RAM: RLIMIT_MEMLOCK is ".to_owned();
                line.append(
                    print(
                        over(unit, from_count(unit, self.memlock_limit_bytes), MEGABYTE),
                        0,
                    ).as_str(),
                );
                line.append(
                    " MB, smaller than this process's resident set (the telemetry ring alone is tens of MB). A major page fault inside a step costs milliseconds, so expect outliers. Raise it with `ulimit -l unlimited` or `--ulimit memlock=-1` on the container.",
                );
                advice.push(line);
            },
        }
        assert(text::views(advice@) =~= self.advised(unit, print));
        assert(text::views(advice@).len() == advice@.len());
        advice
    }

    /// What the thread got, in words.
    pub open spec fn described(self) -> Seq<char> {
        (match self.fifo_priority {
            Some(p) => "SCHED_FIFO("@ + text::signed(p as int) + ")"@,
            None => "SCHED_OTHER (unprivileged: expect a longer jitter tail)"@,
        }) + ", "@ + (match self.pinned_cpu {
            Some(c) => "pinned to cpu"@ + text::decimal(c as nat),
            None => "unpinned"@,
        }) + ", "@ + self.memory_locked.described()
    }

    pub fn describe(&self) -> (line: String)
        ensures
            line@ == self.described(),
    {
        let mut line: String = match self.fifo_priority {
            Some(p) => {
                let mut text: String = "SCHED_FIFO(".to_owned();
                text.append(signed_text(p).as_str());
                text.append(")");
                text
            },
            None => "SCHED_OTHER (unprivileged: expect a longer jitter tail)".to_owned(),
        };
        line.append(", ");
        let cpu: String = match self.pinned_cpu {
            Some(c) => {
                let mut text: String = "pinned to cpu".to_owned();
                text.append(count_text(c as u64).as_str());
                text
            },
            None => "unpinned".to_owned(),
        };
        line.append(cpu.as_str());
        line.append(", ");
        line.append(self.memory_locked.describe());
        line
    }
}

/// The CPU count the platform reported, never less than one.
pub fn online_cpus(reported: i64) -> (count: usize)
    requires
        reported <= usize::MAX,
    ensures
        count == if reported > 0 {
            reported as int
        } else {
            1
        },
{
    if reported > 0 {
        reported as usize
    } else {
        1
    }
}

/// The mask with one CPU in it, or a refusal when there is no such CPU.
///
/// Pinning matters more than priority for jitter: it keeps the step thread's
/// working set in one core's caches and stops the scheduler migrating it
/// mid-step.
pub fn cpu_mask(cpu: usize) -> (mask: Result<Vec<u8>, SysError>)
    ensures
        match mask {
            Ok(bytes) => cpu < 1024 && bytes@.len() == CPU_SETSIZE_BYTES && forall|i: int|
                0 <= i < CPU_SETSIZE_BYTES ==> #[trigger] bytes@[i] == if i == cpu as int / 8 {
                    1u8 << ((cpu % 8) as u8)
                } else {
                    0u8
                },
            Err(error) => cpu >= 1024 && error.call@ == "sched_setaffinity"@ && error.errno
                == EINVAL,
        },
{
    if cpu >= CPU_SETSIZE_BYTES * 8 {
        return Err(SysError { call: "sched_setaffinity", errno: EINVAL });
    }
    let mut bytes: Vec<u8> = Vec::new();
    let mut i: usize = 0;
    while i < CPU_SETSIZE_BYTES
        invariant
            i <= CPU_SETSIZE_BYTES,
            cpu < 1024,
            bytes@.len() == i,
            forall|j: int|
                0 <= j < i ==> #[trigger] bytes@[j] == if j == cpu as int / 8 {
                    1u8 << ((cpu % 8) as u8)
                } else {
                    0u8
                },
        decreases CPU_SETSIZE_BYTES - i,
    {
        bytes.push(
            if i == cpu / 8 {
                1u8 << ((cpu % 8) as u8)
            } else {
                0
            },
        );
        i += 1;
    }
    Ok(bytes)
}

/// The priority to ask for, given the platform's maximum, which is negative when
/// the platform refused to name one and left `errno` behind.
///
/// Deliberately not the maximum: a runaway thread at the top real-time priority
/// can lock out kernel threads and wedge the machine.
pub fn request_fifo(max: i32, priority_below_max: i32, errno: i32) -> (priority: Result<
    i32,
    SysError,
>)
    requires
        max >= 0 ==> max - priority_below_max <= i32::MAX,
    ensures
        match priority {
            Ok(p) => max >= 0 && p == if max - priority_below_max > 1 {
                max - priority_below_max
            } else {
                1
            },
            Err(error) => max < 0 && error.call@ == "sched_get_priority_max"@ && error.errno
                == errno,
        },
{
    if max < 0 {
        return Err(SysError { call: "sched_get_priority_max", errno });
    }
    if max - priority_below_max > 1 {
        Ok(max - priority_below_max)
    } else {
        Ok(1)
    }
}

/// The memlock limit in force, after trying to raise the soft limit to the hard
/// one. `limits` is what the platform said they are, soft and hard, and `raised`
/// whether it let the soft one be raised.
pub fn memlock_limit(limits: Option<(u64, u64)>, raised: bool) -> (limit: u64)
    ensures
        limit == match limits {
            None => 0,
            Some((soft, hard)) => if soft < hard && raised {
                hard
            } else {
                soft
            },
        },
{
    match limits {
        None => 0,
        Some((soft, hard)) => if soft < hard && raised {
            hard
        } else {
            soft
        },
    }
}

/// Whether to try pinning future allocations too.
///
/// Deliberately *not* unconditional. Stock Linux gives a process an 8 MB
/// memlock allowance, and under it every subsequent allocation must fit inside
/// -- so asking on a normal desktop does not harden the loop, it makes ordinary
/// allocations fail outright.
pub fn may_lock_future(limit: u64) -> (answer: bool)
    ensures
        answer == (limit >= 64 * 1024 * 1024),
{
    limit >= MEMLOCK_FUTURE_THRESHOLD
}

/// What ended up locked, and the limit it was tried under: `everything` and
/// `present` are what the two attempts gave, the first of them made only where
/// it may be.
pub fn lock_memory(limit: u64, everything: bool, present: bool) -> (lock: (MemoryLock, u64))
    ensures
        lock.0 == if limit >= 64 * 1024 * 1024 && everything {
            MemoryLock::CurrentAndFuture
        } else if present {
            MemoryLock::Current
        } else {
            MemoryLock::Pageable
        },
        lock.1 == limit,
{
    if may_lock_future(limit) && everything {
        (MemoryLock::CurrentAndFuture, limit)
    } else if present {
        (MemoryLock::Current, limit)
    } else {
        (MemoryLock::Pageable, limit)
    }
}

/// What hardening a thread came to. Never fails: a soft-real-time session on a
/// general purpose OS is still useful, and refusing to start would help nobody.
///
/// `pinned` and `priority` are what the platform said to the two requests.
pub fn harden_current_thread(
    cpu: Option<usize>,
    pinned: Result<(), SysError>,
    priority: Result<i32, SysError>,
    locked: MemoryLock,
    limit: u64,
) -> (status: RtStatus)
    ensures
        status.pinned_cpu == if pinned is Ok {
            cpu
        } else {
            None
        },
        status.fifo_priority == match priority {
            Ok(p) => Some(p),
            Err(_) => None,
        },
        status.memory_locked == locked,
        status.memlock_limit_bytes == limit,
{
    RtStatus {
        fifo_priority: match priority {
            Ok(p) => Some(p),
            Err(_) => None,
        },
        pinned_cpu: match pinned {
            Ok(_) => cpu,
            Err(_) => None,
        },
        memory_locked: locked,
        memlock_limit_bytes: limit,
    }
}

/// Advisory: which CPU the step thread should take.
///
/// The highest-numbered core, because on a hybrid part core 0 carries the
/// interrupt load and the OS is most likely to schedule other work there.
pub fn suggested_rt_cpu(cpus: usize) -> (cpu: Option<usize>)
    ensures
        cpu == if cpus >= 2 {
            Some((cpus - 1) as usize)
        } else {
            None
        },
{
    if cpus >= 2 {
        Some(cpus - 1)
    } else {
        None
    }
}

} // verus!
