//! Who may write to the database, how long others wait, and which writes are complained about.
use crate::text;
use vstd::prelude::*;

verus! {

/// How many milliseconds are waited before the first complaint.
pub const DB_WRITE_GATE_WAIT_WARN_MS: u128 = 200;

/// How many milliseconds pass between two complaints.
pub const DB_WRITE_GATE_WAIT_LOG_STEP_MS: u128 = 1000;

/// How many milliseconds the write lock may be held before it is complained about.
pub const DB_WRITE_GATE_HOLD_WARN_MS: u128 = 200;

/// How many milliseconds a write may take before it is complained about.
pub const DEFAULT_SLOW_WRITER_COMMAND_MS: u128 = 50;

/// The same for writes that are known to be large.
pub const BULK_SLOW_WRITER_COMMAND_MS: u128 = 100;

/// Who holds the write lock.
#[derive(Debug)]
pub struct DbWriteGateOwner {
    pub file: String,
    pub line: u32,
    pub thread_name: Option<String>,
}

impl DbWriteGateOwner {
    /// What is said of a holder.
    pub open spec fn wording(self, held_ms: u64) -> Seq<char> {
        let place = self.file@ + ":"@ + text::decimal(self.line as nat);
        let held = " for "@ + text::decimal(held_ms as nat) + " ms"@;
        match self.thread_name {
            Some(name) => place + " on thread "@ + name@ + held,
            None => place + held,
        }
    }

    /// What is said of a holder.
    pub fn held_description(&self, held_ms: u64) -> (r: String)
        ensures
            r@ == self.wording(held_ms),
    {
        let mut r = self.file.clone();
        r.append(":");
        text::push_decimal(&mut r, self.line as u64);
        match &self.thread_name {
            Some(name) => {
                r.append(" on thread ");
                r.append(name.as_str());
            },
            None => {},
        }
        r.append(" for ");
        text::push_decimal(&mut r, held_ms);
        r.append(" ms");
        proof {
            assert(r@ =~= self.wording(held_ms));
        }
        r
    }
}

/// The write lock: at most one may write at a time.
#[derive(Debug)]
pub struct DbWriteGate {
    pub owner: Option<DbWriteGateOwner>,
}

impl DbWriteGate {
    /// The write lock that nobody holds.
    pub fn new() -> (r: Self)
        ensures
            r.owner is None,
    {
        DbWriteGate { owner: None }
    }

    /// Takes the write lock if nobody holds it.
    pub fn try_enter(&mut self, owner: DbWriteGateOwner) -> (entered: bool)
        ensures
            entered == (old(self).owner is None),
            entered ==> final(self).owner == Some(owner),
            !entered ==> *final(self) == *old(self),
    {
        match self.owner {
            Some(_) => false,
            None => {
                self.owner = Some(owner);
                true
            },
        }
    }

    /// Gives the write lock back and says who held it.
    pub fn leave(&mut self) -> (r: Option<DbWriteGateOwner>)
        ensures
            r == old(self).owner,
            final(self).owner is None,
    {
        self.owner.take()
    }
}

/// What one who waits does.
#[derive(Debug, Clone, Copy, PartialEq, Eq, Structural)]
pub enum WaitStep {
    /// Complain, and do so again at `next_log_ms`.
    Complain { next_log_ms: u128 },
    /// Wait this many milliseconds, at least one.
    WaitFor(u64),
}

/// What one who waits does after `waited_ms`, where the next complaint is due at `next_log_ms`.
pub fn wait_step(waited_ms: u128, next_log_ms: u128) -> (r: WaitStep)
    requires
        next_log_ms <= u128::MAX - DB_WRITE_GATE_WAIT_LOG_STEP_MS,
    ensures
        r == if waited_ms >= next_log_ms {
            (WaitStep::Complain { next_log_ms: (next_log_ms + DB_WRITE_GATE_WAIT_LOG_STEP_MS) as u128 })
        } else if next_log_ms - waited_ms > u64::MAX {
            WaitStep::WaitFor(u64::MAX)
        } else {
            WaitStep::WaitFor((next_log_ms - waited_ms) as u64)
        },
{
    if waited_ms >= next_log_ms {
        WaitStep::Complain { next_log_ms: next_log_ms + DB_WRITE_GATE_WAIT_LOG_STEP_MS }
    } else {
        let left: u128 = next_log_ms - waited_ms;
        if left > u64::MAX as u128 {
            WaitStep::WaitFor(u64::MAX)
        } else {
            WaitStep::WaitFor(left as u64)
        }
    }
}

/// Whether a wait is complained about once it is over.
pub fn wait_was_long(waited_ms: u128) -> (r: bool)
    ensures
        r == (waited_ms >= DB_WRITE_GATE_WAIT_WARN_MS),
{
    waited_ms >= DB_WRITE_GATE_WAIT_WARN_MS
}

/// Whether the write lock was held too long.
pub fn hold_was_long(held_ms: u128) -> (r: bool)
    ensures
        r == (held_ms >= DB_WRITE_GATE_HOLD_WARN_MS),
{
    held_ms >= DB_WRITE_GATE_HOLD_WARN_MS
}

/// How many milliseconds a write may take.
pub open spec fn slow_threshold(label: Seq<char>) -> u128 {
    if label == "upsert_external_stream_batch"@ || label == "bootstrap_maintenance_batch"@ {
        BULK_SLOW_WRITER_COMMAND_MS
    } else {
        DEFAULT_SLOW_WRITER_COMMAND_MS
    }
}

/// How many milliseconds a write may take before it is complained about.
pub fn slow_writer_threshold_ms(label: &str) -> (r: u128)
    ensures
        r == slow_threshold(label@),
{
    if text::same_text(label, "upsert_external_stream_batch") || text::same_text(
        label,
        "bootstrap_maintenance_batch",
    ) {
        BULK_SLOW_WRITER_COMMAND_MS
    } else {
        DEFAULT_SLOW_WRITER_COMMAND_MS
    }
}

/// Why a write gave nothing back.
#[derive(Debug)]
pub enum WriterFault {
    /// The writer is gone.
    NotSent,
    /// The writer gave back something else.
    WrongReply,
    /// The write itself failed.
    Failed(String),
}

/// What is said of a write that gave nothing back.
pub open spec fn writer_fault_wording(label: Seq<char>, fault: WriterFault) -> Seq<char> {
    match fault {
        WriterFault::NotSent => "sending writer command `"@ + label + "`"@,
        WriterFault::WrongReply => "writer reply type mismatch for "@ + label,
        WriterFault::Failed(error) => "writer command `"@ + label + "` failed: "@ + error@,
    }
}

/// What is said of a write that gave nothing back.
pub fn writer_fault_message(label: &str, fault: &WriterFault) -> (r: String)
    ensures
        r@ == writer_fault_wording(label@, *fault),
{
    match fault {
        WriterFault::NotSent => {
            let mut r = "sending writer command `".to_owned();
            r.append(label);
            r.append("`");
            r
        },
        WriterFault::WrongReply => "writer reply type mismatch for ".to_owned().concat(label),
        WriterFault::Failed(error) => {
            let mut r = "writer command `".to_owned();
            r.append(label);
            r.append("` failed: ");
            r.append(error.as_str());
            r
        },
    }
}

} // verus!
