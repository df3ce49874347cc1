//! The progress tracker: the state machine of the actor that owns the
//! multi-line display.  Each job gets a bar, identified by a monotonically
//! increasing sequence number; messages update, finish or summarize the
//! bars.  The terminal itself stays outside; here the state and every
//! rendered prefix line are computed under exact contracts, including the
//! column-alignment facts of the final summary.

use vstd::prelude::*;
use crate::decimal::{count_digits, lemma_num_digits_mono, num_digits};

verus! {

/// How a finished job ended.
#[derive(Clone, Copy, Debug, PartialEq, Eq, Structural)]
pub enum OperationResult {
    Success,
    Failed,
}

/// The four-character label under which a result is displayed.
pub open spec fn result_label(r: OperationResult) -> Seq<char> {
    match r {
        OperationResult::Success => "done"@,
        OperationResult::Failed => "fail"@,
    }
}

impl OperationResult {
    /// The display label of the result; colouring is the terminal's affair.
    pub fn as_label(&self) -> (r: &'static str)
        ensures
            r@ == result_label(*self),
    {
        match self {
            OperationResult::Success => "done",
            OperationResult::Failed => "fail",
        }
    }
}

/// One bar of the display: a started job, its trailing message, its
/// progress position, and — once finished — its result and elapsed seconds.
#[derive(Clone, Debug)]
pub struct JobBarState {
    /// The bar's own sequence number, assigned at start, starting from 1.
    pub sequence: usize,
    /// The job name shown in the prefix.
    pub name: String,
    /// The trailing message line.
    pub message: String,
    /// The progress position.
    pub position: u64,
    /// Seconds timestamp at which the job started.
    pub start_time: u64,
    /// Set when the job finishes: the result and the elapsed seconds
    /// (at least one; a job is never shown as done in zero seconds).
    pub result: Option<(OperationResult, u64)>,
}

impl JobBarState {
    /// A fresh running bar for a job started `now`.
    pub fn start_job(name: String, sequence: usize, now: u64) -> (r: JobBarState)
        ensures
            r.sequence == sequence,
            r.name == name,
            r.message@ == Seq::<char>::empty(),
            r.position == 0,
            r.start_time == now,
            r.result is None,
    {
        JobBarState {
            sequence,
            name,
            message: String::new(),
            position: 0,
            start_time: now,
            result: None,
        }
    }
}

/// Elapsed whole seconds between a start and a later reading, floored at
/// one: it makes no sense to show that a job is done in zero seconds.
pub open spec fn spec_elapsed(start: u64, now: u64) -> nat {
    if now > start {
        (now - start) as nat
    } else {
        1
    }
}

/// Elapsed seconds, floored at one.
pub fn elapsed_secs(start: u64, now: u64) -> (r: u64)
    ensures
        r == spec_elapsed(start, now),
        r >= 1,
{
    if now > start {
        now - start
    } else {
        1
    }
}

/// The elapsed seconds a bar reports: zero while it is still running.
pub open spec fn bar_time(b: JobBarState) -> nat {
    match b.result {
        Some((_, t)) => t as nat,
        None => 0,
    }
}

/// The larger of two naturals.
pub open spec fn nmax(a: nat, b: nat) -> nat {
    if a >= b {
        a
    } else {
        b
    }
}

/// The largest elapsed-seconds value among the finished bars; zero when no
/// bar has finished (a finished bar always reports at least one second).
pub open spec fn max_bar_time(bars: Seq<JobBarState>) -> nat
    decreases bars.len(),
{
    if bars.len() == 0 {
        0
    } else {
        nmax(max_bar_time(bars.drop_last()), bar_time(bars.last()))
    }
}

/// Appending a still-running bar leaves the maximum elapsed time unchanged.
proof fn lemma_max_bar_time_push_running(bars: Seq<JobBarState>, b: JobBarState)
    requires
        b.result is None,
    ensures
        max_bar_time(bars.push(b)) == max_bar_time(bars),
{
    assert(bars.push(b).drop_last() =~= bars);
}

/// Finishing one running bar raises the maximum elapsed time to the larger
/// of the old maximum and the new bar's time.
proof fn lemma_max_bar_time_update(bars: Seq<JobBarState>, k: int, b: JobBarState)
    requires
        0 <= k < bars.len(),
        bar_time(bars[k]) == 0,
    ensures
        max_bar_time(bars.update(k, b)) == nmax(max_bar_time(bars), bar_time(b)),
    decreases bars.len(),
{
    let updated = bars.update(k, b);
    if k == bars.len() - 1 {
        assert(updated.drop_last() =~= bars.drop_last());
    } else {
        assert(updated.drop_last() =~= bars.drop_last().update(k, b));
        lemma_max_bar_time_update(bars.drop_last(), k, b);
    }
}

/// Digit counts distribute over the maximum.
proof fn lemma_num_digits_nmax(a: nat, b: nat)
    ensures
        num_digits(nmax(a, b)) == nmax(num_digits(a), num_digits(b)),
{
    if a >= b {
        lemma_num_digits_mono(b, a);
    } else {
        lemma_num_digits_mono(a, b);
    }
}

/// The width of the elapsed-seconds column: the digit count of the largest
/// finished time, or zero while no bar has finished.
pub open spec fn time_column_width(bars: Seq<JobBarState>) -> nat {
    if max_bar_time(bars) == 0 {
        0
    } else {
        num_digits(max_bar_time(bars))
    }
}

/// The tracker's state: the last assigned sequence number, the width of the
/// elapsed-seconds column, the tracker's own start time, and one bar per
/// started job, in start order.
#[derive(Debug)]
pub struct Tracker {
    pub sequence: usize,
    pub max_time_len: usize,
    pub start_time: u64,
    pub bars: Vec<JobBarState>,
}

impl Tracker {
    /// Well-formedness: bars are stored in start order under their own
    /// sequence numbers, every finished bar reports at least one second,
    /// and the time column is exactly as wide as the widest finished time.
    pub open spec fn wf(self) -> bool {
        &&& self.bars@.len() == self.sequence
        &&& forall|i: int|
            0 <= i < self.bars@.len() ==> (#[trigger] self.bars@[i]).sequence == i + 1
        &&& forall|i: int|
            0 <= i < self.bars@.len() ==> (#[trigger] bar_time(self.bars@[i])) <= max_bar_time(
                self.bars@,
            )
        &&& forall|i: int|
            0 <= i < self.bars@.len() && self.bars@[i].result is Some ==> (#[trigger] bar_time(
                self.bars@[i],
            )) >= 1
        &&& self.max_time_len == time_column_width(self.bars@)
    }

    /// Whether `sequence` names a bar that is still running: only such a
    /// bar reacts to progress, message and finish events; a finished bar is
    /// terminal and ignores them silently.
    pub open spec fn running(self, sequence: usize) -> bool {
        &&& 1 <= sequence <= self.bars@.len()
        &&& self.bars@[sequence - 1].result is None
    }

    /// A fresh tracker started `now`, with no bars.
    pub fn new(now: u64) -> (r: Tracker)
        ensures
            r.wf(),
            r.sequence == 0,
            r.max_time_len == 0,
            r.start_time == now,
            r.bars@.len() == 0,
    {
        Tracker { sequence: 0, max_time_len: 0, start_time: now, bars: Vec::new() }
    }

    /// Start a job: assign the next sequence number and add a running bar
    /// for it.  Returns the assigned number.
    pub fn start(&mut self, job: String, now: u64) -> (seq: usize)
        requires
            old(self).wf(),
            old(self).sequence < usize::MAX,
        ensures
            final(self).wf(),
            seq == old(self).sequence + 1,
            final(self).sequence == seq,
            final(self).max_time_len == old(self).max_time_len,
            final(self).start_time == old(self).start_time,
            final(self).bars@ == old(self).bars@.push(final(self).bars@.last()),
            final(self).bars@.last().sequence == seq,
            final(self).bars@.last().name == job,
            final(self).bars@.last().message@ == Seq::<char>::empty(),
            final(self).bars@.last().position == 0,
            final(self).bars@.last().start_time == now,
            final(self).bars@.last().result is None,
    {
        let seq = self.sequence + 1;
        self.sequence = seq;
        let bar = JobBarState::start_job(job, seq, now);
        proof {
            lemma_max_bar_time_push_running(self.bars@, bar);
        }
        let ghost before = self.bars@;
        self.bars.push(bar);
        proof {
            assert(self.bars@ =~= before.push(bar));
            assert forall|i: int| 0 <= i < self.bars@.len() implies (#[trigger] bar_time(
                self.bars@[i],
            )) <= max_bar_time(self.bars@) by {
                if i < self.bars@.len() - 1 {
                    assert(self.bars@[i] == before[i]);
                }
            }
        }
        seq
    }

    /// Set the trailing message of a running bar; a finished or unknown bar
    /// ignores the event.  Returns whether the event applied.
    pub fn msg(&mut self, sequence: usize, log: String) -> (applied: bool)
        requires
            old(self).wf(),
        ensures
            final(self).wf(),
            applied == old(self).running(sequence),
            final(self).sequence == old(self).sequence,
            final(self).max_time_len == old(self).max_time_len,
            final(self).start_time == old(self).start_time,
            applied ==> final(self).bars@ == old(self).bars@.update(
                sequence - 1,
                JobBarState { message: log, ..old(self).bars@[sequence - 1] },
            ),
            !applied ==> *final(self) == *old(self),
    {
        if sequence >= 1 && sequence <= self.bars.len() {
            let idx = sequence - 1;
            let running = self.bars[idx].result.is_none();
            if running {
                let old_bar = &self.bars[idx];
                let new_bar = JobBarState {
                    sequence: old_bar.sequence,
                    name: old_bar.name.clone(),
                    message: log,
                    position: old_bar.position,
                    start_time: old_bar.start_time,
                    result: None,
                };
                let ghost before = self.bars@;
                proof {
                    lemma_max_bar_time_update(self.bars@, idx as int, new_bar);
                }
                self.bars.set(idx, new_bar);
                proof {
                    assert(self.bars@ =~= before.update(
                        idx as int,
                        JobBarState { message: new_bar.message, ..before[idx as int] },
                    ));
                    assert forall|i: int| 0 <= i < self.bars@.len() implies (#[trigger] bar_time(
                        self.bars@[i],
                    )) <= max_bar_time(self.bars@) by {
                        if i != idx {
                            assert(self.bars@[i] == before[i]);
                        }
                    }
                }
                return true;
            }
        }
        false
    }

    /// Set or increment the progress position of a running bar; a finished
    /// or unknown bar ignores the event.  An increment saturates at the
    /// largest position.  Returns whether the event applied.
    pub fn progress(&mut self, sequence: usize, pos: Option<u64>) -> (applied: bool)
        requires
            old(self).wf(),
        ensures
            final(self).wf(),
            applied == old(self).running(sequence),
            final(self).sequence == old(self).sequence,
            final(self).max_time_len == old(self).max_time_len,
            final(self).start_time == old(self).start_time,
            applied ==> final(self).bars@ == old(self).bars@.update(
                sequence - 1,
                JobBarState {
                    position: match pos {
                        Some(p) => p,
                        None => if old(self).bars@[sequence - 1].position == u64::MAX {
                            u64::MAX
                        } else {
                            (old(self).bars@[sequence - 1].position + 1) as u64
                        },
                    },
                    ..old(self).bars@[sequence - 1]
                },
            ),
            !applied ==> *final(self) == *old(self),
    {
        if sequence >= 1 && sequence <= self.bars.len() {
            let idx = sequence - 1;
            let running = self.bars[idx].result.is_none();
            if running {
                let old_bar = &self.bars[idx];
                let new_position = match pos {
                    Some(p) => p,
                    None => if old_bar.position == u64::MAX {
                        u64::MAX
                    } else {
                        old_bar.position + 1
                    },
                };
                let new_bar = JobBarState {
                    sequence: old_bar.sequence,
                    name: old_bar.name.clone(),
                    message: old_bar.message.clone(),
                    position: new_position,
                    start_time: old_bar.start_time,
                    result: None,
                };
                let ghost before = self.bars@;
                proof {
                    lemma_max_bar_time_update(self.bars@, idx as int, new_bar);
                }
                self.bars.set(idx, new_bar);
                proof {
                    assert(self.bars@ =~= before.update(
                        idx as int,
                        JobBarState { position: new_position, ..before[idx as int] },
                    ));
                    assert forall|i: int| 0 <= i < self.bars@.len() implies (#[trigger] bar_time(
                        self.bars@[i],
                    )) <= max_bar_time(self.bars@) by {
                        if i != idx {
                            assert(self.bars@[i] == before[i]);
                        }
                    }
                }
                return true;
            }
        }
        false
    }

    /// Finish a running bar: record the result and the elapsed seconds,
    /// set the bar's trailing message, and widen the time column if this
    /// time has more digits than any before.  A finished or unknown bar
    /// ignores the event.  Returns whether the event applied.
    pub fn finish(
        &mut self,
        sequence: usize,
        result: OperationResult,
        message: String,
        now: u64,
    ) -> (applied: bool)
        requires
            old(self).wf(),
        ensures
            final(self).wf(),
            applied == old(self).running(sequence),
            final(self).sequence == old(self).sequence,
            final(self).start_time == old(self).start_time,
            applied ==> final(self).bars@ == old(self).bars@.update(
                sequence - 1,
                JobBarState {
                    message,
                    result: Some(
                        (result, spec_elapsed(old(self).bars@[sequence - 1].start_time, now) as u64),
                    ),
                    ..old(self).bars@[sequence - 1]
                },
            ),
            !applied ==> *final(self) == *old(self),
    {
        if sequence >= 1 && sequence <= self.bars.len() {
            let idx = sequence - 1;
            let running = self.bars[idx].result.is_none();
            if running {
                let old_bar = &self.bars[idx];
                let time = elapsed_secs(old_bar.start_time, now);
                let new_bar = JobBarState {
                    sequence: old_bar.sequence,
                    name: old_bar.name.clone(),
                    message,
                    position: old_bar.position,
                    start_time: old_bar.start_time,
                    result: Some((result, time)),
                };
                let ghost before = self.bars@;
                proof {
                    lemma_max_bar_time_update(self.bars@, idx as int, new_bar);
                }
                self.bars.set(idx, new_bar);
                let time_width = count_digits(time);
                proof {
                    lemma_num_digits_nmax(max_bar_time(before), time as nat);
                }
                if time_width > self.max_time_len {
                    self.max_time_len = time_width;
                }
                proof {
                    assert(self.bars@ =~= before.update(
                        idx as int,
                        JobBarState {
                            message: new_bar.message,
                            result: Some((result, time)),
                            ..before[idx as int]
                        },
                    ));
                    assert forall|i: int| 0 <= i < self.bars@.len() implies (#[trigger] bar_time(
                        self.bars@[i],
                    )) <= max_bar_time(self.bars@) by {
                        if i != idx {
                            assert(self.bars@[i] == before[i]);
                        }
                    }
                }
                return true;
            }
        }
        false
    }

    /// Finish a running bar as successful.
    pub fn success(&mut self, sequence: usize, message: String, now: u64) -> (applied: bool)
        requires
            old(self).wf(),
        ensures
            final(self).wf(),
            applied == old(self).running(sequence),
            final(self).sequence == old(self).sequence,
            final(self).start_time == old(self).start_time,
            applied ==> final(self).bars@ == old(self).bars@.update(
                sequence - 1,
                JobBarState {
                    message,
                    result: Some(
                        (
                            OperationResult::Success,
                            spec_elapsed(old(self).bars@[sequence - 1].start_time, now) as u64,
                        ),
                    ),
                    ..old(self).bars@[sequence - 1]
                },
            ),
            !applied ==> *final(self) == *old(self),
    {
        self.finish(sequence, OperationResult::Success, message, now)
    }

    /// Finish a running bar as failed.
    pub fn fail(&mut self, sequence: usize, message: String, now: u64) -> (applied: bool)
        requires
            old(self).wf(),
        ensures
            final(self).wf(),
            applied == old(self).running(sequence),
            final(self).sequence == old(self).sequence,
            final(self).start_time == old(self).start_time,
            applied ==> final(self).bars@ == old(self).bars@.update(
                sequence - 1,
                JobBarState {
                    message,
                    result: Some(
                        (
                            OperationResult::Failed,
                            spec_elapsed(old(self).bars@[sequence - 1].start_time, now) as u64,
                        ),
                    ),
                    ..old(self).bars@[sequence - 1]
                },
            ),
            !applied ==> *final(self) == *old(self),
    {
        self.finish(sequence, OperationResult::Failed, message, now)
    }

    /// Shut the display down: every bar still running is finished as
    /// successful with its elapsed time — purely for display — and the
    /// total elapsed seconds of the whole run is returned.
    pub fn shutdown(&mut self, now: u64) -> (total: u64)
        requires
            old(self).wf(),
        ensures
            final(self).wf(),
            total == spec_elapsed(old(self).start_time, now),
            total >= 1,
            final(self).sequence == old(self).sequence,
            final(self).start_time == old(self).start_time,
            final(self).bars@.len() == old(self).bars@.len(),
            forall|i: int|
                0 <= i < old(self).bars@.len() && old(self).bars@[i].result is Some
                    ==> final(self).bars@[i] == old(self).bars@[i],
            forall|i: int|
                0 <= i < old(self).bars@.len() && old(self).bars@[i].result is None
                    ==> final(self).bars@[i] == (JobBarState {
                    result: Some(
                        (
                            OperationResult::Success,
                            spec_elapsed(old(self).bars@[i].start_time, now) as u64,
                        ),
                    ),
                    ..old(self).bars@[i]
                }),
            forall|i: int|
                0 <= i < final(self).bars@.len() ==> (#[trigger] final(self).bars@[i]).result
                    is Some,
    {
        let mut i: usize = 0;
        let n = self.bars.len();
        while i < n
            invariant
                self.wf(),
                n == self.bars@.len(),
                i <= n,
                self.sequence == old(self).sequence,
                self.start_time == old(self).start_time,
                self.bars@.len() == old(self).bars@.len(),
                forall|j: int|
                    0 <= j < old(self).bars@.len() && old(self).bars@[j].result is Some
                        ==> self.bars@[j] == old(self).bars@[j],
                forall|j: int| i <= j < old(self).bars@.len() ==> self.bars@[j] == old(self).bars@[j],
                forall|j: int|
                    0 <= j < i && old(self).bars@[j].result is None ==> self.bars@[j] == (
                    JobBarState {
                        result: Some(
                            (
                                OperationResult::Success,
                                spec_elapsed(old(self).bars@[j].start_time, now) as u64,
                            ),
                        ),
                        ..old(self).bars@[j]
                    }),
                forall|j: int| 0 <= j < i ==> (#[trigger] self.bars@[j]).result is Some,
            decreases n - i,
        {
            let running = self.bars[i].result.is_none();
            if running {
                let old_bar = &self.bars[i];
                let time = elapsed_secs(old_bar.start_time, now);
                let new_bar = JobBarState {
                    sequence: old_bar.sequence,
                    name: old_bar.name.clone(),
                    message: old_bar.message.clone(),
                    position: old_bar.position,
                    start_time: old_bar.start_time,
                    result: Some((OperationResult::Success, time)),
                };
                let ghost before = self.bars@;
                proof {
                    lemma_max_bar_time_update(self.bars@, i as int, new_bar);
                }
                self.bars.set(i, new_bar);
                let time_width = count_digits(time);
                proof {
                    lemma_num_digits_nmax(max_bar_time(before), time as nat);
                }
                if time_width > self.max_time_len {
                    self.max_time_len = time_width;
                }
                proof {
                    assert(self.bars@ =~= before.update(
                        i as int,
                        JobBarState {
                            result: Some((OperationResult::Success, time)),
                            ..before[i as int]
                        },
                    ));
                    assert forall|j: int| 0 <= j < self.bars@.len() implies (#[trigger] bar_time(
                        self.bars@[j],
                    )) <= max_bar_time(self.bars@) by {
                        if j != i {
                            assert(self.bars@[j] == before[j]);
                        }
                    }
                }
            }
            i += 1;
        }
        elapsed_secs(self.start_time, now)
    }
}

} // verus!
