//! Rendering of the tracker's display: the prefix line of every bar while
//! running, when finished, and in the final summary with its proportional
//! time-usage bar; and the closing total line.  Every rendered string is
//! pinned down, character for character, by the specification functions
//! here.

use vstd::prelude::*;
use crate::decimal::{
    count_digits, dec_rep, lemma_num_digits_mono, lemma_padded_len, num_digits,
    pad_u64, padded_dec, u64_string,
};
use crate::tracker::{
    bar_time, max_bar_time, result_label, spec_elapsed, JobBarState, OperationResult, Tracker,
};

verus! {

/// The prefix of a still-running bar: `[seq/total][....][job]`.
pub open spec fn running_prefix(k: nat, seqno: nat, name: Seq<char>) -> Seq<char> {
    "["@ + padded_dec(k, num_digits(seqno)) + "/"@ + dec_rep(seqno) + "][....]["@ + name + "]"@
}

/// The prefix of a finished bar: `[seq/total][result][time s][job].`.
pub open spec fn finished_prefix(
    k: nat,
    seqno: nat,
    res: OperationResult,
    time: nat,
    time_width: nat,
    name: Seq<char>,
) -> Seq<char> {
    "["@ + padded_dec(k, num_digits(seqno)) + "/"@ + dec_rep(seqno) + "]["@ + result_label(res)
        + "]["@ + padded_dec(time, time_width) + "s]["@ + name + "]."@
}

/// The five cells of the proportional time-usage bar: cell `i` is filled
/// iff `i` does not exceed `(time * 5) / total`.
pub open spec fn time_cells(time: nat, total: nat) -> Seq<char> {
    Seq::new(5, |i: int| if i <= (time * 5) as int / (total as int) { '\u{2588}' } else { '\u{2591}' })
}

/// The prefix of a finished bar in the final summary, with the time-usage
/// bar before the elapsed time: `[seq/total][result][cells time s][job].`.
pub open spec fn summary_prefix(
    k: nat,
    seqno: nat,
    res: OperationResult,
    time: nat,
    time_width: nat,
    total: nat,
    name: Seq<char>,
) -> Seq<char> {
    "["@ + padded_dec(k, num_digits(seqno)) + "/"@ + dec_rep(seqno) + "]["@ + result_label(res)
        + "]["@ + time_cells(time, total) + " "@ + padded_dec(time, time_width) + "s]["@ + name
        + "]."@
}

/// The prefix a bar displays, by its state and by whether a final summary
/// (with its total run time) is being rendered.
pub open spec fn bar_prefix(
    bar: JobBarState,
    seqno: nat,
    time_width: nat,
    total: Option<nat>,
) -> Seq<char> {
    match bar.result {
        None => running_prefix(bar.sequence as nat, seqno, bar.name@),
        Some((res, time)) => match total {
            None => finished_prefix(
                bar.sequence as nat,
                seqno,
                res,
                time as nat,
                time_width,
                bar.name@,
            ),
            Some(tot) => summary_prefix(
                bar.sequence as nat,
                seqno,
                res,
                time as nat,
                time_width,
                tot,
                bar.name@,
            ),
        },
    }
}

/// The closing line of the summary: `[total] done all in Ns.`.
pub open spec fn total_line(total: nat) -> Seq<char> {
    "[total] done all in "@ + dec_rep(total) + "s."@
}

/// Renders the five cells of the time-usage bar.
fn render_time_cells(time: u64, total: u64) -> (r: String)
    requires
        total >= 1,
    ensures
        r@ == time_cells(time as nat, total as nat),
{
    let limit: u128 = (time as u128) * 5 / (total as u128);
    let mut s = String::new();
    let mut i: usize = 0;
    while i < 5
        invariant
            i <= 5,
            limit == (time as nat * 5) as int / (total as int),
            s@ =~= time_cells(time as nat, total as nat).subrange(0, i as int),
        decreases 5 - i,
    {
        let filled = (i as u128) <= limit;
        if filled {
            s.append("\u{2588}");
        } else {
            s.append("\u{2591}");
        }
        proof {
            reveal_strlit("\u{2588}");
            reveal_strlit("\u{2591}");
            assert(s@ =~= time_cells(time as nat, total as nat).subrange(0, i + 1 as int));
        }
        i += 1;
    }
    proof {
        assert(time_cells(time as nat, total as nat).subrange(0, 5) =~= time_cells(
            time as nat,
            total as nat,
        ));
    }
    s
}

/// Renders the closing total line.
pub fn render_total_line(total: u64) -> (r: String)
    ensures
        r@ == total_line(total as nat),
{
    let mut s = "[total] done all in ".to_owned();
    let t = u64_string(total);
    s.append(t.as_str());
    s.append("s.");
    proof {
        assert(s@ =~= total_line(total as nat));
    }
    s
}

/// Renders the prefix of one bar.
pub fn render_bar_prefix(
    bar: &JobBarState,
    seqno: usize,
    time_width: usize,
    total_time: Option<u64>,
) -> (r: String)
    requires
        total_time matches Some(t) ==> t >= 1,
    ensures
        r@ == bar_prefix(
            *bar,
            seqno as nat,
            time_width as nat,
            match total_time {
                Some(t) => Some(t as nat),
                None => None,
            },
        ),
{
    let mut s = "[".to_owned();
    let seq_width = count_digits(seqno as u64);
    let padded_seq = pad_u64(bar.sequence as u64, seq_width);
    s.append(padded_seq.as_str());
    s.append("/");
    let seq_txt = u64_string(seqno as u64);
    s.append(seq_txt.as_str());
    match &bar.result {
        None => {
            s.append("][....][");
            s.append(bar.name.as_str());
            s.append("]");
            proof {
                assert(s@ =~= running_prefix(bar.sequence as nat, seqno as nat, bar.name@));
            }
        }
        Some((res, time)) => {
            s.append("][");
            s.append(res.as_label());
            s.append("][");
            match total_time {
                Some(tot) => {
                    let cells = render_time_cells(*time, tot);
                    s.append(cells.as_str());
                    s.append(" ");
                    let padded_time = pad_u64(*time, time_width);
                    s.append(padded_time.as_str());
                    s.append("s][");
                    s.append(bar.name.as_str());
                    s.append("].");
                    proof {
                        assert(s@ =~= summary_prefix(
                            bar.sequence as nat,
                            seqno as nat,
                            *res,
                            *time as nat,
                            time_width as nat,
                            tot as nat,
                            bar.name@,
                        ));
                    }
                }
                None => {
                    let padded_time = pad_u64(*time, time_width);
                    s.append(padded_time.as_str());
                    s.append("s][");
                    s.append(bar.name.as_str());
                    s.append("].");
                    proof {
                        assert(s@ =~= finished_prefix(
                            bar.sequence as nat,
                            seqno as nat,
                            *res,
                            *time as nat,
                            time_width as nat,
                            bar.name@,
                        ));
                    }
                }
            }
        }
    }
    s
}

impl Tracker {
    /// The display refresh: the prefix line of every bar, in bar order,
    /// each with its sequence number; with a total run time given, the
    /// summary form with the time-usage bar is rendered instead.
    pub fn refresh_all_bars(&self, total_time: Option<u64>) -> (r: Vec<(usize, String)>)
        requires
            self.wf(),
            total_time matches Some(t) ==> t >= 1,
        ensures
            r@.len() == self.bars@.len(),
            forall|i: int|
                0 <= i < r@.len() ==> (#[trigger] r@[i]).0 == self.bars@[i].sequence && r@[i].1@
                    == bar_prefix(
                    self.bars@[i],
                    self.sequence as nat,
                    self.max_time_len as nat,
                    match total_time {
                        Some(t) => Some(t as nat),
                        None => None,
                    },
                ),
    {
        let mut r: Vec<(usize, String)> = Vec::new();
        let mut i: usize = 0;
        let n = self.bars.len();
        while i < n
            invariant
                self.wf(),
                n == self.bars@.len(),
                i <= n,
                total_time matches Some(t) ==> t >= 1,
                r@.len() == i,
                forall|j: int|
                    0 <= j < i ==> (#[trigger] r@[j]).0 == self.bars@[j].sequence && r@[j].1@
                        == bar_prefix(
                        self.bars@[j],
                        self.sequence as nat,
                        self.max_time_len as nat,
                        match total_time {
                            Some(t) => Some(t as nat),
                            None => None,
                        },
                    ),
            decreases n - i,
        {
            let bar = &self.bars[i];
            let prefix = render_bar_prefix(bar, self.sequence, self.max_time_len, total_time);
            r.push((bar.sequence, prefix));
            i += 1;
        }
        r
    }
}

/// The column-alignment law: once every bar has finished (as after the
/// final shutdown), the sequence field of every rendered prefix is exactly
/// as wide as the largest sequence number, and the time field exactly as
/// wide as the largest elapsed time.
pub proof fn lemma_column_alignment(t: Tracker)
    requires
        t.wf(),
        t.bars@.len() > 0,
        forall|i: int| 0 <= i < t.bars@.len() ==> (#[trigger] t.bars@[i]).result is Some,
    ensures
        t.max_time_len == num_digits(max_bar_time(t.bars@)),
        forall|i: int|
            0 <= i < t.bars@.len() ==> padded_dec(
                (#[trigger] t.bars@[i]).sequence as nat,
                num_digits(t.sequence as nat),
            ).len() == num_digits(t.sequence as nat),
        forall|i: int|
            0 <= i < t.bars@.len() ==> padded_dec(
                bar_time(#[trigger] t.bars@[i]),
                t.max_time_len as nat,
            ).len() == t.max_time_len,
{
    assert(bar_time(t.bars@[0]) >= 1);
    assert(max_bar_time(t.bars@) >= 1);
    assert forall|i: int| 0 <= i < t.bars@.len() implies padded_dec(
        (#[trigger] t.bars@[i]).sequence as nat,
        num_digits(t.sequence as nat),
    ).len() == num_digits(t.sequence as nat) by {
        let k = t.bars@[i].sequence as nat;
        lemma_num_digits_mono(k, t.sequence as nat);
        lemma_padded_len(k, num_digits(t.sequence as nat));
    }
    assert forall|i: int| 0 <= i < t.bars@.len() implies padded_dec(
        bar_time(#[trigger] t.bars@[i]),
        t.max_time_len as nat,
    ).len() == t.max_time_len by {
        lemma_num_digits_mono(bar_time(t.bars@[i]), max_bar_time(t.bars@));
        lemma_padded_len(bar_time(t.bars@[i]), t.max_time_len as nat);
    }
}

/// The event-ordering law: progress and message events issued before a
/// finish are reflected in the bar before the finished prefix is rendered
/// — the finish keeps the bar's accumulated position — and the finished
/// bar is terminal, so no later progress or message event applies to it.
pub proof fn lemma_events_before_finish(
    pre: Tracker,
    post: Tracker,
    sequence: usize,
    result: OperationResult,
    message: String,
    now: u64,
)
    requires
        pre.wf(),
        pre.running(sequence),
        post.bars@ == pre.bars@.update(
            sequence - 1,
            JobBarState {
                message,
                result: Some(
                    (result, spec_elapsed(pre.bars@[sequence - 1].start_time, now) as u64),
                ),
                ..pre.bars@[sequence - 1]
            },
        ),
    ensures
        post.bars@[sequence - 1].position == pre.bars@[sequence - 1].position,
        !post.running(sequence),
{
}

} // verus!
