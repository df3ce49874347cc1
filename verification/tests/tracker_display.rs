use dev_cli::decimal::{count_digits, pad_u64, u64_string};
use dev_cli::render::render_total_line;
use dev_cli::tracker::{OperationResult, Tracker};

#[test]
fn digit_counting() {
    assert_eq!(count_digits(0), 1);
    assert_eq!(count_digits(9), 1);
    assert_eq!(count_digits(10), 2);
    assert_eq!(count_digits(99), 2);
    assert_eq!(count_digits(100), 3);
    assert_eq!(count_digits(u64::MAX), 20);
}

#[test]
fn decimal_rendering() {
    assert_eq!(u64_string(0), "0");
    assert_eq!(u64_string(7), "7");
    assert_eq!(u64_string(42), "42");
    assert_eq!(u64_string(1234567890), "1234567890");
    assert_eq!(pad_u64(7, 3), "  7");
    assert_eq!(pad_u64(1234, 2), "1234");
    assert_eq!(pad_u64(5, 1), "5");
}

#[test]
fn result_labels() {
    assert_eq!(OperationResult::Success.as_label(), "done");
    assert_eq!(OperationResult::Failed.as_label(), "fail");
}

#[test]
fn start_assigns_increasing_sequence_numbers() {
    let mut tracker = Tracker::new(100);
    let a = tracker.start("Install Shared".to_string(), 100);
    let b = tracker.start("Build Shared".to_string(), 101);
    assert_eq!(a, 1);
    assert_eq!(b, 2);
    assert_eq!(tracker.bars.len(), 2);
    assert_eq!(tracker.bars[0].name, "Install Shared");
    assert_eq!(tracker.bars[1].name, "Build Shared");
}

#[test]
fn running_prefix_format() {
    let mut tracker = Tracker::new(0);
    tracker.start("Build Core".to_string(), 0);
    let prefixes = tracker.refresh_all_bars(None);
    assert_eq!(prefixes.len(), 1);
    assert_eq!(prefixes[0].0, 1);
    assert_eq!(prefixes[0].1, "[1/1][....][Build Core]");
}

#[test]
fn finished_prefix_format() {
    let mut tracker = Tracker::new(0);
    let seq = tracker.start("Build Core".to_string(), 0);
    tracker.start("Lint Cli".to_string(), 1);
    let applied = tracker.success(seq, "ok".to_string(), 5);
    assert!(applied);
    let prefixes = tracker.refresh_all_bars(None);
    assert_eq!(prefixes[0].1, "[1/2][done][5s][Build Core].");
    assert_eq!(prefixes[1].1, "[2/2][....][Lint Cli]");
}

#[test]
fn events_before_finish_are_reflected_and_done_is_terminal() {
    let mut tracker = Tracker::new(0);
    let seq = tracker.start("Test Wrapper".to_string(), 0);
    assert!(tracker.progress(seq, Some(3)));
    assert!(tracker.progress(seq, None));
    assert!(tracker.msg(seq, "running specs".to_string()));
    assert_eq!(tracker.bars[0].position, 4);
    assert_eq!(tracker.bars[0].message, "running specs");
    assert!(tracker.fail(seq, "specs failed".to_string(), 9));
    // The progress accumulated before the finish is still on the bar.
    assert_eq!(tracker.bars[0].position, 4);
    assert_eq!(tracker.bars[0].message, "specs failed");
    // A finished bar is terminal: later events are ignored silently.
    assert!(!tracker.progress(seq, Some(100)));
    assert!(!tracker.msg(seq, "late".to_string()));
    assert!(!tracker.success(seq, "late".to_string(), 10));
    assert_eq!(tracker.bars[0].position, 4);
    assert_eq!(tracker.bars[0].message, "specs failed");
}

#[test]
fn unknown_sequence_numbers_are_ignored() {
    let mut tracker = Tracker::new(0);
    assert!(!tracker.progress(1, Some(1)));
    assert!(!tracker.msg(0, "nobody".to_string()));
    let seq = tracker.start("Build Wasm".to_string(), 0);
    assert!(!tracker.progress(seq + 1, None));
}

#[test]
fn shutdown_finishes_running_bars_as_success() {
    let mut tracker = Tracker::new(0);
    let a = tracker.start("Build Shared".to_string(), 2);
    let b = tracker.start("Build Client".to_string(), 3);
    tracker.fail(a, "broken".to_string(), 4);
    let total = tracker.shutdown(10);
    assert_eq!(total, 10);
    assert_eq!(tracker.bars[0].result, Some((OperationResult::Failed, 2)));
    assert_eq!(tracker.bars[1].result, Some((OperationResult::Success, 7)));
    let _ = b;
}

#[test]
fn column_alignment_after_shutdown() {
    let mut tracker = Tracker::new(0);
    let a = tracker.start("fast".to_string(), 0);
    let b = tracker.start("slow".to_string(), 0);
    tracker.success(a, "ok".to_string(), 5);
    tracker.success(b, "ok".to_string(), 12);
    let total = tracker.shutdown(12);
    assert_eq!(total, 12);
    // The widest time has two digits, so every time field has two cells.
    assert_eq!(tracker.max_time_len, 2);
    let prefixes = tracker.refresh_all_bars(Some(total));
    // (5 * 5) / 12 = 2 cells filled up to index 2; (12 * 5) / 12 = 5, all filled.
    assert_eq!(prefixes[0].1, "[1/2][done][\u{2588}\u{2588}\u{2588}\u{2591}\u{2591}  5s][fast].");
    assert_eq!(prefixes[1].1, "[2/2][done][\u{2588}\u{2588}\u{2588}\u{2588}\u{2588} 12s][slow].");
}

#[test]
fn elapsed_time_is_floored_at_one_second() {
    let mut tracker = Tracker::new(0);
    let a = tracker.start("instant".to_string(), 4);
    tracker.success(a, "ok".to_string(), 4);
    assert_eq!(tracker.bars[0].result, Some((OperationResult::Success, 1)));
}

#[test]
fn total_line_format() {
    assert_eq!(render_total_line(7), "[total] done all in 7s.");
    assert_eq!(render_total_line(123), "[total] done all in 123s.");
}
