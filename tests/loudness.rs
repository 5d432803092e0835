use wavehacker::analyzer::loudness::{BlockSchedule, Histogram, BIN_COUNT};
use wavehacker::error::Error;

#[test]
fn histogram_starts_empty() {
    let h = Histogram::new();
    assert!(h.is_empty());
    assert_eq!(h.blocks_from(0), 0);
    assert_eq!(h.count(BIN_COUNT - 1), 0);
}

#[test]
fn histogram_counts_blocks_in_range() {
    let mut h = Histogram::new();
    assert_eq!(h.record(10), Ok(true));
    assert_eq!(h.record(10), Ok(true));
    assert_eq!(h.record(7800), Ok(true));
    assert!(!h.is_empty());
    assert_eq!(h.count(10), 2);
    assert_eq!(h.count(7800), 1);
    assert_eq!(h.blocks_from(0), 3);
    assert_eq!(h.blocks_from(11), 1);
    assert_eq!(h.blocks_from(7801), 0);
}

#[test]
fn histogram_discards_blocks_below_gate() {
    let mut h = Histogram::new();
    assert_eq!(h.record(-1), Ok(false));
    assert_eq!(h.record(isize::MIN), Ok(false));
    assert!(h.is_empty());
}

#[test]
fn histogram_rejects_overload() {
    let mut h = Histogram::new();
    assert_eq!(h.record(7801), Err(Error::Denormalized));
    assert_eq!(h.record(isize::MAX), Err(Error::Denormalized));
    assert!(h.is_empty());
}

#[test]
fn block_schedule_commits_on_overlap_with_full_block() {
    // Blocks of 4 samples, committed every 2 samples once 4 are buffered.
    let mut schedule = BlockSchedule::new(4, 2);
    let mut buffered = 0usize;
    let mut commits = vec![];
    for step in 1..=12 {
        buffered += 1;
        if schedule.push(buffered) {
            commits.push(step);
            buffered -= schedule.commit(buffered);
        }
    }
    assert_eq!(commits, vec![4, 8, 12]);
    assert_eq!(buffered, 0);
}

#[test]
fn block_schedule_restarts_counter_at_block_size() {
    // Block of 3, overlap 2: after a commit the counter is 3, so the next
    // multiple of 2 comes after one sample, but the buffer is not full yet.
    let mut schedule = BlockSchedule::new(3, 2);
    let decisions: Vec<bool> = (1..=4).map(|n| schedule.push(n)).collect();
    assert_eq!(decisions, vec![false, false, false, true]);
    assert_eq!(schedule.commit(4), 3);
    assert!(!schedule.push(2));
    assert!(!schedule.push(3));
    assert!(schedule.push(4));
}

#[test]
fn forced_commit_drains_short_buffer() {
    let mut schedule = BlockSchedule::new(10, 5);
    assert!(!schedule.push(1));
    assert_eq!(schedule.commit(1), 1);
}

#[test]
fn silent_blocks_leave_no_gated_blocks() {
    // Silence gives blocks of energy zero, whose bin index lies below the
    // absolute threshold: nothing is counted, and the forced commit at the
    // end of a short stream counts nothing either.
    let mut h = Histogram::new();
    for _ in 0..5 {
        assert_eq!(h.record(isize::MIN), Ok(false));
    }
    assert!(h.is_empty());
    assert_eq!(h.record(isize::MIN), Ok(false));
    assert_eq!(h.blocks_from(0), 0);
}
