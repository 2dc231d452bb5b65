use iai_callgrind_runner::stats::{CallgrindStats, CallgrindSummary};

// Ir Dr Dw I1mr D1mr D1mw ILmr DLmr DLmw
const USUAL: [u64; 9] = [6808, 599, 469, 75, 37, 18, 70, 30, 10];

#[test]
fn usual_summary() {
    let stats = CallgrindStats::from_counters(&USUAL);
    assert!(stats.is_consistent());
    assert_eq!(
        stats.summarize(),
        CallgrindSummary {
            l1_instructions: 6808,
            l1_data_hits: 938,
            l3_hits: 20,
            ram_hits: 110,
            total_memory_rw: 7876,
            cycles: 6808 + 938 + 5 * 20 + 35 * 110,
        }
    );
}

#[test]
fn accesses_add_up() {
    let summary = CallgrindStats::from_counters(&USUAL).summarize();
    assert_eq!(
        summary.total_memory_rw,
        summary.l1_data_hits + summary.l1_instructions + summary.l3_hits + summary.ram_hits
    );
    assert!(summary.total_memory_rw <= summary.cycles);
    assert!(summary.cycles <= 35 * summary.total_memory_rw);
}

#[test]
fn zero_is_consistent() {
    let stats = CallgrindStats::from_counters(&[0; 9]);
    assert!(stats.is_consistent());
    assert_eq!(stats.summarize().cycles, 0);
}

#[test]
fn inconsistent_counts() {
    let max = u64::MAX;
    for counters in [
        // more misses in the last level than in the first
        [100, 10, 10, 1, 1, 1, 2, 1, 1],
        // more misses in the first level than data accesses
        [100, 1, 1, 1, 1, 1, 0, 0, 0],
        // sums that are too large
        [max, 1, 0, 0, 0, 0, 0, 0, 0],
        [0, max, 1, 0, 0, 0, 0, 0, 0],
        [0, max, max, max, 1, 0, 0, 0, 0],
        [0, max, max, max, max, max, max, max, max],
        [max - 1, 1, 0, 1, 0, 0, 0, 0, 0],
    ] {
        assert!(!CallgrindStats::from_counters(&counters).is_consistent(), "{:?}", counters);
    }
    let largest = CallgrindStats::from_counters(&[max - 1, 1, 0, 0, 0, 0, 0, 0, 0]);
    assert!(largest.is_consistent());
    assert_eq!(largest.summarize().cycles, max);
}
