//! The event counts of one benchmark run and what they add up to.
use vstd::prelude::*;

verus! {

/// How many kinds of events are counted.
pub const EVENTS: usize = 9;

/// The number of instructions and cache events that callgrind counted.
#[derive(Clone, Copy, Debug, PartialEq, Eq, Structural)]
pub struct CallgrindStats {
    /// Ir: equals the number of instructions executed
    pub l1_instructions_cache_reads: u64,
    /// I1mr: I1 cache read misses
    pub l1_instructions_cache_read_misses: u64,
    /// ILmr: LL cache instruction read misses
    pub l3_instructions_cache_misses: u64,
    /// Dr: Memory reads
    pub total_data_cache_reads: u64,
    /// D1mr: D1 cache read misses
    pub l1_data_cache_read_misses: u64,
    /// DLmr: LL cache data read misses
    pub l3_data_cache_read_misses: u64,
    /// Dw: Memory writes
    pub total_data_cache_writes: u64,
    /// D1mw: D1 cache write misses
    pub l1_data_cache_write_misses: u64,
    /// DLmw: LL cache data write misses
    pub l3_data_cache_write_misses: u64,
}

/// What the event counts of a run add up to.
#[derive(Clone, Copy, Debug, PartialEq, Eq, Structural)]
pub struct CallgrindSummary {
    /// Instructions executed
    pub l1_instructions: u64,
    /// Data accesses that the first level cache answered
    pub l1_data_hits: u64,
    /// Accesses that the last level cache answered
    pub l3_hits: u64,
    /// Accesses that went to main memory
    pub ram_hits: u64,
    /// All accesses together
    pub total_memory_rw: u64,
    /// An estimate of the processor cycles spent
    pub cycles: u64,
}

impl CallgrindStats {
    /// The counts in the order in which callgrind writes them:
    /// Ir Dr Dw I1mr D1mr D1mw ILmr DLmr DLmw.
    pub open spec fn counters(self) -> Seq<u64> {
        seq![
            self.l1_instructions_cache_reads,
            self.total_data_cache_reads,
            self.total_data_cache_writes,
            self.l1_instructions_cache_read_misses,
            self.l1_data_cache_read_misses,
            self.l1_data_cache_write_misses,
            self.l3_instructions_cache_misses,
            self.l3_data_cache_read_misses,
            self.l3_data_cache_write_misses,
        ]
    }

    /// Takes the counts from the order in which callgrind writes them.
    pub fn from_counters(counters: &[u64; EVENTS]) -> (stats: Self)
        ensures
            stats.counters() == counters@,
            stats.l1_instructions_cache_reads == counters@[0],
            stats.total_data_cache_reads == counters@[1],
            stats.total_data_cache_writes == counters@[2],
            stats.l1_instructions_cache_read_misses == counters@[3],
            stats.l1_data_cache_read_misses == counters@[4],
            stats.l1_data_cache_write_misses == counters@[5],
            stats.l3_instructions_cache_misses == counters@[6],
            stats.l3_data_cache_read_misses == counters@[7],
            stats.l3_data_cache_write_misses == counters@[8],
    {
        let stats = CallgrindStats {
            l1_instructions_cache_reads: counters[0],
            total_data_cache_reads: counters[1],
            total_data_cache_writes: counters[2],
            l1_instructions_cache_read_misses: counters[3],
            l1_data_cache_read_misses: counters[4],
            l1_data_cache_write_misses: counters[5],
            l3_instructions_cache_misses: counters[6],
            l3_data_cache_read_misses: counters[7],
            l3_data_cache_write_misses: counters[8],
        };
        assert(stats.counters() =~= counters@);
        stats
    }

    /// Accesses that missed the last level cache.
    pub open spec fn ram_hits(self) -> int {
        self.l3_instructions_cache_misses + self.l3_data_cache_read_misses
            + self.l3_data_cache_write_misses
    }

    /// Accesses that missed the first level caches.
    pub open spec fn l1_misses(self) -> int {
        self.l1_instructions_cache_read_misses + self.l1_data_cache_read_misses
            + self.l1_data_cache_write_misses
    }

    /// Accesses that missed the first level caches, but not the last level cache.
    pub open spec fn l3_hits(self) -> int {
        self.l1_misses() - self.ram_hits()
    }

    /// Instructions read, data read and data written.
    pub open spec fn total_memory_rw(self) -> int {
        self.l1_instructions_cache_reads + self.total_data_cache_reads
            + self.total_data_cache_writes
    }

    /// Accesses beyond the instructions that the first level caches answered.
    pub open spec fn l1_data_hits(self) -> int {
        self.total_memory_rw() - self.l1_instructions_cache_reads - self.l1_misses()
    }

    /// The estimate of the cycles: one for each instruction and first level hit, five for a last
    /// level hit and 35 for an access to main memory.
    pub open spec fn cycles(self) -> int {
        self.l1_instructions_cache_reads + self.l1_data_hits() + 5 * self.l3_hits() + 35
            * self.ram_hits()
    }

    /// Whether the counts fit each other: no level of the memory misses more often than it is
    /// asked, and every sum is a number of 64 bits.
    pub open spec fn consistent(self) -> bool {
        &&& self.ram_hits() <= self.l1_misses() <= u64::MAX
        &&& self.l1_misses() <= self.total_data_cache_reads + self.total_data_cache_writes
        &&& self.total_memory_rw() <= u64::MAX
        &&& self.cycles() <= u64::MAX
    }

    /// Whether these counts can be summarized.
    pub fn is_consistent(&self) -> (yes: bool)
        ensures
            yes == self.consistent(),
    {
        let limit: u128 = u64::MAX as u128;
        let ram_hits: u128 = self.l3_instructions_cache_misses as u128
            + self.l3_data_cache_read_misses as u128 + self.l3_data_cache_write_misses as u128;
        let l1_misses: u128 = self.l1_instructions_cache_read_misses as u128
            + self.l1_data_cache_read_misses as u128 + self.l1_data_cache_write_misses as u128;
        let data: u128 = self.total_data_cache_reads as u128 + self.total_data_cache_writes as u128;
        if ram_hits > l1_misses || l1_misses > limit || l1_misses > data {
            return false;
        }
        let instructions: u128 = self.l1_instructions_cache_reads as u128;
        let cycles: u128 = instructions + (data - l1_misses) + 5 * (l1_misses - ram_hits) + 35
            * ram_hits;
        instructions + data <= limit && cycles <= limit
    }

    /// Adds the counts up.
    pub fn summarize(&self) -> (summary: CallgrindSummary)
        requires
            self.consistent(),
        ensures
            summary.l1_instructions == self.l1_instructions_cache_reads,
            summary.l1_data_hits == self.l1_data_hits(),
            summary.l3_hits == self.l3_hits(),
            summary.ram_hits == self.ram_hits(),
            summary.total_memory_rw == self.total_memory_rw(),
            summary.cycles == self.cycles(),
            summary.ram_hits == self.l3_instructions_cache_misses + self.l3_data_cache_read_misses
                + self.l3_data_cache_write_misses,
            summary.l3_hits + summary.ram_hits == self.l1_instructions_cache_read_misses
                + self.l1_data_cache_read_misses + self.l1_data_cache_write_misses,
            summary.l1_data_hits + summary.l3_hits + summary.ram_hits
                == self.total_data_cache_reads + self.total_data_cache_writes,
            summary.total_memory_rw == summary.l1_instructions + summary.l1_data_hits
                + summary.l3_hits + summary.ram_hits,
            summary.cycles == summary.l1_instructions + summary.l1_data_hits + 5 * summary.l3_hits
                + 35 * summary.ram_hits,
    {
        let ram_hits: u64 = self.l3_instructions_cache_misses + self.l3_data_cache_read_misses
            + self.l3_data_cache_write_misses;
        let l1_data_accesses: u64 = self.l1_data_cache_read_misses
            + self.l1_data_cache_write_misses;
        let l1_miss: u64 = self.l1_instructions_cache_read_misses + l1_data_accesses;
        let l3_accesses: u64 = l1_miss;
        let l3_hits: u64 = l3_accesses - ram_hits;

        let total_memory_rw: u64 = self.l1_instructions_cache_reads + self.total_data_cache_reads
            + self.total_data_cache_writes;
        let l1_data_hits: u64 = total_memory_rw - self.l1_instructions_cache_reads - (ram_hits
            + l3_hits);

        // Itamar Turner-Trauring's formula from
        // https://pythonspeed.com/articles/consistent-benchmarking-in-ci/
        let cycles: u64 = self.l1_instructions_cache_reads + l1_data_hits + (5 * l3_hits) + (35
            * ram_hits);

        CallgrindSummary {
            l1_instructions: self.l1_instructions_cache_reads,
            l1_data_hits,
            l3_hits,
            ram_hits,
            total_memory_rw,
            cycles,
        }
    }
}

/// Every access is answered in exactly one place: the instruction reads, the first level data
/// hits, the last level hits and the accesses to main memory add up to all accesses.
pub proof fn lemma_accesses_add_up(stats: CallgrindStats)
    ensures
        stats.total_memory_rw() == stats.l1_data_hits() + stats.l1_instructions_cache_reads
            + stats.l3_hits() + stats.ram_hits(),
{
}

/// The cycle estimate of consistent counts is at least the number of accesses, and no more than
/// 35 times that number.
pub proof fn lemma_cycles_bounds(stats: CallgrindStats)
    requires
        stats.consistent(),
    ensures
        stats.total_memory_rw() <= stats.cycles() <= 35 * stats.total_memory_rw(),
{
}

/// The counts in the order of callgrind are all of the counts, each in its place.
pub proof fn lemma_counters_in_order(stats: CallgrindStats)
    ensures
        stats.counters().len() == 9,
        stats.counters()[0] == stats.l1_instructions_cache_reads,
        stats.counters()[1] == stats.total_data_cache_reads,
        stats.counters()[2] == stats.total_data_cache_writes,
        stats.counters()[3] == stats.l1_instructions_cache_read_misses,
        stats.counters()[4] == stats.l1_data_cache_read_misses,
        stats.counters()[5] == stats.l1_data_cache_write_misses,
        stats.counters()[6] == stats.l3_instructions_cache_misses,
        stats.counters()[7] == stats.l3_data_cache_read_misses,
        stats.counters()[8] == stats.l3_data_cache_write_misses,
{
}

/// What each count adds to the cycle estimate, whatever the other counts are: one cycle for an
/// instruction read or a data access, four more for a miss in the first level, which the last
/// level has to answer, and 30 more for a miss in the last level.
pub proof fn lemma_cycles_are_linear(stats: CallgrindStats, other: CallgrindStats)
    ensures
        other.cycles() - stats.cycles() == (other.l1_instructions_cache_reads
            - stats.l1_instructions_cache_reads) + (other.total_data_cache_reads
            - stats.total_data_cache_reads) + (other.total_data_cache_writes
            - stats.total_data_cache_writes) + 4 * (other.l1_instructions_cache_read_misses
            - stats.l1_instructions_cache_read_misses) + 4 * (other.l1_data_cache_read_misses
            - stats.l1_data_cache_read_misses) + 4 * (other.l1_data_cache_write_misses
            - stats.l1_data_cache_write_misses) + 30 * (other.l3_instructions_cache_misses
            - stats.l3_instructions_cache_misses) + 30 * (other.l3_data_cache_read_misses
            - stats.l3_data_cache_read_misses) + 30 * (other.l3_data_cache_write_misses
            - stats.l3_data_cache_write_misses),
{
}

/// Without any event there are no cycles.
pub proof fn lemma_no_events_no_cycles(stats: CallgrindStats)
    requires
        forall|i: int| 0 <= i < 9 ==> #[trigger] stats.counters()[i] == 0,
    ensures
        stats.cycles() == 0,
        stats.total_memory_rw() == 0,
        stats.consistent(),
{
    lemma_counters_in_order(stats);
    assert(stats.counters()[0] == 0 && stats.counters()[1] == 0 && stats.counters()[2] == 0);
    assert(stats.counters()[3] == 0 && stats.counters()[4] == 0 && stats.counters()[5] == 0);
    assert(stats.counters()[6] == 0 && stats.counters()[7] == 0 && stats.counters()[8] == 0);
}

/// Where each access was answered, in terms of the counts alone.
pub proof fn lemma_hits_from_counts(stats: CallgrindStats)
    ensures
        stats.ram_hits() == stats.l3_instructions_cache_misses + stats.l3_data_cache_read_misses
            + stats.l3_data_cache_write_misses,
        stats.l3_hits() + stats.ram_hits() == stats.l1_instructions_cache_read_misses
            + stats.l1_data_cache_read_misses + stats.l1_data_cache_write_misses,
        stats.l1_data_hits() + stats.l3_hits() + stats.ram_hits() == stats.total_data_cache_reads
            + stats.total_data_cache_writes,
        stats.total_memory_rw() == stats.l1_instructions_cache_reads
            + stats.total_data_cache_reads + stats.total_data_cache_writes,
{
}

/// Counts can be summarized exactly where nothing in the summary falls below zero and the sums
/// are numbers of 64 bits.
pub proof fn lemma_consistent_iff_summary_fits(stats: CallgrindStats)
    ensures
        stats.consistent() <==> {
            let ram_hits = stats.l3_instructions_cache_misses + stats.l3_data_cache_read_misses
                + stats.l3_data_cache_write_misses;
            let l1_misses = stats.l1_instructions_cache_read_misses
                + stats.l1_data_cache_read_misses + stats.l1_data_cache_write_misses;
            let data = stats.total_data_cache_reads + stats.total_data_cache_writes;
            let l3_hits = l1_misses - ram_hits;
            let l1_data_hits = data - l1_misses;
            &&& l3_hits >= 0
            &&& l1_data_hits >= 0
            &&& stats.l1_instructions_cache_reads + data <= u64::MAX
            &&& stats.l1_instructions_cache_reads + l1_data_hits + 5 * l3_hits + 35 * ram_hits
                <= u64::MAX
        },
{
}

} // verus!
