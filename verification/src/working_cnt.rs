//! The counters of one reporting period.

use std::time::Duration;
use vstd::prelude::*;

verus! {

/// The length of a duration in nanoseconds, as `Duration::as_nanos` gives it.
pub uninterp spec fn duration_nanos(d: Duration) -> nat;

/// The nanoseconds of the longest duration there is: `u64::MAX` seconds and
/// 999,999,999 nanoseconds.
pub open spec fn max_duration_nanos() -> nat {
    18_446_744_073_709_551_615 * 1_000_000_000 + 999_999_999
}

/// `Duration::ZERO`: the duration of no time at all.
#[verifier::external_body]
fn zero_duration() -> (d: Duration)
    ensures
        duration_nanos(d) == 0,
{
    Duration::ZERO
}

/// `Duration::MAX`: the longest duration there is.
#[verifier::external_body]
fn max_duration() -> (d: Duration)
    ensures
        duration_nanos(d) == max_duration_nanos(),
{
    Duration::MAX
}

/// `>` on two durations: the longer one is the greater.
#[verifier::external_body]
fn is_longer(a: Duration, b: Duration) -> (r: bool)
    ensures
        r == (duration_nanos(a) > duration_nanos(b)),
{
    a > b
}

/// `+` on two durations, which panics when the sum is longer than
/// `Duration::MAX`: such pairs are left out.
#[verifier::external_body]
fn add_durations(a: Duration, b: Duration) -> (sum: Duration)
    requires
        duration_nanos(a) + duration_nanos(b) <= max_duration_nanos(),
    ensures
        duration_nanos(sum) == duration_nanos(a) + duration_nanos(b),
{
    a + b
}

/// `Duration::checked_add`: the sum of two durations, or `None` where it
/// would be longer than `Duration::MAX`.
#[verifier::external_body]
fn checked_add_durations(a: Duration, b: Duration) -> (sum: Option<Duration>)
    ensures
        match sum {
            Some(d) => duration_nanos(d) == duration_nanos(a) + duration_nanos(b)
                && duration_nanos(d) <= max_duration_nanos(),
            None => duration_nanos(a) + duration_nanos(b) > max_duration_nanos(),
        },
{
    a.checked_add(b)
}

/// What was counted since the last report.
pub struct WorkingCnt {
    pub select_cnt: u32,
    pub add_cnt: u32,
    pub add_doc_cnt: usize,
    pub err_cnt: u32,
    pub add_duration_time_total: Duration,
    pub add_duration_time_min: Duration,
    /// The slowest update, with its number of documents and its body size.
    pub add_duration_time_max: (Duration, usize, usize),
    pub add_bytes_total: usize,
    pub select_duration_time_total: Duration,
    pub select_duration_time_min: Duration,
    pub select_duration_time_max: Duration,
    pub cache_hit_cnt: u32,
    pub cache_miss_cnt: u32,
    pub seed_id_insert_cnt: u32,
}

impl WorkingCnt {
    /// The state at the start of a period: nothing counted, no time spent,
    /// and the minima at the longest duration so that any request lowers them.
    pub open spec fn is_fresh(&self) -> bool {
        &&& self.select_cnt == 0
        &&& self.add_cnt == 0
        &&& self.add_doc_cnt == 0
        &&& self.err_cnt == 0
        &&& duration_nanos(self.add_duration_time_total) == 0
        &&& duration_nanos(self.add_duration_time_min) == max_duration_nanos()
        &&& duration_nanos(self.add_duration_time_max.0) == 0
        &&& self.add_duration_time_max.1 == 0
        &&& self.add_duration_time_max.2 == 0
        &&& self.add_bytes_total == 0
        &&& duration_nanos(self.select_duration_time_total) == 0
        &&& duration_nanos(self.select_duration_time_min) == max_duration_nanos()
        &&& duration_nanos(self.select_duration_time_max) == 0
        &&& self.cache_hit_cnt == 0
        &&& self.cache_miss_cnt == 0
        &&& self.seed_id_insert_cnt == 0
    }

    pub fn new() -> (cnt: Self)
        ensures
            cnt.is_fresh(),
    {
        Self {
            select_cnt: 0,
            add_cnt: 0,
            add_doc_cnt: 0,
            err_cnt: 0,
            add_duration_time_total: zero_duration(),
            add_duration_time_min: max_duration(),
            add_duration_time_max: (zero_duration(), 0, 0),
            add_bytes_total: 0,
            select_duration_time_total: zero_duration(),
            select_duration_time_min: max_duration(),
            select_duration_time_max: zero_duration(),
            cache_hit_cnt: 0,
            cache_miss_cnt: 0,
            seed_id_insert_cnt: 0,
        }
    }

    /// Whether one more query that took `duration` can be counted.
    pub open spec fn can_record_select(&self, duration: Duration) -> bool {
        &&& self.select_cnt < u32::MAX
        &&& duration_nanos(self.select_duration_time_total) + duration_nanos(duration)
            <= max_duration_nanos()
    }

    /// `after` is what the counters are once one query that took `duration`
    /// has been counted: one more query, its time added to the total, and the
    /// shortest and the longest time lowered or raised to it.
    pub open spec fn select_recorded(&self, duration: Duration, after: WorkingCnt) -> bool {
        &&& after.select_cnt == self.select_cnt + 1
        &&& duration_nanos(after.select_duration_time_total) == duration_nanos(
            self.select_duration_time_total,
        ) + duration_nanos(duration)
        &&& after.select_duration_time_min == if duration_nanos(self.select_duration_time_min)
            > duration_nanos(duration) {
            duration
        } else {
            self.select_duration_time_min
        }
        &&& after.select_duration_time_max == if duration_nanos(duration) > duration_nanos(
            self.select_duration_time_max,
        ) {
            duration
        } else {
            self.select_duration_time_max
        }
        &&& after == (WorkingCnt {
            select_cnt: after.select_cnt,
            select_duration_time_total: after.select_duration_time_total,
            select_duration_time_min: after.select_duration_time_min,
            select_duration_time_max: after.select_duration_time_max,
            ..*self
        })
    }

    /// Counts one query that took `duration`.
    pub fn record_select(&mut self, duration: Duration)
        requires
            old(self).can_record_select(duration),
        ensures
            old(self).select_recorded(duration, *final(self)),
    {
        self.select_cnt = self.select_cnt + 1;
        self.select_duration_time_total = add_durations(self.select_duration_time_total, duration);
        if is_longer(self.select_duration_time_min, duration) {
            self.select_duration_time_min = duration;
        }
        if is_longer(duration, self.select_duration_time_max) {
            self.select_duration_time_max = duration;
        }
    }

    /// Counts one query that took `duration` where the counters can take
    /// it, and says whether they could. Where they cannot, nothing changes.
    pub fn try_record_select(&mut self, duration: Duration) -> (done: bool)
        ensures
            done == old(self).can_record_select(duration),
            done ==> old(self).select_recorded(duration, *final(self)),
            !done ==> *final(self) == *old(self),
    {
        if self.select_cnt == u32::MAX {
            return false;
        }
        match checked_add_durations(self.select_duration_time_total, duration) {
            Some(_) => {
                self.record_select(duration);
                true
            },
            None => false,
        }
    }

    /// Whether one more update of `doc_cnt` documents and `bytes_len` bytes
    /// that took `duration` can be counted.
    pub open spec fn can_record_update(
        &self,
        duration: Duration,
        doc_cnt: usize,
        bytes_len: usize,
    ) -> bool {
        &&& self.add_cnt < u32::MAX
        &&& self.add_doc_cnt + doc_cnt <= usize::MAX
        &&& self.add_bytes_total + bytes_len <= usize::MAX
        &&& duration_nanos(self.add_duration_time_total) + duration_nanos(duration)
            <= max_duration_nanos()
    }

    /// `after` is what the counters are once one update of `doc_cnt`
    /// documents and `bytes_len` bytes that took `duration` has been counted.
    /// Where it is the slowest so far, its size is kept with its duration.
    pub open spec fn update_recorded(
        &self,
        duration: Duration,
        doc_cnt: usize,
        bytes_len: usize,
        after: WorkingCnt,
    ) -> bool {
        &&& after.add_cnt == self.add_cnt + 1
        &&& after.add_doc_cnt == self.add_doc_cnt + doc_cnt
        &&& after.add_bytes_total == self.add_bytes_total + bytes_len
        &&& duration_nanos(after.add_duration_time_total) == duration_nanos(
            self.add_duration_time_total,
        ) + duration_nanos(duration)
        &&& after.add_duration_time_min == if duration_nanos(self.add_duration_time_min)
            > duration_nanos(duration) {
            duration
        } else {
            self.add_duration_time_min
        }
        &&& after.add_duration_time_max == if duration_nanos(duration) > duration_nanos(
            self.add_duration_time_max.0,
        ) {
            (duration, doc_cnt, bytes_len)
        } else {
            self.add_duration_time_max
        }
        &&& after == (WorkingCnt {
            add_cnt: after.add_cnt,
            add_doc_cnt: after.add_doc_cnt,
            add_bytes_total: after.add_bytes_total,
            add_duration_time_total: after.add_duration_time_total,
            add_duration_time_min: after.add_duration_time_min,
            add_duration_time_max: after.add_duration_time_max,
            ..*self
        })
    }

    /// Counts one update of `doc_cnt` documents and `bytes_len` bytes that
    /// took `duration`.
    pub fn record_update(&mut self, duration: Duration, doc_cnt: usize, bytes_len: usize)
        requires
            old(self).can_record_update(duration, doc_cnt, bytes_len),
        ensures
            old(self).update_recorded(duration, doc_cnt, bytes_len, *final(self)),
    {
        self.add_cnt = self.add_cnt + 1;
        self.add_doc_cnt = self.add_doc_cnt + doc_cnt;
        self.add_duration_time_total = add_durations(self.add_duration_time_total, duration);
        self.add_bytes_total = self.add_bytes_total + bytes_len;
        if is_longer(self.add_duration_time_min, duration) {
            self.add_duration_time_min = duration;
        }
        if is_longer(duration, self.add_duration_time_max.0) {
            self.add_duration_time_max = (duration, doc_cnt, bytes_len);
        }
    }

    /// Counts one update where the counters can take it, and says whether
    /// they could. Where they cannot, nothing changes.
    pub fn try_record_update(&mut self, duration: Duration, doc_cnt: usize, bytes_len: usize) -> (done:
        bool)
        ensures
            done == old(self).can_record_update(duration, doc_cnt, bytes_len),
            done ==> old(self).update_recorded(duration, doc_cnt, bytes_len, *final(self)),
            !done ==> *final(self) == *old(self),
    {
        if self.add_cnt == u32::MAX || doc_cnt > usize::MAX - self.add_doc_cnt || bytes_len
            > usize::MAX - self.add_bytes_total {
            return false;
        }
        match checked_add_durations(self.add_duration_time_total, duration) {
            Some(_) => {
                self.record_update(duration, doc_cnt, bytes_len);
                true
            },
            None => false,
        }
    }

    /// Counts one request that ended in an error.
    pub fn record_error(&mut self)
        requires
            old(self).err_cnt < u32::MAX,
        ensures
            *final(self) == (WorkingCnt { err_cnt: (old(self).err_cnt + 1) as u32, ..*old(self) }),
    {
        self.err_cnt = self.err_cnt + 1;
    }

    /// Whether the lookups of one step of enrichment can be counted: so many
    /// hosts that the cache held, so many that it did not hold, and so many
    /// that have to be inserted.
    pub open spec fn can_record_lookups(&self, hits: nat, misses: nat, inserts: nat) -> bool {
        &&& self.cache_hit_cnt + hits <= u32::MAX
        &&& self.cache_miss_cnt + misses <= u32::MAX
        &&& self.seed_id_insert_cnt + inserts <= u32::MAX
    }

    /// The counters with the lookups of one step of enrichment added.
    pub open spec fn with_lookups(self, hits: nat, misses: nat, inserts: nat) -> WorkingCnt {
        WorkingCnt {
            cache_hit_cnt: (self.cache_hit_cnt + hits) as u32,
            cache_miss_cnt: (self.cache_miss_cnt + misses) as u32,
            seed_id_insert_cnt: (self.seed_id_insert_cnt + inserts) as u32,
            ..self
        }
    }

    /// Counts the lookups of one step of enrichment.
    pub fn record_lookups(&mut self, hits: usize, misses: usize, inserts: usize)
        requires
            old(self).can_record_lookups(hits as nat, misses as nat, inserts as nat),
        ensures
            *final(self) == old(self).with_lookups(hits as nat, misses as nat, inserts as nat),
    {
        self.cache_hit_cnt = self.cache_hit_cnt + hits as u32;
        self.cache_miss_cnt = self.cache_miss_cnt + misses as u32;
        self.seed_id_insert_cnt = self.seed_id_insert_cnt + inserts as u32;
    }

    /// Counts the lookups of one step of enrichment where the counters can
    /// take them, and says whether they could. Where they cannot, nothing
    /// changes.
    pub fn try_record_lookups(&mut self, hits: usize, misses: usize, inserts: usize) -> (done: bool)
        ensures
            done == old(self).can_record_lookups(hits as nat, misses as nat, inserts as nat),
            done ==> *final(self) == old(self).with_lookups(
                hits as nat,
                misses as nat,
                inserts as nat,
            ),
            !done ==> *final(self) == *old(self),
    {
        if hits > (u32::MAX - self.cache_hit_cnt) as usize || misses > (u32::MAX
            - self.cache_miss_cnt) as usize || inserts > (u32::MAX - self.seed_id_insert_cnt)
            as usize {
            return false;
        }
        self.record_lookups(hits, misses, inserts);
        true
    }
}

} // verus!
