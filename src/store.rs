use vstd::prelude::*;

use crate::calendar::{day_bucket, day_of};

verus! {

/// The width of the weekly summary, in seconds.
pub const WEEK_SECS: u64 = 604800;

/// The width of the monthly summary, in seconds.
pub const MONTH_SECS: u64 = 2592000;

/// The key presses counted on one day bucket.
#[derive(Clone, Copy, Debug, PartialEq, Eq, Structural)]
pub struct DailyRecord {
    /// Whole days since the epoch.
    pub day: u64,
    pub count: u64,
    /// Seconds since the epoch at the first key press of the day; fixed once set.
    pub timestamp: u64,
}

/// The mathematical content of a store.
pub struct StoreView {
    pub total_count: u64,
    pub records: Seq<DailyRecord>,
}

/// The running total of key presses and one record per day bucket.
#[derive(Clone, Debug)]
pub struct KeystrokeData {
    pub total_count: u64,
    pub daily_records: Vec<DailyRecord>,
}

impl View for KeystrokeData {
    type V = StoreView;

    open spec fn view(&self) -> StoreView {
        StoreView { total_count: self.total_count, records: self.daily_records@ }
    }
}

pub open spec fn distinct_days(rs: Seq<DailyRecord>) -> bool {
    forall|i: int, j: int|
        0 <= i < rs.len() && 0 <= j < rs.len() && i != j ==> #[trigger] rs[i].day != #[trigger] rs[j].day
}

/// The sum of the counts of `rs`.
pub open spec fn sum_counts(rs: Seq<DailyRecord>) -> int
    decreases rs.len(),
{
    if rs.len() == 0 {
        0
    } else {
        sum_counts(rs.drop_last()) + rs.last().count
    }
}

/// The sum of the counts of the records of `rs` stamped at `cutoff` or later.
pub open spec fn sum_since(rs: Seq<DailyRecord>, cutoff: u64) -> int
    decreases rs.len(),
{
    if rs.len() == 0 {
        0
    } else {
        sum_since(rs.drop_last(), cutoff) + if rs.last().timestamp >= cutoff {
            rs.last().count as int
        } else {
            0
        }
    }
}

/// The start of the window of `window` seconds that ends at `now`; never below zero.
pub open spec fn cutoff_of(now: u64, window: u64) -> u64 {
    if now >= window {
        (now - window) as u64
    } else {
        0
    }
}

/// The index of the record of `day` in `rs`, or -1 where there is none.
pub open spec fn index_of_day(rs: Seq<DailyRecord>, day: u64) -> int
    decreases rs.len(),
{
    if rs.len() == 0 {
        -1
    } else if rs.last().day == day {
        rs.len() - 1
    } else {
        index_of_day(rs.drop_last(), day)
    }
}

pub open spec fn empty_view() -> StoreView {
    StoreView { total_count: 0, records: Seq::empty() }
}

impl StoreView {
    /// One record per day bucket, and no more counted on the days than in total.
    pub open spec fn wf(self) -> bool {
        distinct_days(self.records) && sum_counts(self.records) <= self.total_count
    }
}

/// The store after one key press at `now`: the total grows by one, and so does
/// the count of the day bucket of `now`, whose record is created, stamped `now`,
/// where the day has none yet.
pub open spec fn increment_spec(v: StoreView, now: u64) -> StoreView {
    let d = day_of(now);
    let i = index_of_day(v.records, d);
    StoreView {
        total_count: (v.total_count + 1) as u64,
        records: if i >= 0 {
            v.records.update(
                i,
                DailyRecord {
                    day: d,
                    count: (v.records[i].count + 1) as u64,
                    timestamp: v.records[i].timestamp,
                },
            )
        } else {
            v.records.push(DailyRecord { day: d, count: 1, timestamp: now })
        },
    }
}

/// The store after a key press at each moment of `times`, in order.
pub open spec fn apply_all(v: StoreView, times: Seq<u64>) -> StoreView
    decreases times.len(),
{
    if times.len() == 0 {
        v
    } else {
        increment_spec(apply_all(v, times.drop_last()), times.last())
    }
}

/// The position at which a record stamped `t` goes into a list ordered newest
/// first: after every record stamped `t` or later.
pub open spec fn insert_pos(s: Seq<DailyRecord>, t: u64) -> int
    decreases s.len(),
{
    if s.len() == 0 {
        0
    } else if s[0].timestamp >= t {
        1 + insert_pos(s.drop_first(), t)
    } else {
        0
    }
}

/// The records of `rs` ordered newest first; records with equal timestamps keep
/// their order.
pub open spec fn by_recency(rs: Seq<DailyRecord>) -> Seq<DailyRecord>
    decreases rs.len(),
{
    if rs.len() == 0 {
        Seq::empty()
    } else {
        let s = by_recency(rs.drop_last());
        s.insert(insert_pos(s, rs.last().timestamp), rs.last())
    }
}

pub open spec fn newest_first(s: Seq<DailyRecord>) -> bool {
    forall|i: int, j: int| 0 <= i < j < s.len() ==> #[trigger] s[i].timestamp >= #[trigger] s[j].timestamp
}

pub open spec fn min_len(n: usize, len: int) -> int {
    if (n as int) < len {
        n as int
    } else {
        len
    }
}

proof fn lemma_index_of_day_found(rs: Seq<DailyRecord>, day: u64, k: int)
    requires
        distinct_days(rs),
        0 <= k < rs.len(),
        rs[k].day == day,
    ensures
        index_of_day(rs, day) == k,
    decreases rs.len(),
{
    if k != rs.len() - 1 {
        assert(rs.last().day != day);
        let t = rs.drop_last();
        assert(distinct_days(t)) by {
            assert forall|i: int, j: int|
                0 <= i < t.len() && 0 <= j < t.len() && i != j implies #[trigger] t[i].day
                != #[trigger] t[j].day by {
                assert(t[i] == rs[i] && t[j] == rs[j]);
            }
        }
        lemma_index_of_day_found(t, day, k);
    }
}

proof fn lemma_index_of_day_absent(rs: Seq<DailyRecord>, day: u64)
    requires
        forall|k: int| 0 <= k < rs.len() ==> #[trigger] rs[k].day != day,
    ensures
        index_of_day(rs, day) == -1,
    decreases rs.len(),
{
    if rs.len() > 0 {
        let t = rs.drop_last();
        assert forall|k: int| 0 <= k < t.len() implies #[trigger] t[k].day != day by {
            assert(t[k] == rs[k]);
        }
        lemma_index_of_day_absent(t, day);
    }
}

proof fn lemma_index_of_day_range(rs: Seq<DailyRecord>, day: u64)
    ensures
        -1 <= index_of_day(rs, day) < rs.len(),
        index_of_day(rs, day) >= 0 ==> rs[index_of_day(rs, day)].day == day,
    decreases rs.len(),
{
    if rs.len() > 0 && rs.last().day != day {
        lemma_index_of_day_range(rs.drop_last(), day);
    }
}

proof fn lemma_sum_counts_nonneg(rs: Seq<DailyRecord>)
    ensures
        sum_counts(rs) >= 0,
    decreases rs.len(),
{
    if rs.len() > 0 {
        lemma_sum_counts_nonneg(rs.drop_last());
    }
}

proof fn lemma_count_le_sum(rs: Seq<DailyRecord>, k: int)
    requires
        0 <= k < rs.len(),
    ensures
        rs[k].count <= sum_counts(rs),
    decreases rs.len(),
{
    lemma_sum_counts_nonneg(rs.drop_last());
    if k < rs.len() - 1 {
        lemma_count_le_sum(rs.drop_last(), k);
    }
}

proof fn lemma_sum_counts_update(rs: Seq<DailyRecord>, k: int, r: DailyRecord)
    requires
        0 <= k < rs.len(),
    ensures
        sum_counts(rs.update(k, r)) == sum_counts(rs) - rs[k].count + r.count,
    decreases rs.len(),
{
    let u = rs.update(k, r);
    if k == rs.len() - 1 {
        assert(u.drop_last() =~= rs.drop_last());
    } else {
        assert(u.drop_last() =~= rs.drop_last().update(k, r));
        lemma_sum_counts_update(rs.drop_last(), k, r);
    }
}

proof fn lemma_sum_since_bounds(rs: Seq<DailyRecord>, cutoff: u64)
    ensures
        0 <= sum_since(rs, cutoff) <= sum_counts(rs),
    decreases rs.len(),
{
    if rs.len() > 0 {
        lemma_sum_since_bounds(rs.drop_last(), cutoff);
    }
}

/// A key press keeps a store well formed, as long as the total has room.
pub proof fn lemma_increment_wf(v: StoreView, now: u64)
    requires
        v.wf(),
        v.total_count < u64::MAX,
    ensures
        increment_spec(v, now).wf(),
{
    let d = day_of(now);
    let i = index_of_day(v.records, d);
    let w = increment_spec(v, now);
    lemma_index_of_day_range(v.records, d);
    if i >= 0 {
        lemma_count_le_sum(v.records, i);
        let r = DailyRecord { day: d, count: (v.records[i].count + 1) as u64, timestamp: v.records[i].timestamp };
        lemma_sum_counts_update(v.records, i, r);
        assert(distinct_days(w.records)) by {
            assert forall|a: int, b: int|
                0 <= a < w.records.len() && 0 <= b < w.records.len() && a != b implies
                #[trigger] w.records[a].day != #[trigger] w.records[b].day by {
                assert(w.records[a].day == v.records[a].day);
                assert(w.records[b].day == v.records[b].day);
            }
        }
    } else {
        assert(w.records.drop_last() =~= v.records);
        assert forall|k: int| 0 <= k < v.records.len() implies #[trigger] v.records[k].day != d by {
            if v.records[k].day == d {
                lemma_index_of_day_found(v.records, d, k);
            }
        }
    }
}

/// A key press counts once in the total and once in the day bucket of its
/// moment; every other record is left as it was.
pub proof fn lemma_increment_counts_once(v: StoreView, now: u64)
    requires
        v.wf(),
        v.total_count < u64::MAX,
    ensures
        increment_spec(v, now).total_count == v.total_count + 1,
        sum_counts(increment_spec(v, now).records) == sum_counts(v.records) + 1,
{
    let d = day_of(now);
    let i = index_of_day(v.records, d);
    lemma_index_of_day_range(v.records, d);
    lemma_increment_wf(v, now);
    if i >= 0 {
        lemma_count_le_sum(v.records, i);
        let r = DailyRecord { day: d, count: (v.records[i].count + 1) as u64, timestamp: v.records[i].timestamp };
        lemma_sum_counts_update(v.records, i, r);
    } else {
        assert(increment_spec(v, now).records.drop_last() =~= v.records);
    }
}

/// A key press on a day that has no record yet adds a new record for that day,
/// stamped with the moment of the press, and leaves the earlier records alone.
pub proof fn lemma_new_day_new_record(v: StoreView, now: u64)
    requires
        v.wf(),
        forall|k: int| 0 <= k < v.records.len() ==> #[trigger] v.records[k].day != day_of(now),
    ensures
        increment_spec(v, now).records == v.records.push(
            DailyRecord { day: day_of(now), count: 1, timestamp: now },
        ),
{
    lemma_index_of_day_absent(v.records, day_of(now));
}

/// Any run of key presses from any well-formed store adds exactly its length to
/// the total: none is lost and none counted twice.
pub proof fn lemma_run_adds_length(v: StoreView, times: Seq<u64>)
    requires
        v.wf(),
        v.total_count + times.len() <= u64::MAX,
    ensures
        apply_all(v, times).wf(),
        apply_all(v, times).total_count == v.total_count + times.len(),
        sum_counts(apply_all(v, times).records) == sum_counts(v.records) + times.len(),
    decreases times.len(),
{
    if times.len() > 0 {
        lemma_run_adds_length(v, times.drop_last());
        lemma_increment_wf(apply_all(v, times.drop_last()), times.last());
        lemma_increment_counts_once(apply_all(v, times.drop_last()), times.last());
    }
}

/// N key presses within one day bucket, from an empty store, give a total of N
/// and a single record of that day with count N, stamped at the first press.
pub proof fn lemma_single_day_run(times: Seq<u64>)
    requires
        times.len() < u64::MAX,
        forall|k: int| 0 <= k < times.len() ==> day_of(#[trigger] times[k]) == day_of(times[0]),
    ensures
        apply_all(empty_view(), times).total_count == times.len(),
        times.len() > 0 ==> apply_all(empty_view(), times).records == seq![
            DailyRecord { day: day_of(times[0]), count: times.len() as u64, timestamp: times[0] },
        ],
    decreases times.len(),
{
    if times.len() > 0 {
        let prev = times.drop_last();
        assert forall|k: int| 0 <= k < prev.len() implies day_of(#[trigger] prev[k]) == day_of(prev[0]) by {
            assert(prev[k] == times[k]);
        }
        lemma_single_day_run(prev);
        lemma_run_adds_length(empty_view(), prev);
        let v = apply_all(empty_view(), prev);
        if prev.len() == 0 {
            lemma_index_of_day_absent(v.records, day_of(times.last()));
            assert(v.records.push(DailyRecord { day: day_of(times[0]), count: 1, timestamp: times[0] })
                =~= seq![DailyRecord { day: day_of(times[0]), count: 1, timestamp: times[0] }]);
        } else {
            assert(times.last() == times[times.len() - 1]);
            lemma_index_of_day_found(v.records, day_of(times.last()), 0);
            assert(increment_spec(v, times.last()).records =~= seq![
                DailyRecord { day: day_of(times[0]), count: times.len() as u64, timestamp: times[0] },
            ]);
        }
    }
}

proof fn lemma_insert_pos(s: Seq<DailyRecord>, t: u64, j: int)
    requires
        0 <= j <= s.len(),
        forall|k: int| 0 <= k < j ==> #[trigger] s[k].timestamp >= t,
        j < s.len() ==> s[j].timestamp < t,
    ensures
        insert_pos(s, t) == j,
    decreases j,
{
    if j > 0 {
        let u = s.drop_first();
        assert forall|k: int| 0 <= k < j - 1 implies #[trigger] u[k].timestamp >= t by {
            assert(u[k] == s[k + 1]);
        }
        lemma_insert_pos(u, t, j - 1);
    }
}

proof fn lemma_insert_pos_props(s: Seq<DailyRecord>, t: u64)
    ensures
        0 <= insert_pos(s, t) <= s.len(),
        forall|k: int| 0 <= k < insert_pos(s, t) ==> #[trigger] s[k].timestamp >= t,
        insert_pos(s, t) < s.len() ==> s[insert_pos(s, t)].timestamp < t,
    decreases s.len(),
{
    if s.len() > 0 && s[0].timestamp >= t {
        let u = s.drop_first();
        lemma_insert_pos_props(u, t);
        assert forall|k: int| 0 <= k < insert_pos(s, t) implies #[trigger] s[k].timestamp >= t by {
            if k > 0 {
                assert(s[k] == u[k - 1]);
            }
        }
    }
}

/// Ordering by recency keeps every record, each as often as before, and puts
/// newer records first.
pub proof fn lemma_by_recency(rs: Seq<DailyRecord>)
    ensures
        by_recency(rs).len() == rs.len(),
        by_recency(rs).to_multiset() == rs.to_multiset(),
        newest_first(by_recency(rs)),
    decreases rs.len(),
{
    broadcast use vstd::seq_lib::group_to_multiset_ensures;

    if rs.len() > 0 {
        let s = by_recency(rs.drop_last());
        let x = rs.last();
        lemma_by_recency(rs.drop_last());
        lemma_insert_pos_props(s, x.timestamp);
        let p = insert_pos(s, x.timestamp);
        vstd::seq_lib::to_multiset_insert(s, p, x);
        assert(rs =~= rs.drop_last().push(x));
        let r = s.insert(p, x);
        assert forall|i: int, j: int| 0 <= i < j < r.len() implies #[trigger] r[i].timestamp
            >= #[trigger] r[j].timestamp by {
            if j < p {
            } else if j == p {
            } else if i < p {
                assert(s[i].timestamp >= s[j - 1].timestamp);
            } else if i == p {
                assert(s[j - 1].timestamp <= s[p].timestamp);
            } else {
                assert(s[i - 1].timestamp >= s[j - 1].timestamp);
            }
        }
    }
}

impl KeystrokeData {
    pub open spec fn wf(&self) -> bool {
        self@.wf()
    }

    /// An empty store: no key press counted, no record.
    pub fn new() -> (r: KeystrokeData)
        ensures
            r@ == empty_view(),
            r.wf(),
    {
        KeystrokeData { total_count: 0, daily_records: Vec::new() }
    }

    /// Whether the store holds one record per day bucket, with no more counted
    /// on the days than in total.
    pub fn is_well_formed(&self) -> (r: bool)
        ensures
            r == self.wf(),
    {
        let ghost rs = self@.records;
        let n = self.daily_records.len();
        let mut i: usize = 0;
        while i < n
            invariant
                n == rs.len(),
                rs == self@.records,
                i <= n,
                forall|a: int, b: int|
                    0 <= a < i && 0 <= b < n && a != b ==> #[trigger] rs[a].day != #[trigger] rs[b].day,
            decreases n - i,
        {
            let mut j: usize = 0;
            while j < n
                invariant
                    n == rs.len(),
                    rs == self@.records,
                    i < n,
                    j <= n,
                    forall|b: int| 0 <= b < j && b != i ==> rs[i as int].day != #[trigger] rs[b].day,
                decreases n - j,
            {
                if j != i && self.daily_records[i].day == self.daily_records[j].day {
                    assert(rs[i as int].day == rs[j as int].day);
                    return false;
                }
                j = j + 1;
            }
            i = i + 1;
        }
        assert(distinct_days(rs));
        let mut sum: u64 = 0;
        let mut k: usize = 0;
        while k < n
            invariant
                n == rs.len(),
                rs == self@.records,
                k <= n,
                sum == sum_counts(rs.subrange(0, k as int)),
                sum <= self.total_count,
            decreases n - k,
        {
            let c = self.daily_records[k].count;
            assert(rs.subrange(0, k + 1).drop_last() =~= rs.subrange(0, k as int));
            if c > self.total_count - sum {
                proof {
                    lemma_sum_prefix_le(rs, k + 1);
                }
                return false;
            }
            sum = sum + c;
            k = k + 1;
        }
        assert(rs.subrange(0, n as int) =~= rs);
        true
    }

    /// Counts one key press made at `now` (seconds since the epoch).
    pub fn increment(&mut self, now: u64)
        requires
            old(self).wf(),
            old(self).total_count < u64::MAX,
        ensures
            final(self)@ == increment_spec(old(self)@, now),
            final(self).wf(),
    {
        proof {
            lemma_increment_wf(self@, now);
        }
        let ghost v = self@;
        let today = day_bucket(now);
        let n = self.daily_records.len();
        let mut k: usize = 0;
        while k < n
            invariant
                n == self.daily_records.len(),
                self@ == v,
                v == old(self)@,
                increment_spec(v, now).wf(),
                v.wf(),
                v.total_count < u64::MAX,
                today == day_of(now),
                forall|j: int| 0 <= j < k ==> #[trigger] v.records[j].day != today,
            decreases n - k,
        {
            let r = self.daily_records[k];
            if r.day == today {
                proof {
                    lemma_index_of_day_found(v.records, today, k as int);
                    lemma_count_le_sum(v.records, k as int);
                }
                self.daily_records.set(k, DailyRecord { day: r.day, count: r.count + 1, timestamp: r.timestamp });
                self.total_count = self.total_count + 1;
                assert(self@.records =~= increment_spec(v, now).records);
                return;
            }
            k = k + 1;
        }
        proof {
            lemma_index_of_day_absent(v.records, today);
        }
        self.daily_records.push(DailyRecord { day: today, count: 1, timestamp: now });
        self.total_count = self.total_count + 1;
        assert(self@.records =~= increment_spec(v, now).records);
    }

    /// The sum of the counts of the records stamped within the `window` seconds
    /// that end at `now`. Where `now` is below `window` the window starts at zero.
    pub fn windowed_sum(&self, now: u64, window: u64) -> (r: u64)
        requires
            self.wf(),
        ensures
            r == sum_since(self@.records, cutoff_of(now, window)),
    {
        let cutoff: u64 = if now >= window {
            now - window
        } else {
            0
        };
        let ghost rs = self@.records;
        let n = self.daily_records.len();
        let mut sum: u64 = 0;
        let mut i: usize = 0;
        while i < n
            invariant
                n == rs.len(),
                rs == self@.records,
                self.wf(),
                cutoff == cutoff_of(now, window),
                i <= n,
                sum == sum_since(rs.subrange(0, i as int), cutoff),
            decreases n - i,
        {
            let r = self.daily_records[i];
            assert(rs.subrange(0, i + 1).drop_last() =~= rs.subrange(0, i as int));
            proof {
                lemma_sum_since_bounds(rs.subrange(0, i + 1), cutoff);
                lemma_sum_prefix_le(rs, i + 1);
            }
            if r.timestamp >= cutoff {
                sum = sum + r.count;
            }
            i = i + 1;
        }
        assert(rs.subrange(0, n as int) =~= rs);
        sum
    }

    /// Key presses counted on the records of the last seven days.
    pub fn get_weekly_stats(&self, now: u64) -> (r: u64)
        requires
            self.wf(),
        ensures
            r == sum_since(self@.records, cutoff_of(now, WEEK_SECS)),
    {
        self.windowed_sum(now, WEEK_SECS)
    }

    /// Key presses counted on the records of the last thirty days.
    pub fn get_monthly_stats(&self, now: u64) -> (r: u64)
        requires
            self.wf(),
        ensures
            r == sum_since(self@.records, cutoff_of(now, MONTH_SECS)),
    {
        self.windowed_sum(now, MONTH_SECS)
    }

    /// The `days` most recent records, newest first.
    pub fn get_daily_stats(&self, days: usize) -> (r: Vec<DailyRecord>)
        ensures
            r@ == by_recency(self@.records).take(min_len(days, self@.records.len() as int)),
    {
        let ghost rs = self@.records;
        let n = self.daily_records.len();
        let mut out: Vec<DailyRecord> = Vec::new();
        let mut i: usize = 0;
        while i < n
            invariant
                n == rs.len(),
                rs == self@.records,
                i <= n,
                out@ == by_recency(rs.subrange(0, i as int)),
                out@.len() == i,
            decreases n - i,
        {
            let x = self.daily_records[i];
            let mut j: usize = 0;
            while j < out.len() && out[j].timestamp >= x.timestamp
                invariant
                    j <= out@.len(),
                    forall|k: int| 0 <= k < j ==> #[trigger] out@[k].timestamp >= x.timestamp,
                decreases out@.len() - j,
            {
                j = j + 1;
            }
            proof {
                lemma_insert_pos(out@, x.timestamp, j as int);
                assert(rs.subrange(0, i + 1).drop_last() =~= rs.subrange(0, i as int));
                assert(rs.subrange(0, i + 1).last() == x);
            }
            out.insert(j, x);
            i = i + 1;
        }
        assert(rs.subrange(0, n as int) =~= rs);
        proof {
            lemma_by_recency(rs);
        }
        out.truncate(days);
        out
    }
}

proof fn lemma_sum_prefix_le(rs: Seq<DailyRecord>, k: int)
    requires
        0 <= k <= rs.len(),
    ensures
        sum_counts(rs.subrange(0, k)) <= sum_counts(rs),
    decreases rs.len() - k,
{
    if k < rs.len() {
        assert(rs.subrange(0, k + 1).drop_last() =~= rs.subrange(0, k));
        lemma_sum_prefix_le(rs, k + 1);
    } else {
        assert(rs.subrange(0, k) =~= rs);
    }
}

} // verus!
