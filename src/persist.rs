use vstd::prelude::*;

use crate::decimal::{decimal_of, decimal_string, lemma_parse_decimal, parse_u64, parse_u64_of};
use crate::store::{empty_view, DailyRecord, KeystrokeData, StoreView};

verus! {

/// A daily record as the data file holds it: the day bucket spelled in decimal.
#[derive(Clone, Debug)]
pub struct StoredRecord {
    pub date: String,
    pub count: u64,
    pub timestamp: u64,
}

/// The content of the data file.
#[derive(Clone, Debug)]
pub struct StoredData {
    pub total_count: u64,
    pub daily_records: Vec<StoredRecord>,
}

pub struct StoredRecordView {
    pub date: Seq<char>,
    pub count: u64,
    pub timestamp: u64,
}

pub struct StoredView {
    pub total_count: u64,
    pub records: Seq<StoredRecordView>,
}

impl View for StoredRecord {
    type V = StoredRecordView;

    open spec fn view(&self) -> StoredRecordView {
        StoredRecordView { date: self.date@, count: self.count, timestamp: self.timestamp }
    }
}

impl View for StoredData {
    type V = StoredView;

    open spec fn view(&self) -> StoredView {
        StoredView {
            total_count: self.total_count,
            records: Seq::new(self.daily_records@.len(), |i: int| self.daily_records@[i]@),
        }
    }
}

/// The file content that a store is written as.
pub open spec fn encode(v: StoreView) -> StoredView {
    StoredView {
        total_count: v.total_count,
        records: Seq::new(
            v.records.len(),
            |i: int|
                StoredRecordView {
                    date: decimal_of(v.records[i].day as nat),
                    count: v.records[i].count,
                    timestamp: v.records[i].timestamp,
                },
        ),
    }
}

pub open spec fn dates_parse(rs: Seq<StoredRecordView>) -> bool {
    forall|i: int| 0 <= i < rs.len() ==> parse_u64_of(#[trigger] rs[i].date) is Some
}

pub open spec fn decoded_records(rs: Seq<StoredRecordView>) -> Seq<DailyRecord> {
    Seq::new(
        rs.len(),
        |i: int|
            DailyRecord {
                day: parse_u64_of(rs[i].date)->Some_0,
                count: rs[i].count,
                timestamp: rs[i].timestamp,
            },
    )
}

/// The store that file content stands for: every date a decimal day bucket and
/// the result well formed; anything else counts as malformed and stands for
/// the empty store.
pub open spec fn decode(s: StoredView) -> StoreView {
    let v = StoreView { total_count: s.total_count, records: decoded_records(s.records) };
    if dates_parse(s.records) && v.wf() {
        v
    } else {
        empty_view()
    }
}

/// Writing a well-formed store out and reading it back gives the same store:
/// the total, and each record's day, count and timestamp.
pub proof fn lemma_store_round_trip(v: StoreView)
    requires
        v.wf(),
    ensures
        decode(encode(v)) == v,
{
    let e = encode(v);
    assert forall|i: int| 0 <= i < e.records.len() implies parse_u64_of(
        #[trigger] e.records[i].date,
    ) is Some by {
        lemma_parse_decimal(v.records[i].day);
    }
    assert forall|i: int| 0 <= i < e.records.len() implies #[trigger] decoded_records(e.records)[i]
        == v.records[i] by {
        lemma_parse_decimal(v.records[i].day);
    }
    assert(decoded_records(e.records) =~= v.records);
}

impl KeystrokeData {
    /// The store as the data file holds it.
    pub fn to_stored(&self) -> (r: StoredData)
        ensures
            r@ == encode(self@),
    {
        let n = self.daily_records.len();
        let mut out: Vec<StoredRecord> = Vec::new();
        let mut i: usize = 0;
        while i < n
            invariant
                n == self.daily_records@.len(),
                i <= n,
                out@.len() == i,
                forall|k: int| 0 <= k < i ==> (#[trigger] out@[k])@ == encode(self@).records[k],
            decreases n - i,
        {
            let r = self.daily_records[i];
            out.push(StoredRecord { date: decimal_string(r.day), count: r.count, timestamp: r.timestamp });
            i = i + 1;
        }
        let r = StoredData { total_count: self.total_count, daily_records: out };
        assert(r@.records =~= encode(self@).records);
        r
    }

    /// The store that the content of the data file stands for; the empty store
    /// where the content is malformed.
    pub fn from_stored(s: &StoredData) -> (r: KeystrokeData)
        ensures
            r@ == decode(s@),
            r.wf(),
    {
        let n = s.daily_records.len();
        let ghost sv = s@;
        let mut recs: Vec<DailyRecord> = Vec::new();
        let mut i: usize = 0;
        while i < n
            invariant
                n == s.daily_records@.len(),
                sv == s@,
                i <= n,
                recs@.len() == i,
                forall|k: int| 0 <= k < i ==> parse_u64_of(#[trigger] sv.records[k].date) is Some,
                forall|k: int| 0 <= k < i ==> #[trigger] recs@[k] == decoded_records(sv.records)[k],
            decreases n - i,
        {
            let r = &s.daily_records[i];
            assert(sv.records[i as int] == r@);
            match parse_u64(r.date.as_str()) {
                Some(day) => {
                    recs.push(DailyRecord { day, count: r.count, timestamp: r.timestamp });
                },
                None => {
                    assert(parse_u64_of(sv.records[i as int].date) is None);
                    assert(!dates_parse(sv.records));
                    return KeystrokeData::new();
                },
            }
            i = i + 1;
        }
        let d = KeystrokeData { total_count: s.total_count, daily_records: recs };
        assert(d@.records =~= decoded_records(sv.records));
        if d.is_well_formed() {
            d
        } else {
            KeystrokeData::new()
        }
    }
}

/// The store that a daemon or a command starts from: the one that the data
/// file stands for, or the empty store where the file was missing or could not
/// be read as the file's schema.
pub fn load_data(content: Option<&StoredData>) -> (r: KeystrokeData)
    ensures
        r.wf(),
        match content {
            Some(s) => r@ == decode(s@),
            None => r@ == empty_view(),
        },
{
    match content {
        Some(s) => KeystrokeData::from_stored(s),
        None => KeystrokeData::new(),
    }
}

} // verus!
