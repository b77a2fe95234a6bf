//! The range of creation dates of a record batch, read in day/month/year form.
use vstd::prelude::*;
use chrono::{Datelike, NaiveDate};
use crate::model::Mapping;

verus! {

/// The (year, month, day) that chrono reads from `s` in the format
/// `%d/%m/%Y`, or `None` where `s` is not such a date.
pub uninterp spec fn day_month_year_of(s: Seq<char>) -> Option<(i32, u32, u32)>;

/// Relies on chrono's `NaiveDate::parse_from_str` with the format `%d/%m/%Y`,
/// and on `Datelike`'s `year`, `month` (1 to 12) and `day` (1 to 31) of the
/// date it returns.
#[verifier::external_body]
fn parse_day_month_year(s: &String) -> (r: Option<(i32, u32, u32)>)
    ensures
        r == day_month_year_of(s@),
        r matches Some(d) ==> 1 <= d.1 <= 12 && 1 <= d.2 <= 31,
{
    NaiveDate::parse_from_str(s, "%d/%m/%Y").ok().map(|d| (d.year(), d.month(), d.day()))
}

/// A calendar date.
#[derive(Clone, Copy, Debug, PartialEq, Eq, Structural)]
pub struct CalendarDate {
    pub year: i32,
    pub month: u32,
    pub day: u32,
}

impl View for CalendarDate {
    type V = (i32, u32, u32);

    open spec fn view(&self) -> (i32, u32, u32) {
        (self.year, self.month, self.day)
    }
}

/// Date `a` is strictly earlier than date `b`.
pub open spec fn date_lt(a: (i32, u32, u32), b: (i32, u32, u32)) -> bool {
    a.0 < b.0 || (a.0 == b.0 && (a.1 < b.1 || (a.1 == b.1 && a.2 < b.2)))
}

/// Earliest date of a non-empty list of read dates.
pub open spec fn earliest(ds: Seq<Option<(i32, u32, u32)>>) -> (i32, u32, u32)
    decreases ds.len(),
{
    if ds.len() <= 1 {
        ds[0]->0
    } else {
        let m = earliest(ds.drop_last());
        if date_lt(ds.last()->0, m) {
            ds.last()->0
        } else {
            m
        }
    }
}

/// Latest date of a non-empty list of read dates.
pub open spec fn latest(ds: Seq<Option<(i32, u32, u32)>>) -> (i32, u32, u32)
    decreases ds.len(),
{
    if ds.len() <= 1 {
        ds[0]->0
    } else {
        let m = latest(ds.drop_last());
        if date_lt(m, ds.last()->0) {
            ds.last()->0
        } else {
            m
        }
    }
}

/// Positions of the entries of `ds` that could not be read, in order.
pub open spec fn unread_positions(ds: Seq<Option<(i32, u32, u32)>>) -> Seq<usize>
    decreases ds.len(),
{
    if ds.len() == 0 {
        Seq::empty()
    } else if ds.last() is None {
        unread_positions(ds.drop_last()).push((ds.len() - 1) as usize)
    } else {
        unread_positions(ds.drop_last())
    }
}

/// Earliest and latest creation date of a batch.
pub struct DateRange {
    pub min_date: CalendarDate,
    pub max_date: CalendarDate,
}

/// The creation dates of the records at positions `records` could not be read.
pub struct DateParseError {
    pub records: Vec<usize>,
}

/// `r` is the date range of the read dates `ds`: an error listing every
/// unreadable position if there is one, no range for no dates, and otherwise
/// the earliest and the latest date.
pub open spec fn is_range_of(ds: Seq<Option<(i32, u32, u32)>>, r: Result<Option<DateRange>, DateParseError>) -> bool {
    if unread_positions(ds).len() > 0 {
        r matches Err(e) && e.records@ == unread_positions(ds)
    } else if ds.len() == 0 {
        r matches Ok(None)
    } else {
        r matches Ok(Some(d)) && d.min_date@ == earliest(ds) && d.max_date@ == latest(ds)
    }
}

/// The date range of a list of read dates (see `is_range_of`).
pub fn date_span(ds: &Vec<Option<(i32, u32, u32)>>) -> (r: Result<Option<DateRange>, DateParseError>)
    ensures
        is_range_of(ds@, r),
{
    let mut unread: Vec<usize> = Vec::new();
    let mut lo: (i32, u32, u32) = (0, 0, 0);
    let mut hi: (i32, u32, u32) = (0, 0, 0);
    let mut k: usize = 0;
    while k < ds.len()
        invariant
            k <= ds@.len(),
            unread@ == unread_positions(ds@.subrange(0, k as int)),
            unread@.len() == 0 && k > 0 ==> lo == earliest(ds@.subrange(0, k as int)) && hi == latest(
                ds@.subrange(0, k as int),
            ),
        decreases ds@.len() - k,
    {
        let ghost pre = ds@.subrange(0, k as int);
        let ghost cur = ds@.subrange(0, k + 1);
        assert(cur.drop_last() =~= pre);
        match ds[k] {
            None => {
                unread.push(k);
            },
            Some(d) => {
                if k == 0 {
                    lo = d;
                    hi = d;
                } else {
                    if date_lt_exec(d, lo) {
                        lo = d;
                    }
                    if date_lt_exec(hi, d) {
                        hi = d;
                    }
                }
            },
        }
        k = k + 1;
    }
    assert(ds@.subrange(0, k as int) =~= ds@);
    if unread.len() > 0 {
        Err(DateParseError { records: unread })
    } else if ds.len() == 0 {
        Ok(None)
    } else {
        let min_date = CalendarDate { year: lo.0, month: lo.1, day: lo.2 };
        let max_date = CalendarDate { year: hi.0, month: hi.1, day: hi.2 };
        Ok(Some(DateRange { min_date, max_date }))
    }
}

fn date_lt_exec(a: (i32, u32, u32), b: (i32, u32, u32)) -> (r: bool)
    ensures
        r == date_lt(a, b),
{
    a.0 < b.0 || (a.0 == b.0 && (a.1 < b.1 || (a.1 == b.1 && a.2 < b.2)))
}

/// The creation date of each record, as read, by record index.
pub open spec fn read_dates(mappings: Seq<Mapping>) -> Seq<Option<(i32, u32, u32)>> {
    mappings.map_values(|m: Mapping| day_month_year_of(m.creation_date@))
}

/// Earliest and latest creation date of the batch, each read in the format
/// day/month/year; every record whose date cannot be read is reported.
pub fn perform_temporal_analysis(mappings: &Vec<Mapping>) -> (r: Result<Option<DateRange>, DateParseError>)
    ensures
        is_range_of(read_dates(mappings@), r),
{
    let mut ds: Vec<Option<(i32, u32, u32)>> = Vec::new();
    let mut k: usize = 0;
    while k < mappings.len()
        invariant
            k <= mappings@.len(),
            ds@ == read_dates(mappings@).subrange(0, k as int),
        decreases mappings@.len() - k,
    {
        let d = parse_day_month_year(&mappings[k].creation_date);
        ds.push(d);
        k = k + 1;
        assert(ds@ =~= read_dates(mappings@).subrange(0, k as int));
    }
    assert(read_dates(mappings@).subrange(0, k as int) =~= read_dates(mappings@));
    date_span(&ds)
}

} // verus!
