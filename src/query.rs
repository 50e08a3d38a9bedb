use vstd::prelude::*;
use crate::clip::{opt_view, Clip};
use crate::normalize::{normalize_text, normalized};
use crate::store::{clips_view, days_newest_first, query_result, ClipStore};

verus! {

/// What `chrono::NaiveDate::parse_from_str` with `%Y-%m-%d`, followed by
/// `NaiveDate::to_epoch_days`, gives for a text.
pub uninterp spec fn epoch_day_of(s: Seq<char>) -> Option<int>;

/// Relies on `chrono::NaiveDate::parse_from_str` with the format
/// `%Y-%m-%d` and on `NaiveDate::to_epoch_days`: the day, counted from
/// 1970-01-01, that a calendar date names, or nothing when the text is not a
/// date in that format.
#[verifier::external_body]
fn parse_calendar_day(s: &str) -> (r: Option<i64>)
    ensures
        match r {
            Some(d) => epoch_day_of(s@) == Some(d as int),
            None => epoch_day_of(s@) is None,
        },
{
    match chrono::NaiveDate::parse_from_str(s, "%Y-%m-%d") {
        Ok(d) => Some(d.to_epoch_days() as i64),
        Err(_) => None,
    }
}

/// An empty filter text stands for no filter.
pub open spec fn given(o: Option<Seq<char>>) -> Option<Seq<char>> {
    match o {
        Some(t) => if t.len() == 0 {
            None
        } else {
            Some(t)
        },
        None => None,
    }
}

/// The search text a query matches against: the normalized user text.
pub open spec fn search_needle(search_text: Option<Seq<char>>) -> Option<Seq<char>> {
    match given(search_text) {
        Some(t) => Some(normalized(t)),
        None => None,
    }
}

/// What `get_clips` returns for the user's search text and date text.
pub open spec fn clips_for(
    s: Seq<crate::clip::ClipView>,
    offset: int,
    search_text: Option<Seq<char>>,
    date_text: Option<Seq<char>>,
) -> Seq<crate::clip::ClipView> {
    match given(date_text) {
        None => query_result(s, search_needle(search_text), None, offset),
        Some(ds) => match epoch_day_of(ds) {
            None => seq![],
            Some(d) => query_result(s, search_needle(search_text), Some(d), offset),
        },
    }
}

/// The clips for a user's request: those whose content contains the search
/// text, ignoring case and accents, and that were created on the given
/// local date (`YYYY-MM-DD`), newest first, at most `QUERY_LIMIT`. An absent
/// or empty filter constrains nothing; a date that does not parse matches
/// no clip.
pub fn get_clips(store: &ClipStore, search_text: Option<String>, date_filter: Option<String>) -> (r:
    Vec<Clip>)
    ensures
        clips_view(r@) == clips_for(store@, store.offset(), opt_view(search_text), opt_view(date_filter)),
{
    let needle = match search_text {
        Some(t) => if t.as_str().is_empty() {
            None
        } else {
            Some(normalize_text(t.as_str()))
        },
        None => None,
    };
    let day = match date_filter {
        Some(ds) => if ds.as_str().is_empty() {
            None
        } else {
            match parse_calendar_day(ds.as_str()) {
                Some(d) => Some(d),
                None => {
                    let empty: Vec<Clip> = Vec::new();
                    assert(clips_view(empty@) =~= seq![]);
                    return empty;
                },
            }
        },
        None => None,
    };
    store.query(&needle, day)
}

/// The local days on which clips were created, most recent first, each
/// once, as days counted from 1970-01-01.
pub fn get_dates_with_clips(store: &ClipStore) -> (r: Vec<i64>)
    ensures
        r@.map_values(|d: i64| d as int) == days_newest_first(store@, store.offset()),
{
    store.dates_with_clips()
}

} // verus!
