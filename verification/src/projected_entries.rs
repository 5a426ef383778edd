//! Projected entries (one-time or recurring forecasts of a transaction) and
//! the forecast that merges them with real bank entries.

use chrono::Datelike;
use chrono::TimeZone;
use crate::bank_entries::clone_text;
use crate::date::{CalendarDate, Timestamp};
use crate::ofx::opt_chars;
use crate::sorting::{
    is_stable_sort, is_total_order, lemma_stable_sort_keeps_items, stable_sort, views_of, SortKey,
};
use crate::text::{
    decimal_text, four_digits, int_text, not_found_message, not_found_text, two_digits,
};
use vstd::prelude::*;

verus! {

broadcast use vstd::seq_lib::group_seq_properties;

/// A projected entry as stored. Without `rrule` it happens once, on `date`;
/// with one, `date` is where its recurrence starts.
#[derive(Debug)]
pub struct ProjectedEntryRow {
    pub id: i32,
    pub account_id: i32,
    pub description: Option<String>,
    pub amount_cents: i32,
    pub date: CalendarDate,
    pub rrule: Option<String>,
    pub active: bool,
    pub created_at: Timestamp,
    pub updated_at: Timestamp,
}

#[derive(Debug)]
pub struct ProjectedEntry {
    pub id: i32,
    pub account_id: i32,
    pub description: Option<String>,
    pub amount_cents: i32,
    pub date: CalendarDate,
    pub rrule: Option<String>,
    pub active: bool,
    pub created_at: Timestamp,
    pub updated_at: Timestamp,
}

impl ProjectedEntry {
    pub fn from_row(row: ProjectedEntryRow) -> (r: Self)
        ensures
            r.id == row.id,
            r.account_id == row.account_id,
            r.description == row.description,
            r.amount_cents == row.amount_cents,
            r.date == row.date,
            r.rrule == row.rrule,
            r.active == row.active,
            r.created_at == row.created_at,
            r.updated_at == row.updated_at,
    {
        Self {
            id: row.id,
            account_id: row.account_id,
            description: row.description,
            amount_cents: row.amount_cents,
            date: row.date,
            rrule: row.rrule,
            active: row.active,
            created_at: row.created_at,
            updated_at: row.updated_at,
        }
    }
}

/// One dated line of a forecast: a real bank entry, or one occurrence of a
/// projected entry.
#[derive(Debug)]
pub struct ForecastEntry {
    pub date: CalendarDate,
    pub description: Option<String>,
    pub amount_cents: i32,
    pub source: ForecastSource,
    pub account_id: Option<i32>,
    pub bank_entry_id: Option<i32>,
    pub projected_entry_id: Option<i32>,
}

/// Where a forecast line comes from: `BANK_ENTRY` or `PROJECTED`.
#[derive(Debug)]
pub struct ForecastSource {
    pub kind: String,
}

#[derive(Debug)]
pub struct CreateProjectedEntryInput {
    pub account_id: i32,
    pub description: Option<String>,
    pub amount_cents: i32,
    pub date: CalendarDate,
    pub rrule: Option<String>,
}

/// An edit of a projected entry: fields left `None` keep their value.
#[derive(Debug)]
pub struct UpdateProjectedEntryInput {
    pub account_id: Option<i32>,
    pub description: Option<String>,
    pub amount_cents: Option<i32>,
    pub date: Option<CalendarDate>,
    pub rrule: Option<String>,
    pub active: Option<bool>,
}

// ---------------------------------------------------------------------
// Recurrences

/// A year as chrono's `%Y` writes it: four digits with leading zeros for
/// years 0 to 9999, and otherwise a sign before at least four digits.
pub open spec fn year_text(y: int) -> Seq<char> {
    if 0 <= y <= 9999 {
        four_digits(y as nat)
    } else if y < 0 {
        seq!['-'] + four_digits((-y) as nat)
    } else {
        seq!['+'] + four_digits(y as nat)
    }
}

/// The pattern of an iCalendar UTC date-time, for chrono's `format`.
pub open spec fn ical_pattern() -> Seq<char> {
    "%Y%m%dT%H%M%SZ"@
}

/// An instant written as an iCalendar UTC date-time: `YYYYMMDDTHHMMSSZ`.
pub open spec fn ical_utc_text(date: CalendarDate, hour: int, minute: int, second: int) -> Seq<
    char,
> {
    year_text(date.year as int) + two_digits(date.month as int) + two_digits(date.day as int)
        + seq!['T'] + two_digits(hour) + two_digits(minute) + two_digits(second) + seq!['Z']
}

/// chrono: `TimeZone::with_ymd_and_hms` in the UTC zone of `rrule::Tz`,
/// then `DateTime::format` with the pattern `%Y%m%dT%H%M%SZ`, written out
/// with `to_string`. By chrono's formatting code, `%Y` gives four digits
/// (zero-padded) for years 0 to 9999 and a sign before at least four
/// digits otherwise; `%m %d %H %M %S` give two digits each.
#[verifier::external_body]
fn format_utc(date: CalendarDate, hour: u32, minute: u32, second: u32, pattern: &str) -> (r:
    String)
    requires
        date.is_valid(),
        hour < 24,
        minute < 60,
        second < 60,
        pattern@ == ical_pattern(),
    ensures
        r@ == ical_utc_text(date, hour as int, minute as int, second as int),
{
    let utc = rrule::Tz::UTC;
    let at = utc.with_ymd_and_hms(date.year, date.month, date.day, hour, minute, second);
    at.single().unwrap().format(pattern).to_string()
}

/// What is asked of the rrule crate: the recurrence set as iCalendar text,
/// the UTC instants after and before which occurrences are looked for (both
/// included, each a date and an hour, minute and second), and the most
/// occurrences to return.
#[derive(Debug)]
pub struct RecurrenceQuery {
    pub set_text: String,
    pub after: CalendarDate,
    pub after_time: (u32, u32, u32),
    pub before: CalendarDate,
    pub before_time: (u32, u32, u32),
    pub limit: u16,
}

impl RecurrenceQuery {
    /// Both instants are real: valid dates and times of day.
    pub open spec fn is_well_formed(&self) -> bool {
        &&& self.after.is_valid()
        &&& self.before.is_valid()
        &&& self.after_time.0 < 24 && self.after_time.1 < 60 && self.after_time.2 < 60
        &&& self.before_time.0 < 24 && self.before_time.1 < 60 && self.before_time.2 < 60
    }
}

/// A rule written on one line: it holds no line break.
pub open spec fn single_line(rule: Seq<char>) -> bool {
    !rule.contains('\n')
}

/// `d` falls on or after `start` and within `after` to `before`, both
/// included.
pub open spec fn in_window(d: CalendarDate, start: CalendarDate, after: CalendarDate, before: CalendarDate) -> bool {
    &&& start.spec_le(d)
    &&& after.spec_le(d)
    &&& d.spec_le(before)
}

/// rrule: `RRuleSet::from_str` on `q.set_text`, then `after` and `before`
/// with the two UTC instants of `q` and `all(q.limit)`,
/// each occurrence taken by `date_naive`; `None` where the crate does not
/// accept the text. The crate's source shows that `all` returns at most
/// `limit` occurrences and that a chrono date is always a real day.
///
/// Where the text is `rrule_set_text(start, rule)` for a rule on one line
/// and a year of four digits, the source also shows where each date lies:
/// the text splits by `lines` into the `DTSTART` line, read as midnight UTC
/// of `start`, and one `RRULE` line, so there is no `RDATE`; the rule's
/// iterator keeps only instants not before `DTSTART`, in its zone (UTC);
/// and `all` keeps only instants from `after` to `before`, both included.
/// So each date is on or after `start` and within the two dates of `q`.
/// Which dates come back is not stated: other texts are read partly in the
/// machine's local time zone (an `RDATE` or `EXDATE` line without a zone,
/// for one).
#[verifier::external_body]
fn rrule_between(q: &RecurrenceQuery) -> (r: Option<Vec<CalendarDate>>)
    requires
        q.is_well_formed(),
    ensures
        r matches Some(v) ==> v.len() <= q.limit && forall|i: int|
            0 <= i < v.len() ==> (#[trigger] v@[i]).is_valid(),
        r matches Some(v) ==> forall|start: CalendarDate, rule: Seq<char>|
            #[trigger] rrule_set_text(start, rule) == q.set_text@ && start.is_valid() && 0
                <= start.year <= 9999 && single_line(rule) ==> forall|i: int|
                0 <= i < v.len() ==> in_window(#[trigger] v@[i], start, q.after, q.before),
{
    let set: rrule::RRuleSet = q.set_text.parse().ok()?;
    let at = |a: CalendarDate, t: (u32, u32, u32)| {
        rrule::Tz::UTC.with_ymd_and_hms(a.year, a.month, a.day, t.0, t.1, t.2).unwrap()
    };
    let mut out = Vec::new();
    let (from, to) = (at(q.after, q.after_time), at(q.before, q.before_time));
    for o in set.after(from).before(to).all(q.limit).dates {
        let d = o.date_naive();
        out.push(CalendarDate { year: d.year(), month: d.month(), day: d.day() });
    }
    Some(out)
}

/// The recurrence set of a projected entry, as iCalendar text: it starts at
/// midnight UTC of `date` and recurs by `rule`.
pub open spec fn rrule_set_text(date: CalendarDate, rule: Seq<char>) -> Seq<char> {
    "DTSTART:"@ + ical_utc_text(date, 0, 0, 0) + "\nRRULE:"@ + rule
}

/// The iCalendar text of the recurrence that starts on `date` and recurs by
/// `rule`.
pub fn recurrence_text(date: CalendarDate, rule: &str) -> (r: String)
    requires
        date.is_valid(),
    ensures
        r@ == rrule_set_text(date, rule@),
{
    let start = format_utc(date, 0, 0, 0, "%Y%m%dT%H%M%SZ");
    let mut set_text = String::from_str("DTSTART:");
    set_text.append(start.as_str());
    set_text.append("\nRRULE:");
    set_text.append(rule);
    set_text
}

/// The most occurrences of one projected entry that a forecast shows.
pub const OCCURRENCE_LIMIT: u16 = 1000;

/// What `expand_rrule` asks of the rrule crate for the recurrence `rule`
/// started on `date`: its set text, occurrences from the start of `from`
/// (00:00:00 UTC) to the end of `to` (23:59:59 UTC), at most 1000 of them.
pub fn recurrence_query(date: CalendarDate, rule: &str, from: CalendarDate, to: CalendarDate) -> (q:
    RecurrenceQuery)
    requires
        date.is_valid(),
        from.is_valid(),
        to.is_valid(),
    ensures
        q.set_text@ == rrule_set_text(date, rule@),
        q.after == from,
        q.after_time == (0u32, 0u32, 0u32),
        q.before == to,
        q.before_time == (23u32, 59u32, 59u32),
        q.limit == OCCURRENCE_LIMIT,
        q.is_well_formed(),
{
    RecurrenceQuery {
        set_text: recurrence_text(date, rule),
        after: from,
        after_time: (0, 0, 0),
        before: to,
        before_time: (23, 59, 59),
        limit: OCCURRENCE_LIMIT,
    }
}

/// The dates on which the recurrence `rrule_str`, started on `date`, falls
/// from the start of `from` to the end of `to`: the rrule crate is asked
/// exactly `recurrence_query(date, rrule_str, from, to)`, and what it
/// returns is handed back, none where it does not accept the rule. At most
/// 1000 dates, each a real day. For a rule on one line and a start in the
/// years 0 to 9999, the recurrence starts on `date` itself: no date comes
/// before it, nor outside `from` to `to`.
pub fn expand_rrule(date: CalendarDate, rrule_str: &str, from: CalendarDate, to: CalendarDate) -> (r:
    Vec<CalendarDate>)
    requires
        date.is_valid(),
        from.is_valid(),
        to.is_valid(),
    ensures
        r.len() <= OCCURRENCE_LIMIT,
        forall|i: int| 0 <= i < r.len() ==> (#[trigger] r@[i]).is_valid(),
        single_line(rrule_str@) && 0 <= date.year <= 9999 ==> forall|i: int|
            0 <= i < r.len() ==> in_window(#[trigger] r@[i], date, from, to),
{
    let query = recurrence_query(date, rrule_str, from, to);
    match rrule_between(&query) {
        Some(v) => {
            assert(rrule_set_text(date, rrule_str@) == query.set_text@);
            v
        },
        None => Vec::new(),
    }
}

// ---------------------------------------------------------------------
// Forecast

/// What a forecast line holds, its texts taken as character sequences.
pub struct ForecastEntryView {
    pub date: CalendarDate,
    pub description: Option<Seq<char>>,
    pub amount_cents: i32,
    pub kind: Seq<char>,
    pub account_id: Option<i32>,
    pub bank_entry_id: Option<i32>,
    pub projected_entry_id: Option<i32>,
}

impl View for ForecastEntry {
    type V = ForecastEntryView;

    open spec fn view(&self) -> ForecastEntryView {
        ForecastEntryView {
            date: self.date,
            description: opt_chars(self.description),
            amount_cents: self.amount_cents,
            kind: self.source.kind@,
            account_id: self.account_id,
            bank_entry_id: self.bank_entry_id,
            projected_entry_id: self.projected_entry_id,
        }
    }
}

pub open spec fn forecast_views(s: Seq<ForecastEntry>) -> Seq<ForecastEntryView> {
    views_of(s)
}

/// The forecast line of a bank entry, given as (id, date, description,
/// amount).
pub open spec fn bank_forecast_entry(row: (i32, CalendarDate, Option<String>, i32)) -> ForecastEntryView {
    ForecastEntryView {
        date: row.1,
        description: opt_chars(row.2),
        amount_cents: row.3,
        kind: "BANK_ENTRY"@,
        account_id: None,
        bank_entry_id: Some(row.0),
        projected_entry_id: None,
    }
}

/// The dates on which a one-time projected entry falls from `from` to `to`:
/// its own date, where that lies in the range.
pub open spec fn one_time_dates(p: ProjectedEntryRow, from: CalendarDate, to: CalendarDate) -> Seq<
    CalendarDate,
> {
    if from.spec_le(p.date) && p.date.spec_le(to) {
        seq![p.date]
    } else {
        Seq::empty()
    }
}

/// The forecast line of a projected entry on date `d`.
pub open spec fn projected_forecast_entry(p: ProjectedEntryRow, d: CalendarDate) -> ForecastEntryView {
    ForecastEntryView {
        date: d,
        description: opt_chars(p.description),
        amount_cents: p.amount_cents,
        kind: "PROJECTED"@,
        account_id: Some(p.account_id),
        bank_entry_id: None,
        projected_entry_id: Some(p.id),
    }
}

/// The forecast lines of one projected entry on the dates `dates`, in
/// their order; none where the entry is disabled.
pub open spec fn projection_lines(p: ProjectedEntryRow, dates: Seq<CalendarDate>) -> Seq<
    ForecastEntryView,
> {
    if p.active {
        dates.map_values(|d: CalendarDate| projected_forecast_entry(p, d))
    } else {
        Seq::empty()
    }
}

/// The forecast lines of projected entries, entry after entry, each on the
/// dates given for it at the same place of `dates`.
pub open spec fn projected_lines(ps: Seq<ProjectedEntryRow>, dates: Seq<Seq<CalendarDate>>) -> Seq<
    ForecastEntryView,
>
    decreases ps.len(),
{
    if ps.len() == 0 {
        Seq::empty()
    } else {
        projected_lines(ps.drop_last(), dates.drop_last()) + projection_lines(
            ps.last(),
            dates.last(),
        )
    }
}

/// The lines of a forecast before they are put in date order: the bank
/// entries first, then the occurrences of the projected entries.
pub open spec fn forecast_lines(
    bank_rows: Seq<(i32, CalendarDate, Option<String>, i32)>,
    projections: Seq<ProjectedEntryRow>,
    dates: Seq<Seq<CalendarDate>>,
) -> Seq<ForecastEntryView> {
    bank_rows.map_values(|r: (i32, CalendarDate, Option<String>, i32)| bank_forecast_entry(r))
        + projected_lines(projections, dates)
}

/// The dates that each list of `lists` holds.
pub open spec fn date_lists(lists: Seq<Vec<CalendarDate>>) -> Seq<Seq<CalendarDate>> {
    lists.map_values(|v: Vec<CalendarDate>| v@)
}

/// An enabled projected entry without a recurrence gives one forecast line,
/// on its own date, where that date lies in the range, and none otherwise.
pub proof fn lemma_one_time_projection(p: ProjectedEntryRow, from: CalendarDate, to: CalendarDate)
    requires
        p.active,
        p.rrule is None,
    ensures
        from.spec_le(p.date) && p.date.spec_le(to) ==> projection_lines(
            p,
            one_time_dates(p, from, to),
        ) == seq![projected_forecast_entry(p, p.date)],
        !(from.spec_le(p.date) && p.date.spec_le(to)) ==> projection_lines(
            p,
            one_time_dates(p, from, to),
        ).len() == 0,
{
    if from.spec_le(p.date) && p.date.spec_le(to) {
        assert(projection_lines(p, one_time_dates(p, from, to)) =~= seq![
            projected_forecast_entry(p, p.date),
        ]);
    }
}

/// A disabled projected entry gives no forecast line, whatever its dates.
pub proof fn lemma_disabled_projection_hidden(p: ProjectedEntryRow, dates: Seq<CalendarDate>)
    requires
        !p.active,
    ensures
        projection_lines(p, dates).len() == 0,
{
}

/// A forecast holds every line of its bank entries and projections, and
/// nothing else: it has as many lines, and the same ones.
pub proof fn lemma_forecast_keeps_lines(
    out: Seq<ForecastEntryView>,
    bank_rows: Seq<(i32, CalendarDate, Option<String>, i32)>,
    projections: Seq<ProjectedEntryRow>,
    dates: Seq<Seq<CalendarDate>>,
)
    requires
        is_stable_sort(out, forecast_lines(bank_rows, projections, dates), by_date(), date_order()),
    ensures
        out.len() == forecast_lines(bank_rows, projections, dates).len(),
        forall|x: ForecastEntryView|
            out.contains(x) <==> forecast_lines(bank_rows, projections, dates).contains(x),
{
    lemma_stable_sort_keeps_items(
        out,
        forecast_lines(bank_rows, projections, dates),
        by_date(),
        date_order(),
    );
}

pub open spec fn by_date() -> spec_fn(ForecastEntryView) -> CalendarDate {
    |e: ForecastEntryView| e.date
}

pub open spec fn date_order() -> spec_fn(CalendarDate, CalendarDate) -> bool {
    |a: CalendarDate, b: CalendarDate| a.spec_le(b)
}

pub proof fn lemma_date_order_total()
    ensures
        is_total_order(date_order()),
{
}

fn bank_line(row: &(i32, CalendarDate, Option<String>, i32)) -> (e: ForecastEntry)
    ensures
        e@ == bank_forecast_entry(*row),
{
    ForecastEntry {
        date: row.1,
        description: clone_text(&row.2),
        amount_cents: row.3,
        source: ForecastSource { kind: String::from_str("BANK_ENTRY") },
        account_id: None,
        bank_entry_id: Some(row.0),
        projected_entry_id: None,
    }
}

fn projected_line(p: &ProjectedEntryRow, d: CalendarDate) -> (e: ForecastEntry)
    ensures
        e@ == projected_forecast_entry(*p, d),
{
    ForecastEntry {
        date: d,
        description: clone_text(&p.description),
        amount_cents: p.amount_cents,
        source: ForecastSource { kind: String::from_str("PROJECTED") },
        account_id: Some(p.account_id),
        bank_entry_id: None,
        projected_entry_id: Some(p.id),
    }
}

impl SortKey for ForecastEntry {
    type Key = CalendarDate;

    open spec fn key_of() -> spec_fn(ForecastEntryView) -> CalendarDate {
        by_date()
    }

    open spec fn key_le() -> spec_fn(CalendarDate, CalendarDate) -> bool {
        date_order()
    }

    proof fn lemma_key_order() {
        lemma_date_order_total();
    }

    fn key_at_most(&self, other: &Self) -> (r: bool) {
        self.date.le(&other.date)
    }
}

/// A recurring projected entry whose recurrence can be read to start on the
/// entry's own date: its rule is on one line and its year has four digits.
pub open spec fn starts_on_own_date(p: ProjectedEntryRow) -> bool {
    &&& p.rrule is Some
    &&& single_line(p.rrule->Some_0@)
    &&& 0 <= p.date.year <= 9999
}

/// Queries on projected entries.
#[derive(Debug, Default)]
pub struct ProjectedEntryQuery;

/// The listing of projected entries, in date order, filtered by account and
/// by whether they are active where those are given.
pub open spec fn projected_entries_sql(account: bool, active: bool) -> Seq<char> {
    "SELECT * FROM projected_entries WHERE 1=1"@ + (if account {
        " AND account_id = $"@ + decimal_text(1)
    } else {
        Seq::empty()
    }) + (if active {
        " AND active = $"@ + decimal_text(
            if account {
                2
            } else {
                1
            },
        )
    } else {
        Seq::empty()
    }) + " ORDER BY date ASC, id ASC"@
}

/// The bank entries of a forecast: those dated from `$1` to `$2`, both
/// included, as id, date, description and amount.
pub open spec fn forecast_bank_rows_sql() -> Seq<char> {
    "SELECT id, date, description, amount_cents FROM bank_entries
             WHERE date >= $1 AND date <= $2
             ORDER BY date ASC, id ASC"@
}

/// The projected entries of a forecast: the enabled ones; disabled ones
/// are hidden from it.
pub open spec fn forecast_projections_sql() -> Seq<char> {
    "SELECT * FROM projected_entries WHERE active = true ORDER BY date ASC, id ASC"@
}

impl ProjectedEntryQuery {
    /// The query for the bank entries of a forecast; the first and last
    /// day of its range are bound in that order.
    pub fn forecast_bank_rows_sql(&self) -> (r: &'static str)
        ensures
            r@ == forecast_bank_rows_sql(),
    {
        "SELECT id, date, description, amount_cents FROM bank_entries
             WHERE date >= $1 AND date <= $2
             ORDER BY date ASC, id ASC"
    }

    /// The query for the projected entries of a forecast.
    pub fn forecast_projections_sql(&self) -> (r: &'static str)
        ensures
            r@ == forecast_projections_sql(),
    {
        "SELECT * FROM projected_entries WHERE active = true ORDER BY date ASC, id ASC"
    }

    /// The query that lists projected entries for the filters that are
    /// given; their values are bound in the order account, active.
    pub fn projected_entries_sql(&self, account_id: &Option<i32>, active: &Option<bool>) -> (r:
        String)
        ensures
            r@ == projected_entries_sql(account_id is Some, active is Some),
    {
        let mut sql = String::from_str("SELECT * FROM projected_entries WHERE 1=1");
        let mut bind_idx: u32 = 1;
        if account_id.is_some() {
            sql.append(" AND account_id = $");
            let n = int_text(bind_idx as i64);
            sql.append(n.as_str());
            bind_idx += 1;
        }
        if active.is_some() {
            sql.append(" AND active = $");
            let n = int_text(bind_idx as i64);
            sql.append(n.as_str());
        }
        sql.append(" ORDER BY date ASC, id ASC");
        sql
    }

    /// The dates from `from` to `to` of each projected entry, in the order
    /// of `projections`: none for a disabled entry; for a one-time entry its
    /// own date where that lies in the range; for a recurring one what
    /// `expand_rrule(p.date, rule, from, to)` finds.
    pub fn occurrence_dates(
        &self,
        projections: &Vec<ProjectedEntryRow>,
        from: CalendarDate,
        to: CalendarDate,
    ) -> (r: Vec<Vec<CalendarDate>>)
        requires
            from.is_valid(),
            to.is_valid(),
            forall|i: int| 0 <= i < projections.len() ==> (#[trigger] projections@[i]).date.is_valid(),
        ensures
            r.len() == projections.len(),
            forall|i: int|
                0 <= i < r.len() && !(#[trigger] projections@[i]).active ==> r@[i].len() == 0,
            forall|i: int|
                0 <= i < r.len() && (#[trigger] projections@[i]).active && projections@[i].rrule is None
                    ==> r@[i]@ == one_time_dates(projections@[i], from, to),
            forall|i: int|
                0 <= i < r.len() && (#[trigger] projections@[i]).rrule is Some ==> r@[i].len()
                    <= 1000,
            forall|i: int, j: int|
                0 <= i < r.len() && 0 <= j < r@[i].len() && starts_on_own_date(
                    #[trigger] projections@[i],
                ) ==> in_window(#[trigger] r@[i]@[j], projections@[i].date, from, to),
            forall|i: int, j: int|
                0 <= i < r.len() && 0 <= j < r@[i].len() ==> (#[trigger] r@[i]@[j]).is_valid(),
    {
        let mut out: Vec<Vec<CalendarDate>> = Vec::new();
        let mut k: usize = 0;
        while k < projections.len()
            invariant
                k <= projections.len(),
                out.len() == k,
                from.is_valid(),
                to.is_valid(),
                forall|i: int| 0 <= i < projections.len() ==> (#[trigger] projections@[i]).date.is_valid(),
                forall|i: int|
                    0 <= i < k && !(#[trigger] projections@[i]).active ==> out@[i].len() == 0,
                forall|i: int|
                    0 <= i < k && (#[trigger] projections@[i]).active
                        && projections@[i].rrule is None ==> out@[i]@ == one_time_dates(
                        projections@[i],
                        from,
                        to,
                    ),
                forall|i: int|
                    0 <= i < k && (#[trigger] projections@[i]).rrule is Some ==> out@[i].len()
                        <= 1000,
                forall|i: int, j: int|
                    0 <= i < k && 0 <= j < out@[i].len() && starts_on_own_date(
                        #[trigger] projections@[i],
                    ) ==> in_window(#[trigger] out@[i]@[j], projections@[i].date, from, to),
                forall|i: int, j: int|
                    0 <= i < k && 0 <= j < out@[i].len() ==> (#[trigger] out@[i]@[j]).is_valid(),
            decreases projections.len() - k,
        {
            let p = &projections[k];
            let dates: Vec<CalendarDate> = if !p.active {
                Vec::new()
            } else {
                match &p.rrule {
                    Some(rule) => expand_rrule(p.date, rule.as_str(), from, to),
                    None => if from.le(&p.date) && p.date.le(&to) {
                        let mut one = Vec::new();
                        one.push(p.date);
                        one
                    } else {
                        Vec::new()
                    },
                }
            };
            proof {
                if p.active && p.rrule is None {
                    assert(dates@ =~= one_time_dates(*p, from, to));
                }
            }
            out.push(dates);
            k += 1;
        }
        out
    }

    /// The forecast: the bank entries of its range (given as id, date,
    /// description, amount) and, for each enabled projected entry, a line on
    /// each of the dates given for it at the same place of `dates`, all in date
    /// order; lines of the same day keep the order bank entries first, then
    /// projected entries in their given order.
    pub fn forecast(
        &self,
        bank_rows: Vec<(i32, CalendarDate, Option<String>, i32)>,
        projections: Vec<ProjectedEntryRow>,
        dates: Vec<Vec<CalendarDate>>,
    ) -> (r: Vec<ForecastEntry>)
        requires
            dates.len() == projections.len(),
        ensures
            is_stable_sort(
                forecast_views(r@),
                forecast_lines(bank_rows@, projections@, date_lists(dates@)),
                by_date(),
                date_order(),
            ),
    {
        let mut entries: Vec<ForecastEntry> = Vec::new();
        let mut i: usize = 0;
        while i < bank_rows.len()
            invariant
                i <= bank_rows.len(),
                forecast_views(entries@) == bank_rows@.take(i as int).map_values(
                    |r: (i32, CalendarDate, Option<String>, i32)| bank_forecast_entry(r),
                ),
            decreases bank_rows.len() - i,
        {
            let e = bank_line(&bank_rows[i]);
            let ghost before = entries@;
            entries.push(e);
            proof {
                assert(forecast_views(entries@) =~= forecast_views(before).push(e@));
                assert(bank_rows@.take(i + 1) =~= bank_rows@.take(i as int).push(bank_rows@[i as int]));
                assert(bank_rows@.take(i + 1).map_values(
                    |r: (i32, CalendarDate, Option<String>, i32)| bank_forecast_entry(r),
                ) =~= bank_rows@.take(i as int).map_values(
                    |r: (i32, CalendarDate, Option<String>, i32)| bank_forecast_entry(r),
                ).push(bank_forecast_entry(bank_rows@[i as int])));
            }
            i += 1;
        }
        let ghost bank_part = forecast_views(entries@);
        let ghost all_dates = date_lists(dates@);
        assert(bank_rows@.take(bank_rows.len() as int) =~= bank_rows@);
        let mut k: usize = 0;
        while k < projections.len()
            invariant
                k <= projections.len(),
                dates.len() == projections.len(),
                all_dates == date_lists(dates@),
                forecast_views(entries@) == bank_part + projected_lines(
                    projections@.take(k as int),
                    all_dates.take(k as int),
                ),
            decreases projections.len() - k,
        {
            let p = &projections[k];
            let ds = &dates[k];
            proof {
                assert(projections@.take(k + 1).drop_last() =~= projections@.take(k as int));
                assert(all_dates.take(k + 1).drop_last() =~= all_dates.take(k as int));
                assert(all_dates.take(k + 1).last() == ds@);
            }
            let ghost start = forecast_views(entries@);
            let mut j: usize = 0;
            let count: usize = if p.active {
                ds.len()
            } else {
                0
            };
            while j < count
                invariant
                    j <= count,
                    count == ds.len() || (count == 0 && !p.active),
                    p.active ==> count == ds.len(),
                    forecast_views(entries@) == start + ds@.take(j as int).map_values(
                        |d: CalendarDate| projected_forecast_entry(*p, d),
                    ),
                decreases count - j,
            {
                let e = projected_line(p, ds[j]);
                let ghost before = entries@;
                entries.push(e);
                proof {
                    assert(forecast_views(entries@) =~= forecast_views(before).push(e@));
                    assert(ds@.take(j + 1).map_values(
                        |d: CalendarDate| projected_forecast_entry(*p, d),
                    ) =~= ds@.take(j as int).map_values(
                        |d: CalendarDate| projected_forecast_entry(*p, d),
                    ).push(projected_forecast_entry(*p, ds@[j as int])));
                }
                j += 1;
            }
            proof {
                assert(ds@.take(ds.len() as int) =~= ds@);
                assert(ds@.take(0).map_values(|d: CalendarDate| projected_forecast_entry(*p, d))
                    =~= Seq::<ForecastEntryView>::empty());
                assert(forecast_views(entries@) =~= bank_part + projected_lines(
                    projections@.take(k + 1),
                    all_dates.take(k + 1),
                ));
            }
            k += 1;
        }
        assert(projections@.take(projections.len() as int) =~= projections@);
        assert(all_dates.take(projections.len() as int) =~= all_dates);
        stable_sort(entries)
    }
}

/// The values a projected entry has after an edit: each field of `input`
/// that is given, else the current one.
pub open spec fn edited_projection(current: ProjectedEntryRow, input: UpdateProjectedEntryInput) -> (
    i32,
    Option<String>,
    i32,
    CalendarDate,
    Option<String>,
    bool,
) {
    (
        match input.account_id {
            Some(a) => a,
            None => current.account_id,
        },
        match input.description {
            Some(d) => Some(d),
            None => current.description,
        },
        match input.amount_cents {
            Some(a) => a,
            None => current.amount_cents,
        },
        match input.date {
            Some(d) => d,
            None => current.date,
        },
        match input.rrule {
            Some(r) => Some(r),
            None => current.rrule,
        },
        match input.active {
            Some(a) => a,
            None => current.active,
        },
    )
}

/// An edit that gives nothing leaves a projected entry as it is.
pub proof fn lemma_empty_projection_edit(current: ProjectedEntryRow)
    ensures
        edited_projection(
            current,
            UpdateProjectedEntryInput {
                account_id: None,
                description: None,
                amount_cents: None,
                date: None,
                rrule: None,
                active: None,
            },
        ) == (
            current.account_id,
            current.description,
            current.amount_cents,
            current.date,
            current.rrule,
            current.active,
        ),
{
}

/// Making the same edit twice gives what making it once gave.
pub proof fn lemma_projection_edit_idempotent(
    current: ProjectedEntryRow,
    input: UpdateProjectedEntryInput,
)
    ensures
        ({
            let e = edited_projection(current, input);
            let after = ProjectedEntryRow {
                id: current.id,
                account_id: e.0,
                description: e.1,
                amount_cents: e.2,
                date: e.3,
                rrule: e.4,
                active: e.5,
                created_at: current.created_at,
                updated_at: current.updated_at,
            };
            edited_projection(after, input) == e
        }),
{
}

/// Changes to projected entries.
#[derive(Debug, Default)]
pub struct ProjectedEntryMutation;

impl ProjectedEntryMutation {
    /// What an edit of projected entry `id` writes (account, description,
    /// amount, date, rrule, active): each field of `input` where given, else
    /// the current one; an error where no projected entry has that id.
    pub fn update_projected_entry(
        &self,
        id: i32,
        current: Option<ProjectedEntryRow>,
        input: UpdateProjectedEntryInput,
    ) -> (r: Result<(i32, Option<String>, i32, CalendarDate, Option<String>, bool), String>)
        ensures
            current is None ==> (r matches Err(e) && e@ == not_found_text(
                "projected entry"@,
                id as int,
            )),
            current matches Some(c) ==> r == Ok::<_, String>(edited_projection(c, input)),
    {
        match current {
            None => Err(not_found_message("projected entry", id)),
            Some(c) => {
                let account_id = match input.account_id {
                    Some(a) => a,
                    None => c.account_id,
                };
                let description = match input.description {
                    Some(d) => Some(d),
                    None => c.description,
                };
                let amount_cents = match input.amount_cents {
                    Some(a) => a,
                    None => c.amount_cents,
                };
                let date = match input.date {
                    Some(d) => d,
                    None => c.date,
                };
                let rrule = match input.rrule {
                    Some(r) => Some(r),
                    None => c.rrule,
                };
                let active = match input.active {
                    Some(a) => a,
                    None => c.active,
                };
                Ok((account_id, description, amount_cents, date, rrule, active))
            },
        }
    }

    /// The outcome of deleting projected entry `id`: the deleted entry, or
    /// an error where no projected entry had that id.
    pub fn delete_projected_entry(&self, id: i32, deleted: Option<ProjectedEntryRow>) -> (r: Result<
        ProjectedEntry,
        String,
    >)
        ensures
            deleted is None ==> (r matches Err(e) && e@ == not_found_text(
                "projected entry"@,
                id as int,
            )),
            deleted matches Some(row) ==> (r matches Ok(p) && p.id == row.id && p.account_id
                == row.account_id && p.description == row.description && p.amount_cents
                == row.amount_cents && p.date == row.date && p.rrule == row.rrule && p.active
                == row.active && p.created_at == row.created_at && p.updated_at == row.updated_at),
    {
        match deleted {
            Some(row) => Ok(ProjectedEntry::from_row(row)),
            None => Err(not_found_message("projected entry", id)),
        }
    }
}

} // verus!
