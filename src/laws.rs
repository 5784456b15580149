use crate::calendar::{
    day_number, days_in_month, nth_weekday, occurrences_from, valid_date, weekday_days,
    weekday_index, Date, Weekday,
};
use crate::parse::pipeline_spec;
use crate::schedule::{
    calendar_events, days_events, entry_days, entry_events, event_of, resolve, result_is,
    CalendarEvent, InputTrashDate, InputTrashEntry, ScheduleError, SimpleDate,
};
use vstd::prelude::*;

verus! {

/// A rule for an existing day of the month expands to exactly that one day, so it gives
/// at most one event, and exactly one when the run goes through.
pub proof fn law_literal_day_single(year: i32, e: InputTrashEntry, d: u32)
    requires
        e.day == InputTrashDate::Day(d),
        valid_date(year as int, e.month_number as int, d as int),
    ensures
        entry_days(year, e) == Ok::<Seq<u32>, ScheduleError>(seq![d]),
        forall|table: Map<SimpleDate, SimpleDate>, names: Seq<Seq<char>>|
            #[trigger] entry_events(year, table, names, e) is Ok ==> entry_events(
                year,
                table,
                names,
                e,
            )->Ok_0.len() == 1,
{
    assert forall|table: Map<SimpleDate, SimpleDate>, names: Seq<Seq<char>>|
        #[trigger] entry_events(year, table, names, e) is Ok implies entry_events(
        year,
        table,
        names,
        e,
    )->Ok_0.len() == 1 by {
        let days = seq![d];
        assert(days.drop_last() =~= Seq::<u32>::empty());
        assert(days_events(year, table, names, e.month_number, Seq::<u32>::empty(), e.ty) == Ok::<
            Seq<(Date, Seq<char>)>,
            ScheduleError,
        >(Seq::empty()));
        assert(entry_events(year, table, names, e) == days_events(
            year,
            table,
            names,
            e.month_number,
            days,
            e.ty,
        ));
    }
}

proof fn lemma_day_number_step(y: int, m: int, d: int)
    ensures
        day_number(y, m, d) == day_number(y, m, 1) + d - 1,
{
}

/// Within a month of an existing year, a weekday rule expands to every day of the month
/// that falls on that weekday, each once and in ascending order: four or five days.
pub proof fn law_weekday_expansion(y: int, m: int, w: Weekday)
    requires
        valid_date(y, m, 1),
    ensures
        4 <= weekday_days(y, m, w).len() <= 5,
        forall|i: int|
            0 <= i < weekday_days(y, m, w).len() ==> 1 <= #[trigger] weekday_days(y, m, w)[i]
                <= days_in_month(y, m) && weekday_index(y, m, weekday_days(y, m, w)[i] as int)
                == w.index(),
        forall|i: int, j: int|
            0 <= i < j < weekday_days(y, m, w).len() ==> #[trigger] weekday_days(y, m, w)[i]
                < #[trigger] weekday_days(y, m, w)[j],
        forall|d: int|
            1 <= d <= days_in_month(y, m) && #[trigger] weekday_index(y, m, d) == w.index()
                ==> weekday_days(y, m, w).contains(d as u32),
{
    let f = weekday_index(y, m, 1);
    let off = (7 + w.index() - f) % 7;
    let dim = days_in_month(y, m);
    assert(0 <= off < 7);
    assert(28 <= dim <= 31);
    let a = (off + 1) as u32;
    let b = (off + 8) as u32;
    let c = (off + 15) as u32;
    let e = (off + 22) as u32;
    let g = (off + 29) as u32;
    assert(nth_weekday(y, m, w, 1) == Some(a));
    assert(nth_weekday(y, m, w, 2) == Some(b));
    assert(nth_weekday(y, m, w, 3) == Some(c));
    assert(nth_weekday(y, m, w, 4) == Some(e));
    let tail = if off + 29 <= dim {
        seq![g]
    } else {
        Seq::<u32>::empty()
    };
    assert(occurrences_from(y, m, w, 6) == Seq::<u32>::empty());
    assert(occurrences_from(y, m, w, 5) =~= tail);
    assert(occurrences_from(y, m, w, 4) =~= seq![e] + tail);
    assert(occurrences_from(y, m, w, 3) =~= seq![c] + (seq![e] + tail));
    assert(occurrences_from(y, m, w, 2) =~= seq![b] + (seq![c] + (seq![e] + tail)));
    let days = weekday_days(y, m, w);
    assert(days =~= seq![a] + (seq![b] + (seq![c] + (seq![e] + tail))));
    assert forall|i: int| 0 <= i < days.len() implies days[i] as int == off + 1 + 7 * i by {
        if i == 4 {
            assert(tail[0] == g);
        }
    }
    assert forall|i: int| 0 <= i < days.len() implies 1 <= #[trigger] days[i] <= dim
        && weekday_index(y, m, days[i] as int) == w.index() by {
        lemma_day_number_step(y, m, days[i] as int);
        lemma_day_number_step(y, m, 1);
    }
    assert forall|d: int|
        1 <= d <= dim && #[trigger] weekday_index(y, m, d) == w.index() implies days.contains(
        d as u32,
    ) by {
        lemma_day_number_step(y, m, d);
        let q = (d - 1) / 7;
        assert((d - 1) % 7 == off);
        assert(d == off + 1 + 7 * q);
        assert(0 <= q < days.len());
        assert(days[q] == d as u32);
    }
}

/// Substitution is a single lookup: a date with a substitute becomes it, any other date
/// stays, and a substitute that has a substitute of its own is not followed further.
pub proof fn law_resolve_single_step(table: Map<SimpleDate, SimpleDate>, x: SimpleDate)
    ensures
        table.contains_key(x) ==> resolve(table, x) == table[x],
        !table.contains_key(x) ==> resolve(table, x) == x,
        table.contains_key(x) && table.contains_key(table[x]) ==> resolve(table, x) == table[x]
            && resolve(table, resolve(table, x)) == table[table[x]],
{
}

proof fn lemma_days_events_named(
    year: i32,
    table: Map<SimpleDate, SimpleDate>,
    names: Seq<Seq<char>>,
    e: InputTrashEntry,
    days: Seq<u32>,
)
    requires
        days.len() > 0,
        days_events(year, table, names, e.month_number, days, e.ty) is Ok,
    ensures
        e.ty.index() < names.len(),
{
    match days_events(year, table, names, e.month_number, days.drop_last(), e.ty) {
        Err(_) => {},
        Ok(_) => {
            assert(event_of(year, table, names, e.month_number, days.last(), e.ty) is Ok);
        },
    }
}

/// A run that goes through has found a name for the category of every rule that
/// expands to at least one day: no event is dropped for want of a name.
pub proof fn law_category_names_total(
    year: i32,
    table: Map<SimpleDate, SimpleDate>,
    names: Seq<Seq<char>>,
    entries: Seq<InputTrashEntry>,
)
    requires
        calendar_events(year, table, names, entries) is Ok,
    ensures
        forall|i: int|
            0 <= i < entries.len() && (#[trigger] entry_days(year, entries[i])) is Ok
                && entry_days(year, entries[i])->Ok_0.len() > 0 ==> entries[i].ty.index()
                < names.len(),
    decreases entries.len(),
{
    if entries.len() > 0 {
        let p = entries.drop_last();
        law_category_names_total(year, table, names, p);
        let last = entries.last();
        assert forall|i: int|
            0 <= i < entries.len() && (#[trigger] entry_days(year, entries[i])) is Ok
                && entry_days(year, entries[i])->Ok_0.len() > 0 implies entries[i].ty.index()
            < names.len() by {
            if i < entries.len() - 1 {
                assert(entries[i] == p[i]);
            } else {
                let days = entry_days(year, last)->Ok_0;
                lemma_days_events_named(year, table, names, last, days);
            }
        }
    }
}

/// Two runs over the same table end alike: the same error, or the same events in the
/// same order.
pub proof fn law_rerun_identical(
    rows: Seq<Seq<Seq<char>>>,
    r1: Result<Vec<CalendarEvent>, ScheduleError>,
    r2: Result<Vec<CalendarEvent>, ScheduleError>,
)
    requires
        result_is(r1, pipeline_spec(rows)),
        result_is(r2, pipeline_spec(rows)),
    ensures
        r1 is Ok <==> r2 is Ok,
        r1 is Err ==> r1->Err_0 == r2->Err_0,
        r1 is Ok ==> r1->Ok_0@.len() == r2->Ok_0@.len(),
        r1 is Ok ==> forall|i: int|
            0 <= i < r1->Ok_0@.len() ==> (#[trigger] r1->Ok_0@[i]).date == r2->Ok_0@[i].date
                && r1->Ok_0@[i].title@ == r2->Ok_0@[i].title@ && r1->Ok_0@[i].description@
                == r2->Ok_0@[i].description@,
{
}

} // verus!
