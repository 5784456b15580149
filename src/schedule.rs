use crate::calendar::{checked_date, valid_date, weekday_days, weekdays_in_month, Date, Weekday};
use vstd::prelude::*;

verus! {

/// Why a schedule could not be turned into events.
#[derive(Clone, Copy, Debug, PartialEq, Eq, Structural)]
pub enum ScheduleError {
    /// The table ended before a required row.
    EmptyInput,
    /// The year row holds no integer in its second cell.
    InvalidYear,
    /// More category names than there are categories.
    TooManyCategories,
    /// A schedule cell lies beyond the last category's columns.
    UnknownCategory,
    /// A schedule row starts with something other than a month number.
    InvalidMonth,
    /// An override row has a source date but no target date.
    MissingOverrideTarget,
    /// An override cell is not of the form `day/month`.
    InvalidOverride,
    /// A rule or an override leads to a day that does not exist.
    InvalidDate,
    /// A rule's category has no display name.
    MissingCategoryName,
}

/// The waste categories, in the order their columns and names appear.
#[derive(Clone, Copy, Debug, PartialEq, Eq, Structural, Hash)]
pub enum TrashType {
    Mixed,
    Metal,
    Paper,
    Glass,
    Bio,
    Big,
    ChristmasTree,
}

/// Number of waste categories.
pub const CATEGORY_COUNT: usize = 7;

/// The category with identifier `i`, for `i` in `0..7`.
pub open spec fn trash_type_of(i: int) -> TrashType {
    if i == 0 {
        TrashType::Mixed
    } else if i == 1 {
        TrashType::Metal
    } else if i == 2 {
        TrashType::Paper
    } else if i == 3 {
        TrashType::Glass
    } else if i == 4 {
        TrashType::Bio
    } else if i == 5 {
        TrashType::Big
    } else {
        TrashType::ChristmasTree
    }
}

impl TrashType {
    /// Identifier of the category.
    pub open spec fn index(self) -> int {
        match self {
            TrashType::Mixed => 0,
            TrashType::Metal => 1,
            TrashType::Paper => 2,
            TrashType::Glass => 3,
            TrashType::Bio => 4,
            TrashType::Big => 5,
            TrashType::ChristmasTree => 6,
        }
    }

    /// The category with identifier `num`; there are seven.
    pub fn from_index(num: usize) -> (r: Result<TrashType, ScheduleError>)
        ensures
            num < CATEGORY_COUNT ==> r == Ok::<TrashType, ScheduleError>(trash_type_of(num as int)),
            num < CATEGORY_COUNT ==> r->Ok_0.index() == num,
            num >= CATEGORY_COUNT ==> r == Err::<TrashType, ScheduleError>(
                ScheduleError::UnknownCategory,
            ),
    {
        match num {
            0 => Ok(TrashType::Mixed),
            1 => Ok(TrashType::Metal),
            2 => Ok(TrashType::Paper),
            3 => Ok(TrashType::Glass),
            4 => Ok(TrashType::Bio),
            5 => Ok(TrashType::Big),
            6 => Ok(TrashType::ChristmasTree),
            _ => Err(ScheduleError::UnknownCategory),
        }
    }
}

/// A day of the schedule year, without the year.
#[derive(Clone, Copy, Debug, PartialEq, Eq, Structural, Hash)]
pub struct SimpleDate {
    pub month: u32,
    pub day: u32,
}

/// When within its month a rule collects.
#[derive(Clone, Copy, Debug, PartialEq, Eq, Structural)]
pub enum InputTrashDate {
    /// On this day of the month.
    Day(u32),
    /// On every occurrence of this weekday in the month.
    Weekdays(Weekday),
}

/// One schedule rule: a month, when in it, and the category collected.
#[derive(Clone, Copy, Debug, PartialEq, Eq, Structural)]
pub struct InputTrashEntry {
    pub month_number: u32,
    pub day: InputTrashDate,
    pub ty: TrashType,
}

/// The map that a list of substitutions describes; a later pair replaces an earlier one.
pub open spec fn override_map(s: Seq<(SimpleDate, SimpleDate)>) -> Map<SimpleDate, SimpleDate>
    decreases s.len(),
{
    if s.len() == 0 {
        Map::empty()
    } else {
        override_map(s.drop_last()).insert(s.last().0, s.last().1)
    }
}

/// The date that takes the place of `d`: its substitute if it has one, else `d` itself.
pub open spec fn resolve(table: Map<SimpleDate, SimpleDate>, d: SimpleDate) -> SimpleDate {
    if table.contains_key(d) {
        table[d]
    } else {
        d
    }
}

/// Date substitutions, kept in the order they were added.
pub struct OverrideTable {
    pub entries: Vec<(SimpleDate, SimpleDate)>,
}

impl View for OverrideTable {
    type V = Map<SimpleDate, SimpleDate>;

    open spec fn view(&self) -> Map<SimpleDate, SimpleDate> {
        override_map(self.entries@)
    }
}

proof fn lemma_override_suffix(s: Seq<(SimpleDate, SimpleDate)>, i: int, k: SimpleDate)
    requires
        0 <= i <= s.len(),
        forall|j: int| i <= j < s.len() ==> (#[trigger] s[j]).0 != k,
    ensures
        override_map(s).contains_key(k) == override_map(s.subrange(0, i)).contains_key(k),
        override_map(s).contains_key(k) ==> override_map(s)[k] == override_map(
            s.subrange(0, i),
        )[k],
    decreases s.len(),
{
    if i < s.len() {
        let p = s.drop_last();
        assert(s[s.len() - 1].0 != k);
        lemma_override_suffix(p, i, k);
        assert(p.subrange(0, i) =~= s.subrange(0, i));
    } else {
        assert(s.subrange(0, i) =~= s);
    }
}

impl OverrideTable {
    /// A table with no substitutions.
    pub fn new() -> (r: OverrideTable)
        ensures
            r@ == Map::<SimpleDate, SimpleDate>::empty(),
            r.entries@ == Seq::<(SimpleDate, SimpleDate)>::empty(),
    {
        OverrideTable { entries: Vec::new() }
    }

    /// Makes `to` the substitute of `from`, replacing any earlier one.
    pub fn insert(&mut self, from: SimpleDate, to: SimpleDate)
        ensures
            final(self)@ == old(self)@.insert(from, to),
            final(self).entries@ == old(self).entries@.push((from, to)),
    {
        self.entries.push((from, to));
        assert(self.entries@.drop_last() =~= old(self).entries@);
    }

    /// The date that takes the place of `d`, after a single lookup.
    pub fn resolve(&self, d: SimpleDate) -> (r: SimpleDate)
        ensures
            r == resolve(self@, d),
    {
        let mut i: usize = self.entries.len();
        while i > 0
            invariant
                i <= self.entries.len(),
                forall|j: int| i <= j < self.entries.len() ==> (#[trigger] self.entries@[j]).0 != d,
            decreases i,
        {
            let (from, to) = self.entries[i - 1];
            if from == d {
                proof {
                    let s = self.entries@;
                    lemma_override_suffix(s, i as int, d);
                    let p = s.subrange(0, i as int);
                    assert(p.drop_last() =~= s.subrange(0, i - 1));
                }
                return to;
            }
            i = i - 1;
        }
        proof {
            lemma_override_suffix(self.entries@, 0, d);
            assert(self.entries@.subrange(0, 0) =~= Seq::<(SimpleDate, SimpleDate)>::empty());
        }
        d
    }
}

/// Display names of the categories, the `i`-th naming category `i`.
pub struct CategoryTable {
    pub names: Vec<String>,
}

impl View for CategoryTable {
    type V = Seq<Seq<char>>;

    open spec fn view(&self) -> Seq<Seq<char>> {
        self.names@.map_values(|s: String| s@)
    }
}

impl CategoryTable {
    /// The display name of category `ty`, if it has one.
    pub fn name_of(&self, ty: TrashType) -> (r: Option<String>)
        ensures
            r is Some <==> ty.index() < self@.len(),
            r is Some ==> r->0@ == self@[ty.index()],
    {
        let i: usize = match ty {
            TrashType::Mixed => 0,
            TrashType::Metal => 1,
            TrashType::Paper => 2,
            TrashType::Glass => 3,
            TrashType::Bio => 4,
            TrashType::Big => 5,
            TrashType::ChristmasTree => 6,
        };
        if i < self.names.len() {
            Some(self.names[i].clone())
        } else {
            None
        }
    }
}

/// One all-day calendar event.
#[derive(Clone, Debug)]
pub struct CalendarEvent {
    pub date: Date,
    pub title: String,
    pub description: String,
}

/// Whether `e` is the event on `s.0` titled and described `s.1`.
pub open spec fn event_is(e: CalendarEvent, s: (Date, Seq<char>)) -> bool {
    e.date == s.0 && e.title@ == s.1 && e.description@ == s.1
}

pub open spec fn events_are(v: Seq<CalendarEvent>, s: Seq<(Date, Seq<char>)>) -> bool {
    v.len() == s.len() && forall|i: int| 0 <= i < v.len() ==> event_is(#[trigger] v[i], s[i])
}

pub open spec fn result_is(
    r: Result<Vec<CalendarEvent>, ScheduleError>,
    s: Result<Seq<(Date, Seq<char>)>, ScheduleError>,
) -> bool {
    match (r, s) {
        (Ok(v), Ok(t)) => events_are(v@, t),
        (Err(a), Err(b)) => a == b,
        _ => false,
    }
}

/// The days of its month on which a rule collects, before substitution.
pub open spec fn entry_days(year: i32, e: InputTrashEntry) -> Result<Seq<u32>, ScheduleError> {
    match e.day {
        InputTrashDate::Day(d) => if valid_date(year as int, e.month_number as int, d as int) {
            Ok(seq![d])
        } else {
            Err(ScheduleError::InvalidDate)
        },
        InputTrashDate::Weekdays(w) => Ok(weekday_days(year as int, e.month_number as int, w)),
    }
}

/// The event for a collection on `(month, day)` of category `ty`, after substitution.
pub open spec fn event_of(
    year: i32,
    table: Map<SimpleDate, SimpleDate>,
    names: Seq<Seq<char>>,
    month: u32,
    day: u32,
    ty: TrashType,
) -> Result<(Date, Seq<char>), ScheduleError> {
    let t = resolve(table, SimpleDate { month, day });
    if !valid_date(year as int, t.month as int, t.day as int) {
        Err(ScheduleError::InvalidDate)
    } else if ty.index() >= names.len() {
        Err(ScheduleError::MissingCategoryName)
    } else {
        Ok((Date { year, month: t.month, day: t.day }, names[ty.index()]))
    }
}

/// The events for the given days of one month, in order; the first failure wins.
pub open spec fn days_events(
    year: i32,
    table: Map<SimpleDate, SimpleDate>,
    names: Seq<Seq<char>>,
    month: u32,
    days: Seq<u32>,
    ty: TrashType,
) -> Result<Seq<(Date, Seq<char>)>, ScheduleError>
    decreases days.len(),
{
    if days.len() == 0 {
        Ok(Seq::empty())
    } else {
        match days_events(year, table, names, month, days.drop_last(), ty) {
            Err(e) => Err(e),
            Ok(evs) => match event_of(year, table, names, month, days.last(), ty) {
                Err(e) => Err(e),
                Ok(ev) => Ok(evs.push(ev)),
            },
        }
    }
}

/// The events of one rule: one per day it expands to, after substitution.
pub open spec fn entry_events(
    year: i32,
    table: Map<SimpleDate, SimpleDate>,
    names: Seq<Seq<char>>,
    e: InputTrashEntry,
) -> Result<Seq<(Date, Seq<char>)>, ScheduleError> {
    match entry_days(year, e) {
        Err(err) => Err(err),
        Ok(days) => days_events(year, table, names, e.month_number, days, e.ty),
    }
}

/// The events of all rules, rule by rule in order; the first failure wins.
pub open spec fn calendar_events(
    year: i32,
    table: Map<SimpleDate, SimpleDate>,
    names: Seq<Seq<char>>,
    entries: Seq<InputTrashEntry>,
) -> Result<Seq<(Date, Seq<char>)>, ScheduleError>
    decreases entries.len(),
{
    if entries.len() == 0 {
        Ok(Seq::empty())
    } else {
        match calendar_events(year, table, names, entries.drop_last()) {
            Err(e) => Err(e),
            Ok(evs) => match entry_events(year, table, names, entries.last()) {
                Err(e) => Err(e),
                Ok(more) => Ok(evs + more),
            },
        }
    }
}

proof fn lemma_days_events_err(
    year: i32,
    table: Map<SimpleDate, SimpleDate>,
    names: Seq<Seq<char>>,
    month: u32,
    days: Seq<u32>,
    ty: TrashType,
    j: int,
)
    requires
        0 <= j <= days.len(),
        days_events(year, table, names, month, days.subrange(0, j), ty) is Err,
    ensures
        days_events(year, table, names, month, days, ty) == days_events(
            year,
            table,
            names,
            month,
            days.subrange(0, j),
            ty,
        ),
    decreases days.len(),
{
    if j < days.len() {
        assert(days.drop_last().subrange(0, j) =~= days.subrange(0, j));
        lemma_days_events_err(year, table, names, month, days.drop_last(), ty, j);
    } else {
        assert(days.subrange(0, j) =~= days);
    }
}

proof fn lemma_calendar_events_err(
    year: i32,
    table: Map<SimpleDate, SimpleDate>,
    names: Seq<Seq<char>>,
    entries: Seq<InputTrashEntry>,
    k: int,
)
    requires
        0 <= k <= entries.len(),
        calendar_events(year, table, names, entries.subrange(0, k)) is Err,
    ensures
        calendar_events(year, table, names, entries) == calendar_events(
            year,
            table,
            names,
            entries.subrange(0, k),
        ),
    decreases entries.len(),
{
    if k < entries.len() {
        assert(entries.drop_last().subrange(0, k) =~= entries.subrange(0, k));
        lemma_calendar_events_err(year, table, names, entries.drop_last(), k);
    } else {
        assert(entries.subrange(0, k) =~= entries);
    }
}

/// Expands one rule to the days of its month on which it collects.
fn rule_days(year: i32, e: InputTrashEntry) -> (r: Result<Vec<u32>, ScheduleError>)
    ensures
        match (r, entry_days(year, e)) {
            (Ok(v), Ok(s)) => v@ == s,
            (Err(a), Err(b)) => a == b,
            _ => false,
        },
{
    match e.day {
        InputTrashDate::Day(d) => match checked_date(year, e.month_number, d) {
            Some(_) => Ok(vec![d]),
            None => Err(ScheduleError::InvalidDate),
        },
        InputTrashDate::Weekdays(w) => Ok(weekdays_in_month(year, e.month_number, w)),
    }
}

/// Turns the rules into events: each rule expands to its days, each day is substituted
/// once through the override table and named after the rule's category.
pub fn fill_calendar(
    entries: &Vec<InputTrashEntry>,
    conversions: &OverrideTable,
    year: i32,
    names: &CategoryTable,
) -> (r: Result<Vec<CalendarEvent>, ScheduleError>)
    ensures
        result_is(r, calendar_events(year, conversions@, names@, entries@)),
{
    let ghost table = conversions@;
    let ghost nm = names@;
    let mut out: Vec<CalendarEvent> = Vec::new();
    let mut k: usize = 0;
    while k < entries.len()
        invariant
            k <= entries.len(),
            table == conversions@,
            nm == names@,
            calendar_events(year, table, nm, entries@.subrange(0, k as int)) is Ok,
            events_are(
                out@,
                calendar_events(year, table, nm, entries@.subrange(0, k as int))->Ok_0,
            ),
        decreases entries.len() - k,
    {
        let e = entries[k];
        let ghost before = out@;
        let ghost prev = calendar_events(year, table, nm, entries@.subrange(0, k as int))->Ok_0;
        assert(entries@.subrange(0, k + 1).drop_last() =~= entries@.subrange(0, k as int));
        let days = match rule_days(year, e) {
            Ok(v) => v,
            Err(err) => {
                proof {
                    lemma_calendar_events_err(year, table, nm, entries@, k + 1);
                }
                return Err(err);
            },
        };
        let mut j: usize = 0;
        assert(days@.subrange(0, 0) =~= Seq::<u32>::empty());
        while j < days.len()
            invariant
                j <= days.len(),
                k < entries.len(),
                e == entries@[k as int],
                table == conversions@,
                nm == names@,
                entry_days(year, e) == Ok::<Seq<u32>, ScheduleError>(days@),
                events_are(before, prev),
                calendar_events(year, table, nm, entries@.subrange(0, k as int)) == Ok::<
                    Seq<(Date, Seq<char>)>,
                    ScheduleError,
                >(prev),
                days_events(year, table, nm, e.month_number, days@.subrange(0, j as int), e.ty) is Ok,
                out@.len() == before.len() + days_events(
                    year,
                    table,
                    nm,
                    e.month_number,
                    days@.subrange(0, j as int),
                    e.ty,
                )->Ok_0.len(),
                forall|i: int| 0 <= i < before.len() ==> out@[i] == before[i],
                forall|i: int|
                    0 <= i < out@.len() - before.len() ==> event_is(
                        #[trigger] out@[before.len() + i],
                        days_events(
                            year,
                            table,
                            nm,
                            e.month_number,
                            days@.subrange(0, j as int),
                            e.ty,
                        )->Ok_0[i],
                    ),
            decreases days.len() - j,
        {
            let d = days[j];
            assert(days@.subrange(0, j + 1).drop_last() =~= days@.subrange(0, j as int));
            let t = conversions.resolve(SimpleDate { month: e.month_number, day: d });
            let date = match checked_date(year, t.month, t.day) {
                Some(x) => x,
                None => {
                    proof {
                        lemma_days_events_err(year, table, nm, e.month_number, days@, e.ty, j + 1);
                        assert(entries@.subrange(0, k + 1).drop_last() =~= entries@.subrange(
                            0,
                            k as int,
                        ));
                        lemma_calendar_events_err(year, table, nm, entries@, k + 1);
                    }
                    return Err(ScheduleError::InvalidDate);
                },
            };
            let name = match names.name_of(e.ty) {
                Some(n) => n,
                None => {
                    proof {
                        lemma_days_events_err(year, table, nm, e.month_number, days@, e.ty, j + 1);
                        assert(entries@.subrange(0, k + 1).drop_last() =~= entries@.subrange(
                            0,
                            k as int,
                        ));
                        lemma_calendar_events_err(year, table, nm, entries@, k + 1);
                    }
                    return Err(ScheduleError::MissingCategoryName);
                },
            };
            let description = name.clone();
            out.push(CalendarEvent { date, title: name, description });
            j = j + 1;
        }
        assert(days@.subrange(0, j as int) =~= days@);
        proof {
            let more = days_events(year, table, nm, e.month_number, days@, e.ty)->Ok_0;
            assert(calendar_events(year, table, nm, entries@.subrange(0, k + 1)) == Ok::<
                Seq<(Date, Seq<char>)>,
                ScheduleError,
            >(prev + more));
            assert forall|i: int| 0 <= i < out@.len() implies event_is(
                #[trigger] out@[i],
                (prev + more)[i],
            ) by {
                if i >= before.len() {
                    assert(out@[before.len() + (i - before.len())] == out@[i]);
                    assert((prev + more)[i] == more[i - before.len()]);
                } else {
                    assert(out@[i] == before[i]);
                    assert(event_is(before[i], prev[i]));
                    assert((prev + more)[i] == prev[i]);
                }
            }
        }
        k = k + 1;
    }
    assert(entries@.subrange(0, k as int) =~= entries@);
    Ok(out)
}

} // verus!
