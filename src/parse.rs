use crate::calendar::Date;
use crate::schedule::{
    calendar_events, fill_calendar, override_map, result_is, trash_type_of, CalendarEvent, CategoryTable,
    InputTrashDate, InputTrashEntry, OverrideTable, ScheduleError, SimpleDate, TrashType,
    CATEGORY_COUNT,
};
use crate::text::{
    chars_of, is_name, parse_i32, parse_i32_spec, parse_u32, parse_u32_in, parse_u32_spec,
    polish_name_to_weekday, weekday_of_name,
};
use vstd::prelude::*;

verus! {

/// The characters of each cell of a row.
pub open spec fn cells_view(row: Vec<String>) -> Seq<Seq<char>> {
    row@.map_values(|c: String| c@)
}

/// The characters of each cell of each row.
pub open spec fn table_view(rows: Seq<Vec<String>>) -> Seq<Seq<Seq<char>>> {
    rows.map_values(|r: Vec<String>| cells_view(r))
}

/// The year that row `pos` declares in its second cell.
pub open spec fn year_spec(rows: Seq<Seq<Seq<char>>>, pos: int) -> Result<i32, ScheduleError> {
    if pos < 0 || pos >= rows.len() {
        Err(ScheduleError::EmptyInput)
    } else if rows[pos].len() < 2 {
        Err(ScheduleError::InvalidYear)
    } else {
        match parse_i32_spec(rows[pos][1]) {
            Some(y) => Ok(y),
            None => Err(ScheduleError::InvalidYear),
        }
    }
}

/// The non-empty cells of a row, in order.
pub open spec fn nonempty_cells(s: Seq<Seq<char>>) -> Seq<Seq<char>>
    decreases s.len(),
{
    if s.len() == 0 {
        Seq::empty()
    } else {
        let p = nonempty_cells(s.drop_last());
        if s.last().len() > 0 {
            p.push(s.last())
        } else {
            p
        }
    }
}

/// A row without its first cell, the label.
pub open spec fn after_label(row: Seq<Seq<char>>) -> Seq<Seq<char>> {
    if row.len() == 0 {
        Seq::empty()
    } else {
        row.subrange(1, row.len() as int)
    }
}

/// The category names that row `pos` gives: its non-empty cells after the label.
pub open spec fn names_spec(rows: Seq<Seq<Seq<char>>>, pos: int) -> Result<
    Seq<Seq<char>>,
    ScheduleError,
> {
    if pos < 0 || pos >= rows.len() {
        Err(ScheduleError::EmptyInput)
    } else {
        let n = nonempty_cells(after_label(rows[pos]));
        if n.len() > CATEGORY_COUNT {
            Err(ScheduleError::TooManyCategories)
        } else {
            Ok(n)
        }
    }
}

/// The rule that cell `i` of a schedule row (counted after the month) gives, if any.
pub open spec fn entry_of_cell(month: u32, i: int, cell: Seq<char>) -> Option<InputTrashEntry> {
    match parse_u32_spec(cell) {
        Some(d) => Some(
            InputTrashEntry {
                month_number: month,
                day: InputTrashDate::Day(d),
                ty: trash_type_of(i / 3),
            },
        ),
        None => match weekday_of_name(cell) {
            Some(w) => Some(
                InputTrashEntry {
                    month_number: month,
                    day: InputTrashDate::Weekdays(w),
                    ty: trash_type_of(i / 3),
                },
            ),
            None => None,
        },
    }
}

/// The rules that the cells after the month give, in order.
pub open spec fn cells_entries(month: u32, cells: Seq<Seq<char>>) -> Seq<InputTrashEntry>
    decreases cells.len(),
{
    if cells.len() == 0 {
        Seq::empty()
    } else {
        let p = cells_entries(month, cells.drop_last());
        match entry_of_cell(month, cells.len() - 1, cells.last()) {
            Some(e) => p.push(e),
            None => p,
        }
    }
}

/// A row that ends a section: no cells, or an empty first cell.
pub open spec fn is_terminator(row: Seq<Seq<char>>) -> bool {
    row.len() == 0 || row[0].len() == 0
}

/// The rules of one schedule row, which starts with its month.
pub open spec fn row_entries_spec(row: Seq<Seq<char>>) -> Result<
    Seq<InputTrashEntry>,
    ScheduleError,
> {
    match parse_u32_spec(row[0]) {
        None => Err(ScheduleError::InvalidMonth),
        Some(m) => if row.len() - 1 > 3 * CATEGORY_COUNT {
            Err(ScheduleError::UnknownCategory)
        } else {
            Ok(cells_entries(m, row.subrange(1, row.len() as int)))
        },
    }
}

/// The rules of the schedule rows from `pos` up to the terminator, and the row after it.
pub open spec fn entries_spec(rows: Seq<Seq<Seq<char>>>, pos: int) -> Result<
    (Seq<InputTrashEntry>, int),
    ScheduleError,
>
    decreases rows.len() - pos,
{
    if pos < 0 || pos >= rows.len() {
        Ok((Seq::empty(), rows.len() as int))
    } else if is_terminator(rows[pos]) {
        Ok((Seq::empty(), pos + 1))
    } else {
        match row_entries_spec(rows[pos]) {
            Err(e) => Err(e),
            Ok(es) => match entries_spec(rows, pos + 1) {
                Err(e) => Err(e),
                Ok((rest, p)) => Ok((es + rest, p)),
            },
        }
    }
}

pub open spec fn prepend_entries(
    acc: Seq<InputTrashEntry>,
    r: Result<(Seq<InputTrashEntry>, int), ScheduleError>,
) -> Result<(Seq<InputTrashEntry>, int), ScheduleError> {
    match r {
        Ok((s, p)) => Ok((acc + s, p)),
        Err(e) => Err(e),
    }
}

/// The row that opens the override section: "dzień" ("day") then "za" ("for").
pub open spec fn is_marker(row: Seq<Seq<char>>) -> bool {
    row.len() >= 2 && row[0] == "dzień"@ && row[1] == "za"@
}

/// The row after the first marker row at or after `pos`; the end if there is none.
pub open spec fn after_marker(rows: Seq<Seq<Seq<char>>>, pos: int) -> int
    decreases rows.len() - pos,
{
    if pos < 0 || pos >= rows.len() {
        rows.len() as int
    } else if is_marker(rows[pos]) {
        pos + 1
    } else {
        after_marker(rows, pos + 1)
    }
}

/// Position of the first `/` at or after `i`; the length if there is none.
pub open spec fn slash_at(s: Seq<char>, i: int) -> int
    decreases s.len() - i,
{
    if i < 0 || i >= s.len() {
        s.len() as int
    } else if s[i] == '/' {
        i
    } else {
        slash_at(s, i + 1)
    }
}

/// The date that a `day/month` cell names; text after a second `/` is ignored.
pub open spec fn day_month_spec(cell: Seq<char>) -> Option<SimpleDate> {
    let k = slash_at(cell, 0);
    if k >= cell.len() {
        None
    } else {
        let k2 = slash_at(cell, k + 1);
        match (parse_u32_spec(cell.subrange(0, k)), parse_u32_spec(cell.subrange(k + 1, k2))) {
            (Some(d), Some(m)) => Some(SimpleDate { month: m, day: d }),
            _ => None,
        }
    }
}

/// The substitution that an override row gives: source date, then target date.
pub open spec fn override_row_spec(row: Seq<Seq<char>>) -> Result<
    (SimpleDate, SimpleDate),
    ScheduleError,
> {
    if row.len() < 2 || row[1].len() == 0 {
        Err(ScheduleError::MissingOverrideTarget)
    } else {
        match (day_month_spec(row[0]), day_month_spec(row[1])) {
            (Some(a), Some(b)) => Ok((a, b)),
            _ => Err(ScheduleError::InvalidOverride),
        }
    }
}

/// The substitutions of the override rows from `pos` up to the terminator.
pub open spec fn overrides_from(rows: Seq<Seq<Seq<char>>>, pos: int) -> Result<
    Seq<(SimpleDate, SimpleDate)>,
    ScheduleError,
>
    decreases rows.len() - pos,
{
    if pos < 0 || pos >= rows.len() || is_terminator(rows[pos]) {
        Ok(Seq::empty())
    } else {
        match override_row_spec(rows[pos]) {
            Err(e) => Err(e),
            Ok(p) => match overrides_from(rows, pos + 1) {
                Err(e) => Err(e),
                Ok(rest) => Ok(seq![p] + rest),
            },
        }
    }
}

/// The substitutions of the override section that follows the marker row.
pub open spec fn overrides_spec(rows: Seq<Seq<Seq<char>>>, pos: int) -> Result<
    Seq<(SimpleDate, SimpleDate)>,
    ScheduleError,
> {
    overrides_from(rows, after_marker(rows, pos))
}

pub open spec fn prepend_overrides(
    acc: Seq<(SimpleDate, SimpleDate)>,
    r: Result<Seq<(SimpleDate, SimpleDate)>, ScheduleError>,
) -> Result<Seq<(SimpleDate, SimpleDate)>, ScheduleError> {
    match r {
        Ok(s) => Ok(acc + s),
        Err(e) => Err(e),
    }
}

/// The events that a whole table describes: year, names, rules, overrides, in that order.
pub open spec fn pipeline_spec(rows: Seq<Seq<Seq<char>>>) -> Result<
    Seq<(Date, Seq<char>)>,
    ScheduleError,
> {
    match year_spec(rows, 0) {
        Err(e) => Err(e),
        Ok(y) => match names_spec(rows, 1) {
            Err(e) => Err(e),
            Ok(n) => match entries_spec(rows, 2) {
                Err(e) => Err(e),
                Ok((es, p)) => match overrides_spec(rows, p) {
                    Err(e) => Err(e),
                    Ok(ov) => calendar_events(y, override_map(ov), n, es),
                },
            },
        },
    }
}

/// Reads the year from the second cell of row `pos`.
pub fn parse_year(rows: &Vec<Vec<String>>, pos: usize) -> (r: Result<i32, ScheduleError>)
    ensures
        r == year_spec(table_view(rows@), pos as int),
{
    if pos >= rows.len() {
        return Err(ScheduleError::EmptyInput);
    }
    let row = &rows[pos];
    if row.len() < 2 {
        return Err(ScheduleError::InvalidYear);
    }
    match parse_i32(&row[1]) {
        Some(y) => Ok(y),
        None => Err(ScheduleError::InvalidYear),
    }
}

proof fn lemma_nonempty_prefix(s: Seq<Seq<char>>, k: int)
    requires
        0 <= k <= s.len(),
    ensures
        nonempty_cells(s.subrange(0, k)).len() <= nonempty_cells(s).len(),
    decreases s.len(),
{
    if k < s.len() {
        assert(s.drop_last().subrange(0, k) =~= s.subrange(0, k));
        lemma_nonempty_prefix(s.drop_last(), k);
    } else {
        assert(s.subrange(0, k) =~= s);
    }
}

/// Reads the category names from row `pos`: each non-empty cell after the label names
/// the next category.
pub fn parse_trash_names(rows: &Vec<Vec<String>>, pos: usize) -> (r: Result<
    CategoryTable,
    ScheduleError,
>)
    ensures
        match (r, names_spec(table_view(rows@), pos as int)) {
            (Ok(t), Ok(n)) => t@ == n,
            (Err(a), Err(b)) => a == b,
            _ => false,
        },
{
    if pos >= rows.len() {
        return Err(ScheduleError::EmptyInput);
    }
    let row = &rows[pos];
    let ghost rv = cells_view(*row);
    assert(rv == table_view(rows@)[pos as int]);
    let mut names: Vec<String> = Vec::new();
    if row.len() == 0 {
        assert(names@.map_values(|s: String| s@) =~= Seq::<Seq<char>>::empty());
        return Ok(CategoryTable { names });
    }
    let ghost tail = rv.subrange(1, rv.len() as int);
    let mut j: usize = 1;
    assert(tail.subrange(0, 0) =~= Seq::<Seq<char>>::empty());
    assert(names@.map_values(|s: String| s@) =~= Seq::<Seq<char>>::empty());
    while j < row.len()
        invariant
            1 <= j <= row.len(),
            pos < rows.len(),
            *row == rows@[pos as int],
            rv == cells_view(*row),
            rv == table_view(rows@)[pos as int],
            tail == rv.subrange(1, rv.len() as int),
            names@.len() <= CATEGORY_COUNT,
            names@.map_values(|s: String| s@) == nonempty_cells(tail.subrange(0, j - 1)),
        decreases row.len() - j,
    {
        let cell = &row[j];
        assert(tail.subrange(0, j as int).drop_last() =~= tail.subrange(0, j - 1));
        assert(tail[j - 1] == cell@);
        if !cell.as_str().is_empty() {
            assert(cell@.len() > 0);
            if names.len() == CATEGORY_COUNT {
                proof {
                    lemma_nonempty_prefix(tail, j as int);
                    assert(tail.subrange(0, j as int).last() == cell@);
                    assert(names@.map_values(|s: String| s@).len() == names@.len());
                    assert(nonempty_cells(tail.subrange(0, j as int)).len() == names@.len() + 1);
                    assert(after_label(rv) == tail);
                    assert(nonempty_cells(tail).len() > CATEGORY_COUNT);
                    assert(table_view(rows@)[pos as int] == rv);
                    assert(names_spec(table_view(rows@), pos as int) == Err::<
                        Seq<Seq<char>>,
                        ScheduleError,
                    >(ScheduleError::TooManyCategories));
                }
                return Err(ScheduleError::TooManyCategories);
            }
            let ghost before = names@;
            names.push(cell.clone());
            assert(names@.map_values(|s: String| s@) =~= before.map_values(|s: String| s@).push(
                cell@,
            ));
        } else {
            assert(cell@.len() == 0);
        }
        j = j + 1;
    }
    assert(tail.subrange(0, j - 1) =~= tail);
    Ok(CategoryTable { names })
}

/// Reads the rules of one schedule row: the month, then cells in runs of three per
/// category, each a day of the month or a weekday name; other cells are skipped.
pub fn parse_row_entries(row: &Vec<String>) -> (r: Result<Vec<InputTrashEntry>, ScheduleError>)
    requires
        !is_terminator(cells_view(*row)),
    ensures
        match (r, row_entries_spec(cells_view(*row))) {
            (Ok(v), Ok(s)) => v@ == s,
            (Err(a), Err(b)) => a == b,
            _ => false,
        },
{
    let ghost rv = cells_view(*row);
    let month = match parse_u32(&row[0]) {
        Some(m) => m,
        None => {
            return Err(ScheduleError::InvalidMonth);
        },
    };
    let ghost tail = rv.subrange(1, rv.len() as int);
    let mut out: Vec<InputTrashEntry> = Vec::new();
    let mut j: usize = 1;
    assert(tail.subrange(0, 0) =~= Seq::<Seq<char>>::empty());
    while j < row.len()
        invariant
            1 <= j <= row.len(),
            rv == cells_view(*row),
            tail == rv.subrange(1, rv.len() as int),
            parse_u32_spec(rv[0]) == Some(month),
            j - 1 <= 3 * CATEGORY_COUNT,
            out@ == cells_entries(month, tail.subrange(0, j - 1)),
        decreases row.len() - j,
    {
        let i: usize = j - 1;
        let ty = match TrashType::from_index(i / 3) {
            Ok(t) => t,
            Err(e) => {
                return Err(e);
            },
        };
        let cell = &row[j];
        assert(tail.subrange(0, j as int).drop_last() =~= tail.subrange(0, j - 1));
        assert(tail[j - 1] == cell@);
        match parse_u32(cell) {
            Some(d) => {
                out.push(InputTrashEntry { month_number: month, day: InputTrashDate::Day(d), ty });
            },
            None => match polish_name_to_weekday(cell) {
                Some(w) => {
                    out.push(
                        InputTrashEntry {
                            month_number: month,
                            day: InputTrashDate::Weekdays(w),
                            ty,
                        },
                    );
                },
                None => {},
            },
        }
        j = j + 1;
    }
    assert(tail.subrange(0, j - 1) =~= tail);
    Ok(out)
}

/// Reads schedule rows from `pos` up to a row with an empty first cell, or the end;
/// returns the rules and the position after the terminator.
pub fn parse_trash_entries(rows: &Vec<Vec<String>>, pos: usize) -> (r: Result<
    (Vec<InputTrashEntry>, usize),
    ScheduleError,
>)
    ensures
        match (r, entries_spec(table_view(rows@), pos as int)) {
            (Ok((v, p)), Ok((s, q))) => v@ == s && p == q,
            (Err(a), Err(b)) => a == b,
            _ => false,
        },
{
    let ghost rv = table_view(rows@);
    let mut acc: Vec<InputTrashEntry> = Vec::new();
    let mut i: usize = pos;
    proof {
        assert(Seq::<InputTrashEntry>::empty() + Seq::<InputTrashEntry>::empty() =~= Seq::<
            InputTrashEntry,
        >::empty());
        match entries_spec(rv, pos as int) {
            Ok((s, p)) => {
                assert(acc@ + s =~= s);
            },
            Err(_) => {},
        }
    }
    while i < rows.len()
        invariant
            rv == table_view(rows@),
            pos <= i || i >= rows.len(),
            entries_spec(rv, pos as int) == prepend_entries(acc@, entries_spec(rv, i as int)),
        decreases rows.len() - i,
    {
        let row = &rows[i];
        assert(rv[i as int] == cells_view(*row));
        if row.len() == 0 || row[0].as_str().is_empty() {
            assert(is_terminator(rv[i as int]));
            assert(acc@ + Seq::<InputTrashEntry>::empty() =~= acc@);
            return Ok((acc, i + 1));
        }
        let es = match parse_row_entries(row) {
            Ok(v) => v,
            Err(e) => {
                return Err(e);
            },
        };
        let ghost before = acc@;
        let mut k: usize = 0;
        while k < es.len()
            invariant
                k <= es.len(),
                acc@ == before + es@.subrange(0, k as int),
            decreases es.len() - k,
        {
            acc.push(es[k]);
            assert(before + es@.subrange(0, k + 1) =~= (before + es@.subrange(0, k as int)).push(
                es@[k as int],
            ));
            k = k + 1;
        }
        proof {
            assert(es@.subrange(0, k as int) =~= es@);
            match entries_spec(rv, i + 1) {
                Ok((s, p)) => {
                    assert(before + (es@ + s) =~= acc@ + s);
                },
                Err(_) => {},
            }
        }
        i = i + 1;
    }
    assert(acc@ + Seq::<InputTrashEntry>::empty() =~= acc@);
    Ok((acc, rows.len()))
}

/// Position of the first `/` in `c` at or after `from`; the length if there is none.
fn find_slash(c: &Vec<char>, from: usize) -> (r: usize)
    requires
        from <= c.len(),
    ensures
        r == slash_at(c@, from as int),
        from <= r <= c.len(),
{
    let mut i: usize = from;
    while i < c.len()
        invariant
            from <= i <= c.len(),
            slash_at(c@, from as int) == slash_at(c@, i as int),
        decreases c.len() - i,
    {
        if c[i] == '/' {
            return i;
        }
        i = i + 1;
    }
    i
}

proof fn lemma_slash_at_bounds(s: Seq<char>, i: int)
    requires
        0 <= i <= s.len(),
    ensures
        i <= slash_at(s, i) <= s.len(),
    decreases s.len() - i,
{
    if i < s.len() && s[i] != '/' {
        lemma_slash_at_bounds(s, i + 1);
    }
}

/// Reads a `day/month` cell.
pub fn parse_day_month(cell: &String) -> (r: Option<SimpleDate>)
    ensures
        r == day_month_spec(cell@),
{
    let c = chars_of(cell);
    let k = find_slash(&c, 0);
    if k >= c.len() {
        return None;
    }
    let k2 = find_slash(&c, k + 1);
    let day = parse_u32_in(&c, 0, k);
    let month = parse_u32_in(&c, k + 1, k2);
    match (day, month) {
        (Some(d), Some(m)) => Some(SimpleDate { month: m, day: d }),
        _ => None,
    }
}

/// Reads one override row: the source date, then the date it moves to.
pub fn parse_override_row(row: &Vec<String>) -> (r: Result<
    (SimpleDate, SimpleDate),
    ScheduleError,
>)
    ensures
        r == override_row_spec(cells_view(*row)),
{
    if row.len() < 2 || row[1].as_str().is_empty() {
        return Err(ScheduleError::MissingOverrideTarget);
    }
    match (parse_day_month(&row[0]), parse_day_month(&row[1])) {
        (Some(a), Some(b)) => Ok((a, b)),
        _ => Err(ScheduleError::InvalidOverride),
    }
}

/// Skips rows from `pos` up to the marker row "dzień", "za", then reads override rows
/// up to a row with an empty first cell, or the end.
pub fn parse_conversions(rows: &Vec<Vec<String>>, pos: usize) -> (r: Result<
    OverrideTable,
    ScheduleError,
>)
    ensures
        match (r, overrides_spec(table_view(rows@), pos as int)) {
            (Ok(t), Ok(s)) => t.entries@ == s && t@ == override_map(s),
            (Err(a), Err(b)) => a == b,
            _ => false,
        },
{
    let ghost rv = table_view(rows@);
    let mut i: usize = pos;
    let mut found = false;
    while i < rows.len() && !found
        invariant
            rv == table_view(rows@),
            pos <= i || i >= rows.len(),
            !found ==> after_marker(rv, pos as int) == after_marker(rv, i as int),
            found ==> after_marker(rv, pos as int) == i,
        decreases rows.len() - i,
    {
        let row = &rows[i];
        assert(rv[i as int] == cells_view(*row));
        if row.len() >= 2 && is_name(&row[0], "dzień") && is_name(&row[1], "za") {
            found = true;
        }
        i = i + 1;
    }
    let mut table = OverrideTable::new();
    if !found {
        i = rows.len();
    }
    assert(after_marker(rv, pos as int) == i);
    assert(table.entries@ + Seq::<(SimpleDate, SimpleDate)>::empty() =~= table.entries@);
    proof {
        match overrides_from(rv, i as int) {
            Ok(s) => {
                assert(table.entries@ + s =~= s);
            },
            Err(_) => {},
        }
    }
    while i < rows.len()
        invariant
            rv == table_view(rows@),
            overrides_spec(rv, pos as int) == prepend_overrides(
                table.entries@,
                overrides_from(rv, i as int),
            ),
        decreases rows.len() - i,
    {
        let row = &rows[i];
        assert(rv[i as int] == cells_view(*row));
        if row.len() == 0 || row[0].as_str().is_empty() {
            assert(table.entries@ + Seq::<(SimpleDate, SimpleDate)>::empty() =~= table.entries@);
            return Ok(table);
        }
        let (from, to) = match parse_override_row(row) {
            Ok(p) => p,
            Err(e) => {
                return Err(e);
            },
        };
        let ghost before = table.entries@;
        table.insert(from, to);
        proof {
            match overrides_from(rv, i + 1) {
                Ok(s) => {
                    assert(before + (seq![(from, to)] + s) =~= table.entries@ + s);
                },
                Err(_) => {},
            }
        }
        i = i + 1;
    }
    assert(table.entries@ + Seq::<(SimpleDate, SimpleDate)>::empty() =~= table.entries@);
    Ok(table)
}

/// Turns a whole table into events: the year from row 0, the names from row 1, the
/// schedule rows from row 2, then the override section.
pub fn convert(rows: &Vec<Vec<String>>) -> (r: Result<Vec<CalendarEvent>, ScheduleError>)
    ensures
        result_is(r, pipeline_spec(table_view(rows@))),
{
    let year = match parse_year(rows, 0) {
        Ok(y) => y,
        Err(e) => {
            return Err(e);
        },
    };
    let names = match parse_trash_names(rows, 1) {
        Ok(n) => n,
        Err(e) => {
            return Err(e);
        },
    };
    let (entries, next) = match parse_trash_entries(rows, 2) {
        Ok(p) => p,
        Err(e) => {
            return Err(e);
        },
    };
    let conversions = match parse_conversions(rows, next) {
        Ok(t) => t,
        Err(e) => {
            return Err(e);
        },
    };
    fill_calendar(&entries, &conversions, year, &names)
}

} // verus!
