use trash_calendar::calendar::{weekdays_in_month, Date, Weekday};
use trash_calendar::parse::{
    convert, parse_conversions, parse_day_month, parse_trash_entries, parse_trash_names,
    parse_year,
};
use trash_calendar::schedule::{
    fill_calendar, CalendarEvent, CategoryTable, InputTrashDate, InputTrashEntry, OverrideTable,
    ScheduleError, SimpleDate, TrashType,
};

fn row(cells: &[&str]) -> Vec<String> {
    cells.iter().map(|c| c.to_string()).collect()
}

fn table(rows: &[&[&str]]) -> Vec<Vec<String>> {
    rows.iter().map(|r| row(r)).collect()
}

fn dates(events: &[CalendarEvent]) -> Vec<(i32, u32, u32)> {
    events.iter().map(|e| (e.date.year, e.date.month, e.date.day)).collect()
}

fn err_of(r: Result<Vec<CalendarEvent>, ScheduleError>) -> ScheduleError {
    match r {
        Ok(v) => panic!("expected an error, got {} events", v.len()),
        Err(e) => e,
    }
}

#[test]
fn literal_day_gives_one_event() {
    let rows = table(&[&["Rok", "2024"], &["", "Mixed"], &["3", "15"], &[""]]);
    let events = convert(&rows).unwrap();
    assert_eq!(dates(&events), vec![(2024, 3, 15)]);
    assert_eq!(events[0].title, "Mixed");
    assert_eq!(events[0].description, "Mixed");
}

#[test]
fn weekday_rule_gives_every_monday() {
    let rows = table(&[&["Rok", "2024"], &["", "Mixed"], &["4", "poniedziałek"], &[""]]);
    let events = convert(&rows).unwrap();
    assert_eq!(
        dates(&events),
        vec![(2024, 4, 1), (2024, 4, 8), (2024, 4, 15), (2024, 4, 22), (2024, 4, 29)]
    );
}

#[test]
fn override_moves_the_event() {
    let rows = table(&[
        &["Rok", "2024"],
        &["", "Mixed"],
        &["12", "24"],
        &[""],
        &["uwagi", "x"],
        &["dzień", "za"],
        &["24/12", "23/12"],
    ]);
    let events = convert(&rows).unwrap();
    assert_eq!(dates(&events), vec![(2024, 12, 23)]);
}

#[test]
fn unrecognized_cell_is_skipped() {
    let rows = table(&[&["Rok", "2024"], &["", "Mixed"], &["3", "xyz", "15"], &[""]]);
    let events = convert(&rows).unwrap();
    assert_eq!(dates(&events), vec![(2024, 3, 15)]);
}

#[test]
fn missing_category_name_is_fatal() {
    let rows = table(&[&["Rok", "2024"], &["", "Mixed"], &["3", "", "", "", "15"], &[""]]);
    assert_eq!(err_of(convert(&rows)), ScheduleError::MissingCategoryName);
}

#[test]
fn rerun_gives_the_same_events() {
    let rows = table(&[
        &["Rok", "2024"],
        &["", "Mixed", "", "Metal"],
        &["1", "sro", "", "", "5"],
        &["2", "7", "", "", "pt"],
        &[""],
        &["dzień", "za"],
        &["7/2", "8/2"],
    ]);
    let a = convert(&rows).unwrap();
    let b = convert(&rows).unwrap();
    assert_eq!(dates(&a), dates(&b));
    let ta: Vec<String> = a.iter().map(|e| e.title.clone()).collect();
    let tb: Vec<String> = b.iter().map(|e| e.title.clone()).collect();
    assert_eq!(ta, tb);
    assert_eq!(a.len(), 5 + 1 + 1 + 4);
    assert_eq!(dates(&a[0..5]), vec![(2024, 1, 3), (2024, 1, 10), (2024, 1, 17), (2024, 1, 24), (2024, 1, 31)]);
    assert_eq!(a[5].title, "Metal");
    assert_eq!(dates(&a[5..7]), vec![(2024, 1, 5), (2024, 2, 8)]);
    assert_eq!(dates(&a[7..11]), vec![(2024, 2, 2), (2024, 2, 9), (2024, 2, 16), (2024, 2, 23)]);
}

#[test]
fn override_chain_stops_after_one_hop() {
    let rows = table(&[
        &["Rok", "2024"],
        &["", "Mixed"],
        &["5", "1"],
        &[""],
        &["dzień", "za"],
        &["1/5", "2/5"],
        &["2/5", "3/5"],
    ]);
    let events = convert(&rows).unwrap();
    assert_eq!(dates(&events), vec![(2024, 5, 2)]);
}

#[test]
fn later_override_replaces_earlier() {
    let mut t = OverrideTable::new();
    let from = SimpleDate { month: 6, day: 1 };
    t.insert(from, SimpleDate { month: 6, day: 2 });
    t.insert(from, SimpleDate { month: 6, day: 3 });
    assert_eq!(t.resolve(from), SimpleDate { month: 6, day: 3 });
    let other = SimpleDate { month: 7, day: 1 };
    assert_eq!(t.resolve(other), other);
}

#[test]
fn empty_table_is_fatal() {
    assert_eq!(err_of(convert(&Vec::new())), ScheduleError::EmptyInput);
    let rows = table(&[&["Rok", "2024"]]);
    assert_eq!(err_of(convert(&rows)), ScheduleError::EmptyInput);
}

#[test]
fn year_must_be_numeric() {
    let rows = table(&[&["Rok", "abc"], &["", "Mixed"]]);
    assert_eq!(err_of(convert(&rows)), ScheduleError::InvalidYear);
    assert_eq!(parse_year(&table(&[&["Rok"]]), 0), Err(ScheduleError::InvalidYear));
    assert_eq!(parse_year(&table(&[&["Rok", "-44"]]), 0), Ok(-44));
    assert_eq!(parse_year(&table(&[&["Rok", "+2025"]]), 0), Ok(2025));
}

#[test]
fn names_skip_empty_cells() {
    let rows = table(&[&["Nazwy", "", "A", "", "B"]]);
    let t = parse_trash_names(&rows, 0).unwrap();
    assert_eq!(t.names, vec!["A".to_string(), "B".to_string()]);
    assert_eq!(t.name_of(TrashType::Metal), Some("B".to_string()));
    assert_eq!(t.name_of(TrashType::Paper), None);
}

#[test]
fn too_many_names_is_fatal() {
    let rows = table(&[&["N", "1", "2", "3", "4", "5", "6", "7", "8"]]);
    assert_eq!(parse_trash_names(&rows, 0).err(), Some(ScheduleError::TooManyCategories));
    let seven = table(&[&["N", "1", "2", "3", "4", "5", "6", "7"]]);
    assert_eq!(parse_trash_names(&seven, 0).unwrap().names.len(), 7);
}

#[test]
fn cell_past_last_category_is_fatal() {
    let mut cells = vec!["1"];
    cells.extend(std::iter::repeat("").take(22));
    let rows = vec![row(&cells)];
    assert_eq!(parse_trash_entries(&rows, 0).err(), Some(ScheduleError::UnknownCategory));
}

#[test]
fn month_must_be_numeric() {
    let rows = table(&[&["marzec", "15"]]);
    assert_eq!(parse_trash_entries(&rows, 0).err(), Some(ScheduleError::InvalidMonth));
}

#[test]
fn entries_stop_at_terminator() {
    let rows = table(&[&["3", "15", "", "", "czw"], &["", "x"], &["4", "1"]]);
    let (entries, next) = parse_trash_entries(&rows, 0).unwrap();
    assert_eq!(next, 2);
    assert_eq!(
        entries,
        vec![
            InputTrashEntry { month_number: 3, day: InputTrashDate::Day(15), ty: TrashType::Mixed },
            InputTrashEntry {
                month_number: 3,
                day: InputTrashDate::Weekdays(Weekday::Thu),
                ty: TrashType::Metal,
            },
        ]
    );
}

#[test]
fn override_without_target_is_fatal() {
    let rows = table(&[&["dzień", "za"], &["24/12", ""]]);
    assert_eq!(parse_conversions(&rows, 0).err(), Some(ScheduleError::MissingOverrideTarget));
    let short = table(&[&["dzień", "za"], &["24/12"]]);
    assert_eq!(parse_conversions(&short, 0).err(), Some(ScheduleError::MissingOverrideTarget));
}

#[test]
fn override_needs_day_and_month() {
    let rows = table(&[&["dzień", "za"], &["24", "23/12"]]);
    assert_eq!(parse_conversions(&rows, 0).err(), Some(ScheduleError::InvalidOverride));
    assert_eq!(parse_day_month(&"5/11".to_string()), Some(SimpleDate { month: 11, day: 5 }));
    assert_eq!(parse_day_month(&"5/11/2024".to_string()), Some(SimpleDate { month: 11, day: 5 }));
    assert_eq!(parse_day_month(&"5/x".to_string()), None);
}

#[test]
fn overrides_without_marker_are_empty() {
    let rows = table(&[&["24/12", "23/12"]]);
    assert_eq!(parse_conversions(&rows, 0).unwrap().entries.len(), 0);
}

#[test]
fn overrides_end_at_empty_row() {
    let rows = table(&[&["dzień", "za"], &["1/1", "2/1"], &[""], &["3/1", "4/1"]]);
    let t = parse_conversions(&rows, 0).unwrap();
    assert_eq!(
        t.entries,
        vec![(SimpleDate { month: 1, day: 1 }, SimpleDate { month: 1, day: 2 })]
    );
}

#[test]
fn impossible_day_is_fatal() {
    let rows = table(&[&["Rok", "2024"], &["", "Mixed"], &["4", "31"], &[""]]);
    assert_eq!(err_of(convert(&rows)), ScheduleError::InvalidDate);
    let leap = table(&[&["Rok", "2023"], &["", "Mixed"], &["2", "29"], &[""]]);
    assert_eq!(err_of(convert(&leap)), ScheduleError::InvalidDate);
    let ok = table(&[&["Rok", "2024"], &["", "Mixed"], &["2", "29"], &[""]]);
    assert_eq!(dates(&convert(&ok).unwrap()), vec![(2024, 2, 29)]);
}

#[test]
fn impossible_override_target_is_fatal() {
    let rows = table(&[
        &["Rok", "2024"],
        &["", "Mixed"],
        &["2", "1"],
        &[""],
        &["dzień", "za"],
        &["1/2", "30/2"],
    ]);
    assert_eq!(err_of(convert(&rows)), ScheduleError::InvalidDate);
}

#[test]
fn weekday_rule_in_bad_month_gives_nothing() {
    let rows = table(&[&["Rok", "2024"], &["", "Mixed"], &["13", "pon"], &[""]]);
    assert_eq!(convert(&rows).unwrap().len(), 0);
}

#[test]
fn weekdays_of_february_leap_year() {
    assert_eq!(weekdays_in_month(2024, 2, Weekday::Thu), vec![1, 8, 15, 22, 29]);
    assert_eq!(weekdays_in_month(2023, 2, Weekday::Wed), vec![1, 8, 15, 22]);
    assert_eq!(weekdays_in_month(2024, 9, Weekday::Sun), vec![1, 8, 15, 22, 29]);
    assert_eq!(weekdays_in_month(2024, 0, Weekday::Sun), Vec::<u32>::new());
}

#[test]
fn fill_calendar_names_and_substitutes() {
    let entries = vec![InputTrashEntry {
        month_number: 1,
        day: InputTrashDate::Day(6),
        ty: TrashType::Glass,
    }];
    let names = CategoryTable {
        names: vec!["a".to_string(), "b".to_string(), "c".to_string(), "Szkło".to_string()],
    };
    let mut t = OverrideTable::new();
    t.insert(SimpleDate { month: 1, day: 6 }, SimpleDate { month: 1, day: 7 });
    let events = fill_calendar(&entries, &t, 2025, &names).unwrap();
    assert_eq!(events.len(), 1);
    assert_eq!(events[0].date, Date { year: 2025, month: 1, day: 7 });
    assert_eq!(events[0].title, "Szkło");
}

#[test]
fn category_indices() {
    assert_eq!(TrashType::from_index(0), Ok(TrashType::Mixed));
    assert_eq!(TrashType::from_index(6), Ok(TrashType::ChristmasTree));
    assert_eq!(TrashType::from_index(7), Err(ScheduleError::UnknownCategory));
}
