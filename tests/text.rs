use trash_calendar::calendar::Weekday;
use trash_calendar::default_output_path;
use trash_calendar::text::{parse_i32, parse_u32, polish_name_to_weekday};

fn s(x: &str) -> String {
    x.to_string()
}

#[test]
fn weekday_names_and_abbreviations() {
    assert_eq!(polish_name_to_weekday(&s("poniedziałek")), Some(Weekday::Mon));
    assert_eq!(polish_name_to_weekday(&s("poniedzialek")), Some(Weekday::Mon));
    assert_eq!(polish_name_to_weekday(&s("wto")), Some(Weekday::Tue));
    assert_eq!(polish_name_to_weekday(&s("środa")), Some(Weekday::Wed));
    assert_eq!(polish_name_to_weekday(&s("cz")), Some(Weekday::Thu));
    assert_eq!(polish_name_to_weekday(&s("pią")), Some(Weekday::Fri));
    assert_eq!(polish_name_to_weekday(&s("pt")), Some(Weekday::Fri));
    assert_eq!(polish_name_to_weekday(&s("sob")), Some(Weekday::Sat));
    assert_eq!(polish_name_to_weekday(&s("niedz")), Some(Weekday::Sun));
    assert_eq!(polish_name_to_weekday(&s("Pon")), None);
    assert_eq!(polish_name_to_weekday(&s("")), None);
}

#[test]
fn unsigned_numbers() {
    assert_eq!(parse_u32(&s("15")), Some(15));
    assert_eq!(parse_u32(&s("+7")), Some(7));
    assert_eq!(parse_u32(&s("4294967295")), Some(4294967295));
    assert_eq!(parse_u32(&s("4294967296")), None);
    assert_eq!(parse_u32(&s("")), None);
    assert_eq!(parse_u32(&s("-1")), None);
    assert_eq!(parse_u32(&s("1a")), None);
}

#[test]
fn signed_numbers() {
    assert_eq!(parse_i32(&s("2024")), Some(2024));
    assert_eq!(parse_i32(&s("-2147483648")), Some(i32::MIN));
    assert_eq!(parse_i32(&s("2147483648")), None);
    assert_eq!(parse_i32(&s("-")), None);
    assert_eq!(parse_i32(&s("+-1")), None);
}

#[test]
fn default_output_name() {
    assert_eq!(default_output_path(), "output.ics");
}
