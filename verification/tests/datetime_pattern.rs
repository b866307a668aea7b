use icu_pattern::datetime::{Error, Pattern, PatternItem, TimeGranularity};
use icu_pattern::fields::{
    Day, DayPeriod, Field, FieldLength, FieldSymbol, Hour, Month, Second, TimeZone, Weekday, Year,
};

fn field(symbol: FieldSymbol, length: FieldLength) -> PatternItem {
    PatternItem::Field(Field { symbol, length })
}

fn lit(s: &str) -> PatternItem {
    PatternItem::Literal(s.to_string())
}

fn items(input: &str) -> Vec<PatternItem> {
    Pattern::from_bytes(input).expect("valid pattern").items().to_vec()
}

#[test]
fn datetime_parse_simple() {
    assert_eq!(
        items("dd/MM/y"),
        vec![
            field(FieldSymbol::Day(Day::DayOfMonth), FieldLength::TwoDigit),
            lit("/"),
            field(FieldSymbol::Month(Month::Format), FieldLength::TwoDigit),
            lit("/"),
            field(FieldSymbol::Year(Year::Calendar), FieldLength::One),
        ]
    );
    assert_eq!(
        items("HH:mm:ss"),
        vec![
            field(FieldSymbol::Hour(Hour::H23), FieldLength::TwoDigit),
            lit(":"),
            field(FieldSymbol::Minute, FieldLength::TwoDigit),
            lit(":"),
            field(FieldSymbol::Second(Second::Second), FieldLength::TwoDigit),
        ]
    );
    assert_eq!(
        items("y年M月d日"),
        vec![
            field(FieldSymbol::Year(Year::Calendar), FieldLength::One),
            lit("年"),
            field(FieldSymbol::Month(Month::Format), FieldLength::One),
            lit("月"),
            field(FieldSymbol::Day(Day::DayOfMonth), FieldLength::One),
            lit("日"),
        ]
    );
}

#[test]
fn datetime_parse_literals() {
    let year2 = field(FieldSymbol::Year(Year::Calendar), FieldLength::TwoDigit);
    assert_eq!(items(""), vec![]);
    assert_eq!(items(" "), vec![lit(" ")]);
    assert_eq!(items("  "), vec![lit("  ")]);
    assert_eq!(items(" żółć "), vec![lit(" żółć ")]);
    assert_eq!(items("''"), vec![lit("'")]);
    assert_eq!(items(" ''"), vec![lit(" '")]);
    assert_eq!(items(" '' "), vec![lit(" ' ")]);
    assert_eq!(items("yy''"), vec![year2.clone(), lit("'")]);
    assert_eq!(items("'' yy"), vec![lit("' "), year2.clone()]);
    assert_eq!(
        items("hh 'o''clock' a"),
        vec![
            field(FieldSymbol::Hour(Hour::H12), FieldLength::TwoDigit),
            lit(" o'clock "),
            field(FieldSymbol::DayPeriod(DayPeriod::AmPm), FieldLength::One),
        ]
    );
    // Letters that are no field symbol are literal text.
    assert_eq!(items("yy QQ"), vec![year2, lit(" QQ")]);
}

#[test]
fn datetime_parse_errors() {
    assert_eq!(Pattern::from_bytes(" 'foo "), Err(Error::UnclosedLiteral));
    assert_eq!(Pattern::from_bytes("y'"), Err(Error::UnclosedLiteral));
    assert_eq!(
        Pattern::from_bytes("yyyyyyy"),
        Err(Error::FieldTooLong(FieldSymbol::Year(Year::Calendar)))
    );
    assert_eq!(
        Pattern::from_bytes("hh:mm:ss.SSSSSSSSS"),
        Err(Error::FieldTooLong(FieldSymbol::Second(Second::FractionalSecond)))
    );
    // The first error in reading order is the one reported.
    assert_eq!(
        Pattern::from_bytes("MMMMMMM 'x"),
        Err(Error::FieldTooLong(FieldSymbol::Month(Month::Format)))
    );
}

#[test]
fn pattern_six_repetitions_allowed() {
    assert_eq!(
        items("SSSSSS"),
        vec![field(FieldSymbol::Second(Second::FractionalSecond), FieldLength::Six)]
    );
}

#[test]
fn pattern_to_string() {
    let p = Pattern::from_bytes("dd/MM/y").unwrap();
    assert_eq!(p.to_pattern_string(), "dd/MM/y");
    let p = Pattern::from_bytes("EEEE, d MMMM y 'at' HH:mm").unwrap();
    assert_eq!(p.to_pattern_string(), "EEEE, d MMMM y 'at' HH:mm");
    let p = Pattern::from_bytes("hh 'o''clock' a").unwrap();
    assert_eq!(p.to_pattern_string(), "hh 'o''clock' a");
    // Trailing whitespace is written after the quote, in its order.
    let p = Pattern::from_items(vec![lit("x \t"), field(FieldSymbol::Minute, FieldLength::One)]);
    assert_eq!(p.to_pattern_string(), "'x' \tm");
    let p = Pattern::from_items(vec![lit("at \t")]);
    assert_eq!(p.to_pattern_string(), "'at' \t");
    // Apostrophes are doubled; text with a letter or an apostrophe is quoted...
    let p = Pattern::from_items(vec![lit("o'clock")]);
    assert_eq!(p.to_pattern_string(), "'o''clock'");
    let p = Pattern::from_items(vec![lit("'-")]);
    assert_eq!(p.to_pattern_string(), "'''-'");
    let p = Pattern::from_items(vec![lit(" -' ")]);
    assert_eq!(p.to_pattern_string(), " '-''' ");
    // ...unless it is apostrophes alone between its whitespace.
    let p = Pattern::from_items(vec![lit(" ' ")]);
    assert_eq!(p.to_pattern_string(), " '' ");
    let p = Pattern::from_items(vec![lit("''")]);
    assert_eq!(p.to_pattern_string(), "''''");
    let p = Pattern::from_items(vec![lit("'a")]);
    assert_eq!(p.to_pattern_string(), "'''a'");
    // Literals without letters or apostrophes are written as they are.
    let p = Pattern::from_items(vec![lit(" - ")]);
    assert_eq!(p.to_pattern_string(), " - ");
}

#[test]
fn pattern_format_parse_roundtrip() {
    for input in [
        "dd/MM/y",
        "EEEE, d MMMM y 'at' HH:mm",
        "h:mm a zzzz",
        " 'week' w ",
        "LLL ccc e",
        "hh 'o''clock' a",
        "'' yy",
        "'a' \t",
        "y'''x'''y",
        "'''' d",
        "'''-' h",
        "h ' -''' m",
    ] {
        let p = Pattern::from_bytes(input).unwrap();
        let again = Pattern::from_bytes(&p.to_pattern_string()).unwrap();
        assert_eq!(again.items(), p.items());
    }
}

#[test]
fn pattern_most_granular_time() {
    assert_eq!(
        Pattern::from_bytes("HH:mm").unwrap().most_granular_time(),
        Some(TimeGranularity::Minutes)
    );
    assert_eq!(
        Pattern::from_bytes("h:mm:ss a").unwrap().most_granular_time(),
        Some(TimeGranularity::Seconds)
    );
    assert_eq!(
        Pattern::from_bytes("ss mm").unwrap().most_granular_time(),
        Some(TimeGranularity::Seconds)
    );
    assert_eq!(Pattern::from_bytes("h a").unwrap().most_granular_time(), Some(TimeGranularity::Hours));
    assert_eq!(Pattern::from_bytes("d MMM y").unwrap().most_granular_time(), None);
    assert_eq!(Pattern::default().most_granular_time(), None);
    assert!(Pattern::default().items().is_empty());
}

#[test]
fn pattern_combination() {
    let date = Pattern::from_bytes("y").unwrap();
    let time = Pattern::from_bytes("HH:mm").unwrap();
    let p = Pattern::from_bytes_combination("{1} 'at' {0}", date, time).unwrap();
    assert_eq!(
        p.items(),
        &[
            field(FieldSymbol::Year(Year::Calendar), FieldLength::One),
            lit(" at "),
            field(FieldSymbol::Hour(Hour::H23), FieldLength::TwoDigit),
            lit(":"),
            field(FieldSymbol::Minute, FieldLength::TwoDigit),
        ]
    );
    assert_eq!(p.most_granular_time(), Some(TimeGranularity::Minutes));
    // A placeholder may be used twice, and quoted braces are literal text.
    let date = Pattern::from_bytes("d").unwrap();
    let time = Pattern::from_bytes("h").unwrap();
    let p = Pattern::from_bytes_combination("{0}'{0}'{0}", date, time).unwrap();
    assert_eq!(
        p.items(),
        &[
            field(FieldSymbol::Hour(Hour::H12), FieldLength::One),
            lit("{0}"),
            field(FieldSymbol::Hour(Hour::H12), FieldLength::One),
        ]
    );
}

#[test]
fn pattern_combination_errors() {
    let d = || Pattern::from_bytes("d").unwrap();
    let t = || Pattern::from_bytes("h").unwrap();
    assert_eq!(Pattern::from_bytes_combination("{2}", d(), t()), Err(Error::UnknownSubstitution('2')));
    assert_eq!(Pattern::from_bytes_combination("{x}", d(), t()), Err(Error::UnknownSubstitution('x')));
    assert_eq!(Pattern::from_bytes_combination("{0x", d(), t()), Err(Error::UnknownSubstitution('x')));
    assert_eq!(Pattern::from_bytes_combination("{0", d(), t()), Err(Error::UnclosedPlaceholder));
    assert_eq!(Pattern::from_bytes_combination("{", d(), t()), Err(Error::UnclosedPlaceholder));
    assert_eq!(Pattern::from_bytes_combination("{0} 'x", d(), t()), Err(Error::UnclosedLiteral));
}

#[test]
fn pattern_item_constructors() {
    assert_eq!(
        PatternItem::try_from_symbol_count(FieldSymbol::Year(Year::Calendar), 2),
        Ok(field(FieldSymbol::Year(Year::Calendar), FieldLength::TwoDigit))
    );
    assert_eq!(
        PatternItem::try_from_symbol_count(FieldSymbol::Year(Year::Calendar), 7),
        Err(Error::FieldTooLong(FieldSymbol::Year(Year::Calendar)))
    );
    assert_eq!(
        PatternItem::try_from_symbol_count(FieldSymbol::Minute, 0),
        Err(Error::FieldTooLong(FieldSymbol::Minute))
    );
    assert_eq!(
        PatternItem::from_field(FieldSymbol::Weekday(Weekday::Format), FieldLength::Wide),
        field(FieldSymbol::Weekday(Weekday::Format), FieldLength::Wide)
    );
    assert_eq!(PatternItem::from_literal(" at "), lit(" at "));
}

#[test]
fn field_symbol_char_roundtrip() {
    let symbols = [
        FieldSymbol::Year(Year::Calendar),
        FieldSymbol::Year(Year::WeekOf),
        FieldSymbol::Month(Month::Format),
        FieldSymbol::Month(Month::StandAlone),
        FieldSymbol::Day(Day::DayOfMonth),
        FieldSymbol::Day(Day::DayOfYear),
        FieldSymbol::Day(Day::DayOfWeekInMonth),
        FieldSymbol::Day(Day::ModifiedJulianDay),
        FieldSymbol::Weekday(Weekday::Format),
        FieldSymbol::Weekday(Weekday::Local),
        FieldSymbol::Weekday(Weekday::StandAlone),
        FieldSymbol::DayPeriod(DayPeriod::AmPm),
        FieldSymbol::DayPeriod(DayPeriod::NoonMidnight),
        FieldSymbol::Hour(Hour::H11),
        FieldSymbol::Hour(Hour::H12),
        FieldSymbol::Hour(Hour::H23),
        FieldSymbol::Hour(Hour::H24),
        FieldSymbol::Minute,
        FieldSymbol::Second(Second::Second),
        FieldSymbol::Second(Second::FractionalSecond),
        FieldSymbol::Second(Second::Millisecond),
        FieldSymbol::TimeZone(TimeZone::LowerZ),
        FieldSymbol::TimeZone(TimeZone::UpperZ),
        FieldSymbol::TimeZone(TimeZone::UpperO),
        FieldSymbol::TimeZone(TimeZone::LowerV),
        FieldSymbol::TimeZone(TimeZone::UpperV),
        FieldSymbol::TimeZone(TimeZone::LowerX),
        FieldSymbol::TimeZone(TimeZone::UpperX),
    ];
    for s in symbols {
        assert_eq!(FieldSymbol::from_char(s.to_char()), Some(s));
    }
    assert_eq!(FieldSymbol::from_char('Q'), None);
    assert_eq!(FieldSymbol::from_char('/'), None);
    for n in 1..=6usize {
        assert_eq!(FieldLength::from_count(n).unwrap().count(), n);
    }
    assert_eq!(FieldLength::from_count(0), None);
    assert_eq!(FieldLength::from_count(7), None);
}

#[test]
fn pattern_clone_keeps_items() {
    let p = Pattern::from_bytes("d MMM y, HH:mm").unwrap();
    let q = p.clone();
    assert_eq!(p, q);
    assert_eq!(q.most_granular_time(), Some(TimeGranularity::Minutes));
    assert_eq!(q.into_items().len(), 9);
}

#[test]
fn pattern_parse_gives_normal_form() {
    // Neighbouring literal pieces merge; a literal keeps apart two runs of one symbol.
    let y1 = field(FieldSymbol::Year(Year::Calendar), FieldLength::One);
    assert_eq!(items("y''y"), vec![y1.clone(), lit("'"), y1.clone()]);
    assert_eq!(items("y- 'a' -y"), vec![y1.clone(), lit("- a -"), y1.clone()]);
    assert_eq!(items("'a''b'"), vec![lit("a'b")]);
    // Two runs of one symbol with nothing between are one run.
    assert_eq!(items("y'y'"), vec![y1, lit("y")]);
}

#[test]
fn pattern_roundtrip_law_example() {
    let p = Pattern::from_items(vec![
        field(FieldSymbol::Hour(Hour::H12), FieldLength::One),
        lit(" heures  "),
        field(FieldSymbol::Minute, FieldLength::TwoDigit),
    ]);
    let s = p.to_pattern_string();
    assert_eq!(s, "h 'heures'  mm");
    assert_eq!(Pattern::from_bytes(&s).unwrap(), p);
}
