use vstd::prelude::*;

verus! {

/// Year fields: `y` (calendar year) and `Y` (year of the week-based year).
#[derive(Debug, Clone, Copy, PartialEq, Eq, Structural)]
pub enum Year {
    Calendar,
    WeekOf,
}

/// Month fields: `M` (format) and `L` (stand-alone).
#[derive(Debug, Clone, Copy, PartialEq, Eq, Structural)]
pub enum Month {
    Format,
    StandAlone,
}

/// Day fields: `d`, `D`, `F` and `g`.
#[derive(Debug, Clone, Copy, PartialEq, Eq, Structural)]
pub enum Day {
    DayOfMonth,
    DayOfYear,
    DayOfWeekInMonth,
    ModifiedJulianDay,
}

/// Week-day fields: `E` (format), `e` (local) and `c` (stand-alone).
#[derive(Debug, Clone, Copy, PartialEq, Eq, Structural)]
pub enum Weekday {
    Format,
    Local,
    StandAlone,
}

/// Day-period fields: `a` (AM/PM) and `b` (noon/midnight).
#[derive(Debug, Clone, Copy, PartialEq, Eq, Structural)]
pub enum DayPeriod {
    AmPm,
    NoonMidnight,
}

/// Hour fields: `K` (0-11), `h` (1-12), `H` (0-23) and `k` (1-24).
#[derive(Debug, Clone, Copy, PartialEq, Eq, Structural)]
pub enum Hour {
    H11,
    H12,
    H23,
    H24,
}

/// Second fields: `s` (second), `S` (fractional second) and `A` (milliseconds in day).
#[derive(Debug, Clone, Copy, PartialEq, Eq, Structural)]
pub enum Second {
    Second,
    FractionalSecond,
    Millisecond,
}

/// Time-zone fields: `z`, `Z`, `O`, `v`, `V`, `x` and `X`.
#[derive(Debug, Clone, Copy, PartialEq, Eq, Structural)]
pub enum TimeZone {
    LowerZ,
    UpperZ,
    UpperO,
    LowerV,
    UpperV,
    LowerX,
    UpperX,
}

/// The symbol of a date/time field, as written in a UTS 35 pattern.
#[derive(Debug, Clone, Copy, PartialEq, Eq, Structural)]
pub enum FieldSymbol {
    Year(Year),
    Month(Month),
    Day(Day),
    Weekday(Weekday),
    DayPeriod(DayPeriod),
    Hour(Hour),
    Minute,
    Second(Second),
    TimeZone(TimeZone),
}

/// Length of a field, as the number of times its symbol is repeated.
#[derive(Debug, Clone, Copy, PartialEq, Eq, Structural)]
pub enum FieldLength {
    One,
    TwoDigit,
    Abbreviated,
    Wide,
    Narrow,
    Six,
}

/// A field of a date/time pattern: a symbol and how many times it is repeated.
#[derive(Debug, Clone, Copy, PartialEq, Eq, Structural)]
pub struct Field {
    pub symbol: FieldSymbol,
    pub length: FieldLength,
}

/// The character that stands for a symbol in a pattern.
pub open spec fn spec_symbol_char(s: FieldSymbol) -> char {
    match s {
        FieldSymbol::Year(Year::Calendar) => 'y',
        FieldSymbol::Year(Year::WeekOf) => 'Y',
        FieldSymbol::Month(Month::Format) => 'M',
        FieldSymbol::Month(Month::StandAlone) => 'L',
        FieldSymbol::Day(Day::DayOfMonth) => 'd',
        FieldSymbol::Day(Day::DayOfYear) => 'D',
        FieldSymbol::Day(Day::DayOfWeekInMonth) => 'F',
        FieldSymbol::Day(Day::ModifiedJulianDay) => 'g',
        FieldSymbol::Weekday(Weekday::Format) => 'E',
        FieldSymbol::Weekday(Weekday::Local) => 'e',
        FieldSymbol::Weekday(Weekday::StandAlone) => 'c',
        FieldSymbol::DayPeriod(DayPeriod::AmPm) => 'a',
        FieldSymbol::DayPeriod(DayPeriod::NoonMidnight) => 'b',
        FieldSymbol::Hour(Hour::H11) => 'K',
        FieldSymbol::Hour(Hour::H12) => 'h',
        FieldSymbol::Hour(Hour::H23) => 'H',
        FieldSymbol::Hour(Hour::H24) => 'k',
        FieldSymbol::Minute => 'm',
        FieldSymbol::Second(Second::Second) => 's',
        FieldSymbol::Second(Second::FractionalSecond) => 'S',
        FieldSymbol::Second(Second::Millisecond) => 'A',
        FieldSymbol::TimeZone(TimeZone::LowerZ) => 'z',
        FieldSymbol::TimeZone(TimeZone::UpperZ) => 'Z',
        FieldSymbol::TimeZone(TimeZone::UpperO) => 'O',
        FieldSymbol::TimeZone(TimeZone::LowerV) => 'v',
        FieldSymbol::TimeZone(TimeZone::UpperV) => 'V',
        FieldSymbol::TimeZone(TimeZone::LowerX) => 'x',
        FieldSymbol::TimeZone(TimeZone::UpperX) => 'X',
    }
}

/// The symbol that a character stands for in a pattern, if any.
pub open spec fn spec_symbol_of_char(c: char) -> Option<FieldSymbol> {
    if c == 'y' { Some(FieldSymbol::Year(Year::Calendar)) }
    else if c == 'Y' { Some(FieldSymbol::Year(Year::WeekOf)) }
    else if c == 'M' { Some(FieldSymbol::Month(Month::Format)) }
    else if c == 'L' { Some(FieldSymbol::Month(Month::StandAlone)) }
    else if c == 'd' { Some(FieldSymbol::Day(Day::DayOfMonth)) }
    else if c == 'D' { Some(FieldSymbol::Day(Day::DayOfYear)) }
    else if c == 'F' { Some(FieldSymbol::Day(Day::DayOfWeekInMonth)) }
    else if c == 'g' { Some(FieldSymbol::Day(Day::ModifiedJulianDay)) }
    else if c == 'E' { Some(FieldSymbol::Weekday(Weekday::Format)) }
    else if c == 'e' { Some(FieldSymbol::Weekday(Weekday::Local)) }
    else if c == 'c' { Some(FieldSymbol::Weekday(Weekday::StandAlone)) }
    else if c == 'a' { Some(FieldSymbol::DayPeriod(DayPeriod::AmPm)) }
    else if c == 'b' { Some(FieldSymbol::DayPeriod(DayPeriod::NoonMidnight)) }
    else if c == 'K' { Some(FieldSymbol::Hour(Hour::H11)) }
    else if c == 'h' { Some(FieldSymbol::Hour(Hour::H12)) }
    else if c == 'H' { Some(FieldSymbol::Hour(Hour::H23)) }
    else if c == 'k' { Some(FieldSymbol::Hour(Hour::H24)) }
    else if c == 'm' { Some(FieldSymbol::Minute) }
    else if c == 's' { Some(FieldSymbol::Second(Second::Second)) }
    else if c == 'S' { Some(FieldSymbol::Second(Second::FractionalSecond)) }
    else if c == 'A' { Some(FieldSymbol::Second(Second::Millisecond)) }
    else if c == 'z' { Some(FieldSymbol::TimeZone(TimeZone::LowerZ)) }
    else if c == 'Z' { Some(FieldSymbol::TimeZone(TimeZone::UpperZ)) }
    else if c == 'O' { Some(FieldSymbol::TimeZone(TimeZone::UpperO)) }
    else if c == 'v' { Some(FieldSymbol::TimeZone(TimeZone::LowerV)) }
    else if c == 'V' { Some(FieldSymbol::TimeZone(TimeZone::UpperV)) }
    else if c == 'x' { Some(FieldSymbol::TimeZone(TimeZone::LowerX)) }
    else if c == 'X' { Some(FieldSymbol::TimeZone(TimeZone::UpperX)) }
    else { None }
}

/// The number of repetitions that a length stands for.
pub open spec fn spec_length_count(l: FieldLength) -> nat {
    match l {
        FieldLength::One => 1,
        FieldLength::TwoDigit => 2,
        FieldLength::Abbreviated => 3,
        FieldLength::Wide => 4,
        FieldLength::Narrow => 5,
        FieldLength::Six => 6,
    }
}

/// The length that a number of repetitions stands for: one to six.
pub open spec fn spec_length_of_count(n: nat) -> Option<FieldLength> {
    if n == 1 { Some(FieldLength::One) }
    else if n == 2 { Some(FieldLength::TwoDigit) }
    else if n == 3 { Some(FieldLength::Abbreviated) }
    else if n == 4 { Some(FieldLength::Wide) }
    else if n == 5 { Some(FieldLength::Narrow) }
    else if n == 6 { Some(FieldLength::Six) }
    else { None }
}

impl FieldSymbol {
    /// The character that stands for this symbol in a pattern.
    pub fn to_char(self) -> (c: char)
        ensures
            c == spec_symbol_char(self),
    {
        match self {
            FieldSymbol::Year(Year::Calendar) => 'y',
            FieldSymbol::Year(Year::WeekOf) => 'Y',
            FieldSymbol::Month(Month::Format) => 'M',
            FieldSymbol::Month(Month::StandAlone) => 'L',
            FieldSymbol::Day(Day::DayOfMonth) => 'd',
            FieldSymbol::Day(Day::DayOfYear) => 'D',
            FieldSymbol::Day(Day::DayOfWeekInMonth) => 'F',
            FieldSymbol::Day(Day::ModifiedJulianDay) => 'g',
            FieldSymbol::Weekday(Weekday::Format) => 'E',
            FieldSymbol::Weekday(Weekday::Local) => 'e',
            FieldSymbol::Weekday(Weekday::StandAlone) => 'c',
            FieldSymbol::DayPeriod(DayPeriod::AmPm) => 'a',
            FieldSymbol::DayPeriod(DayPeriod::NoonMidnight) => 'b',
            FieldSymbol::Hour(Hour::H11) => 'K',
            FieldSymbol::Hour(Hour::H12) => 'h',
            FieldSymbol::Hour(Hour::H23) => 'H',
            FieldSymbol::Hour(Hour::H24) => 'k',
            FieldSymbol::Minute => 'm',
            FieldSymbol::Second(Second::Second) => 's',
            FieldSymbol::Second(Second::FractionalSecond) => 'S',
            FieldSymbol::Second(Second::Millisecond) => 'A',
            FieldSymbol::TimeZone(TimeZone::LowerZ) => 'z',
            FieldSymbol::TimeZone(TimeZone::UpperZ) => 'Z',
            FieldSymbol::TimeZone(TimeZone::UpperO) => 'O',
            FieldSymbol::TimeZone(TimeZone::LowerV) => 'v',
            FieldSymbol::TimeZone(TimeZone::UpperV) => 'V',
            FieldSymbol::TimeZone(TimeZone::LowerX) => 'x',
            FieldSymbol::TimeZone(TimeZone::UpperX) => 'X',
        }
    }

    /// The symbol that `c` stands for, or `None` where `c` is no field symbol.
    pub fn from_char(c: char) -> (r: Option<FieldSymbol>)
        ensures
            r == spec_symbol_of_char(c),
    {
        if c == 'y' { Some(FieldSymbol::Year(Year::Calendar)) }
        else if c == 'Y' { Some(FieldSymbol::Year(Year::WeekOf)) }
        else if c == 'M' { Some(FieldSymbol::Month(Month::Format)) }
        else if c == 'L' { Some(FieldSymbol::Month(Month::StandAlone)) }
        else if c == 'd' { Some(FieldSymbol::Day(Day::DayOfMonth)) }
        else if c == 'D' { Some(FieldSymbol::Day(Day::DayOfYear)) }
        else if c == 'F' { Some(FieldSymbol::Day(Day::DayOfWeekInMonth)) }
        else if c == 'g' { Some(FieldSymbol::Day(Day::ModifiedJulianDay)) }
        else if c == 'E' { Some(FieldSymbol::Weekday(Weekday::Format)) }
        else if c == 'e' { Some(FieldSymbol::Weekday(Weekday::Local)) }
        else if c == 'c' { Some(FieldSymbol::Weekday(Weekday::StandAlone)) }
        else if c == 'a' { Some(FieldSymbol::DayPeriod(DayPeriod::AmPm)) }
        else if c == 'b' { Some(FieldSymbol::DayPeriod(DayPeriod::NoonMidnight)) }
        else if c == 'K' { Some(FieldSymbol::Hour(Hour::H11)) }
        else if c == 'h' { Some(FieldSymbol::Hour(Hour::H12)) }
        else if c == 'H' { Some(FieldSymbol::Hour(Hour::H23)) }
        else if c == 'k' { Some(FieldSymbol::Hour(Hour::H24)) }
        else if c == 'm' { Some(FieldSymbol::Minute) }
        else if c == 's' { Some(FieldSymbol::Second(Second::Second)) }
        else if c == 'S' { Some(FieldSymbol::Second(Second::FractionalSecond)) }
        else if c == 'A' { Some(FieldSymbol::Second(Second::Millisecond)) }
        else if c == 'z' { Some(FieldSymbol::TimeZone(TimeZone::LowerZ)) }
        else if c == 'Z' { Some(FieldSymbol::TimeZone(TimeZone::UpperZ)) }
        else if c == 'O' { Some(FieldSymbol::TimeZone(TimeZone::UpperO)) }
        else if c == 'v' { Some(FieldSymbol::TimeZone(TimeZone::LowerV)) }
        else if c == 'V' { Some(FieldSymbol::TimeZone(TimeZone::UpperV)) }
        else if c == 'x' { Some(FieldSymbol::TimeZone(TimeZone::LowerX)) }
        else if c == 'X' { Some(FieldSymbol::TimeZone(TimeZone::UpperX)) }
        else { None }
    }
}

impl FieldLength {
    /// The number of symbol repetitions this length stands for.
    pub fn count(self) -> (n: usize)
        ensures
            n == spec_length_count(self),
    {
        match self {
            FieldLength::One => 1,
            FieldLength::TwoDigit => 2,
            FieldLength::Abbreviated => 3,
            FieldLength::Wide => 4,
            FieldLength::Narrow => 5,
            FieldLength::Six => 6,
        }
    }

    /// The length for `n` repetitions of a symbol; `None` unless `n` is one to six.
    pub fn from_count(n: usize) -> (r: Option<FieldLength>)
        ensures
            r == spec_length_of_count(n as nat),
    {
        if n == 1 { Some(FieldLength::One) }
        else if n == 2 { Some(FieldLength::TwoDigit) }
        else if n == 3 { Some(FieldLength::Abbreviated) }
        else if n == 4 { Some(FieldLength::Wide) }
        else if n == 5 { Some(FieldLength::Narrow) }
        else if n == 6 { Some(FieldLength::Six) }
        else { None }
    }
}

/// Reading a symbol's character gives the symbol back, every field-symbol
/// character stands for exactly one symbol, and every field symbol is an
/// ASCII letter.
pub proof fn lemma_symbol_char_roundtrip(s: FieldSymbol, c: char)
    ensures
        spec_symbol_of_char(spec_symbol_char(s)) == Some(s),
        spec_symbol_of_char(c) == Some(s) ==> spec_symbol_char(s) == c,
        spec_symbol_of_char(c) is Some ==> crate::chars::spec_is_ascii_alphabetic(c),
{
}

/// A length and its number of repetitions determine each other.
pub proof fn lemma_length_count_roundtrip(l: FieldLength, n: nat)
    ensures
        spec_length_of_count(spec_length_count(l)) == Some(l),
        spec_length_of_count(n) == Some(l) ==> spec_length_count(l) == n,
        spec_length_of_count(n) is Some <==> 1 <= n <= 6,
{
}

/// The UTS 35 letters of the field symbols: each symbol is written with its letter and
/// each letter reads as its symbol (`E` is the format week day, `e` the local one, `c`
/// the stand-alone one; `K`, `h`, `H`, `k` are the 0-11, 1-12, 0-23 and 1-24 hours;
/// ...), and no other character is a field symbol.
pub proof fn law_symbol_letters(c: char)
    ensures
        spec_symbol_of_char('y') == Some(FieldSymbol::Year(Year::Calendar)),
        spec_symbol_char(FieldSymbol::Year(Year::Calendar)) == 'y',
        spec_symbol_of_char('Y') == Some(FieldSymbol::Year(Year::WeekOf)),
        spec_symbol_char(FieldSymbol::Year(Year::WeekOf)) == 'Y',
        spec_symbol_of_char('M') == Some(FieldSymbol::Month(Month::Format)),
        spec_symbol_char(FieldSymbol::Month(Month::Format)) == 'M',
        spec_symbol_of_char('L') == Some(FieldSymbol::Month(Month::StandAlone)),
        spec_symbol_char(FieldSymbol::Month(Month::StandAlone)) == 'L',
        spec_symbol_of_char('d') == Some(FieldSymbol::Day(Day::DayOfMonth)),
        spec_symbol_char(FieldSymbol::Day(Day::DayOfMonth)) == 'd',
        spec_symbol_of_char('D') == Some(FieldSymbol::Day(Day::DayOfYear)),
        spec_symbol_char(FieldSymbol::Day(Day::DayOfYear)) == 'D',
        spec_symbol_of_char('F') == Some(FieldSymbol::Day(Day::DayOfWeekInMonth)),
        spec_symbol_char(FieldSymbol::Day(Day::DayOfWeekInMonth)) == 'F',
        spec_symbol_of_char('g') == Some(FieldSymbol::Day(Day::ModifiedJulianDay)),
        spec_symbol_char(FieldSymbol::Day(Day::ModifiedJulianDay)) == 'g',
        spec_symbol_of_char('E') == Some(FieldSymbol::Weekday(Weekday::Format)),
        spec_symbol_char(FieldSymbol::Weekday(Weekday::Format)) == 'E',
        spec_symbol_of_char('e') == Some(FieldSymbol::Weekday(Weekday::Local)),
        spec_symbol_char(FieldSymbol::Weekday(Weekday::Local)) == 'e',
        spec_symbol_of_char('c') == Some(FieldSymbol::Weekday(Weekday::StandAlone)),
        spec_symbol_char(FieldSymbol::Weekday(Weekday::StandAlone)) == 'c',
        spec_symbol_of_char('a') == Some(FieldSymbol::DayPeriod(DayPeriod::AmPm)),
        spec_symbol_char(FieldSymbol::DayPeriod(DayPeriod::AmPm)) == 'a',
        spec_symbol_of_char('b') == Some(FieldSymbol::DayPeriod(DayPeriod::NoonMidnight)),
        spec_symbol_char(FieldSymbol::DayPeriod(DayPeriod::NoonMidnight)) == 'b',
        spec_symbol_of_char('K') == Some(FieldSymbol::Hour(Hour::H11)),
        spec_symbol_char(FieldSymbol::Hour(Hour::H11)) == 'K',
        spec_symbol_of_char('h') == Some(FieldSymbol::Hour(Hour::H12)),
        spec_symbol_char(FieldSymbol::Hour(Hour::H12)) == 'h',
        spec_symbol_of_char('H') == Some(FieldSymbol::Hour(Hour::H23)),
        spec_symbol_char(FieldSymbol::Hour(Hour::H23)) == 'H',
        spec_symbol_of_char('k') == Some(FieldSymbol::Hour(Hour::H24)),
        spec_symbol_char(FieldSymbol::Hour(Hour::H24)) == 'k',
        spec_symbol_of_char('m') == Some(FieldSymbol::Minute),
        spec_symbol_char(FieldSymbol::Minute) == 'm',
        spec_symbol_of_char('s') == Some(FieldSymbol::Second(Second::Second)),
        spec_symbol_char(FieldSymbol::Second(Second::Second)) == 's',
        spec_symbol_of_char('S') == Some(FieldSymbol::Second(Second::FractionalSecond)),
        spec_symbol_char(FieldSymbol::Second(Second::FractionalSecond)) == 'S',
        spec_symbol_of_char('A') == Some(FieldSymbol::Second(Second::Millisecond)),
        spec_symbol_char(FieldSymbol::Second(Second::Millisecond)) == 'A',
        spec_symbol_of_char('z') == Some(FieldSymbol::TimeZone(TimeZone::LowerZ)),
        spec_symbol_char(FieldSymbol::TimeZone(TimeZone::LowerZ)) == 'z',
        spec_symbol_of_char('Z') == Some(FieldSymbol::TimeZone(TimeZone::UpperZ)),
        spec_symbol_char(FieldSymbol::TimeZone(TimeZone::UpperZ)) == 'Z',
        spec_symbol_of_char('O') == Some(FieldSymbol::TimeZone(TimeZone::UpperO)),
        spec_symbol_char(FieldSymbol::TimeZone(TimeZone::UpperO)) == 'O',
        spec_symbol_of_char('v') == Some(FieldSymbol::TimeZone(TimeZone::LowerV)),
        spec_symbol_char(FieldSymbol::TimeZone(TimeZone::LowerV)) == 'v',
        spec_symbol_of_char('V') == Some(FieldSymbol::TimeZone(TimeZone::UpperV)),
        spec_symbol_char(FieldSymbol::TimeZone(TimeZone::UpperV)) == 'V',
        spec_symbol_of_char('x') == Some(FieldSymbol::TimeZone(TimeZone::LowerX)),
        spec_symbol_char(FieldSymbol::TimeZone(TimeZone::LowerX)) == 'x',
        spec_symbol_of_char('X') == Some(FieldSymbol::TimeZone(TimeZone::UpperX)),
        spec_symbol_char(FieldSymbol::TimeZone(TimeZone::UpperX)) == 'X',
        spec_symbol_of_char(c) is Some <==> (c == 'y' || c == 'Y' || c == 'M' || c == 'L' || c == 'd' || c == 'D' || c == 'F' || c == 'g' || c == 'E' || c == 'e' || c == 'c' || c == 'a' || c == 'b' || c == 'K' || c == 'h' || c == 'H' || c == 'k' || c == 'm' || c == 's' || c == 'S' || c == 'A' || c == 'z' || c == 'Z' || c == 'O' || c == 'v' || c == 'V' || c == 'x' || c == 'X'),
{
}

/// The UTS 35 repetition count of each field length: one to six, `Abbreviated` being
/// three, `Wide` four and `Narrow` five; no other count is a length.
pub proof fn law_length_counts(n: nat)
    ensures
        spec_length_count(FieldLength::One) == 1,
        spec_length_count(FieldLength::TwoDigit) == 2,
        spec_length_count(FieldLength::Abbreviated) == 3,
        spec_length_count(FieldLength::Wide) == 4,
        spec_length_count(FieldLength::Narrow) == 5,
        spec_length_count(FieldLength::Six) == 6,
        spec_length_of_count(1) == Some(FieldLength::One),
        spec_length_of_count(2) == Some(FieldLength::TwoDigit),
        spec_length_of_count(3) == Some(FieldLength::Abbreviated),
        spec_length_of_count(4) == Some(FieldLength::Wide),
        spec_length_of_count(5) == Some(FieldLength::Narrow),
        spec_length_of_count(6) == Some(FieldLength::Six),
        spec_length_of_count(n) is Some <==> 1 <= n <= 6,
{
}

} // verus!
