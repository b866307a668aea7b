use icu_pattern::placeholder::interpolator::Interpolator;
use icu_pattern::placeholder::parser::{Parser, ParserError, ParserOptions};
use icu_pattern::placeholder::pattern::{
    InterpolatedKind, InterpolatorError, Pattern, PatternError,
};
use icu_pattern::placeholder::token::PatternToken;

fn lit<P>(s: &str, quoted: bool) -> PatternToken<P> {
    PatternToken::Literal { content: s.to_string(), quoted }
}

fn tokens(input: &str) -> Vec<PatternToken<usize>> {
    Pattern::<usize>::try_from_str(input).expect("valid pattern").tokens().to_vec()
}

fn tokens_raw(input: &str) -> Result<Vec<PatternToken<usize>>, ParserError> {
    let parser = Parser::<usize>::new(input, ParserOptions { allow_raw_letters: true });
    Pattern::try_from_parser(parser).map(|p| p.tokens().to_vec())
}

fn strings(v: &[&[&str]]) -> Vec<Vec<String>> {
    v.iter().map(|r| r.iter().map(|s| s.to_string()).collect()).collect()
}

#[test]
fn pattern_parse_placeholders() {
    assert_eq!(tokens("{0}"), vec![PatternToken::Placeholder(0)]);
    assert_eq!(tokens("{0}{1}"), vec![PatternToken::Placeholder(0), PatternToken::Placeholder(1)]);
    assert_eq!(
        tokens("{0}, {1}"),
        vec![PatternToken::Placeholder(0), lit(", ", false), PatternToken::Placeholder(1)]
    );
    assert_eq!(
        tokens("{0} 'at' {1}"),
        vec![
            PatternToken::Placeholder(0),
            lit(" ", false),
            lit("at", true),
            lit(" ", false),
            PatternToken::Placeholder(1),
        ]
    );
    assert_eq!(
        tokens("'{0}' 'at' '{1}'"),
        vec![lit("{0}", true), lit(" ", false), lit("at", true), lit(" ", false), lit("{1}", true)]
    );
    assert_eq!(
        tokens("{0} 'o''clock' {1}"),
        vec![
            PatternToken::Placeholder(0),
            lit(" ", false),
            lit("o", true),
            lit("'", true),
            lit("clock", true),
            lit(" ", false),
            PatternToken::Placeholder(1),
        ]
    );
    assert_eq!(tokens("''"), vec![lit("'", false)]);
    assert_eq!(tokens("{+7}"), vec![PatternToken::Placeholder(7)]);
}

#[test]
fn pattern_parse_raw_letters() {
    assert_eq!(
        tokens_raw("{0} o''clock and {1}"),
        Ok(vec![
            PatternToken::Placeholder(0),
            lit(" o", false),
            lit("'", false),
            lit("clock and ", false),
            PatternToken::Placeholder(1),
        ])
    );
    assert_eq!(
        tokens_raw("{0} 'o''clock' and {1}"),
        Ok(vec![
            PatternToken::Placeholder(0),
            lit(" ", false),
            lit("o", true),
            lit("'", true),
            lit("clock", true),
            lit(" and ", false),
            PatternToken::Placeholder(1),
        ])
    );
}

#[test]
fn pattern_parse_errors() {
    let parse = |s: &str| Pattern::<usize>::try_from_str(s).map(|p| p.tokens().to_vec());
    assert_eq!(parse("{"), Err(ParserError::UnclosedPlaceholder));
    assert_eq!(parse("{0"), Err(ParserError::UnclosedPlaceholder));
    assert_eq!(parse("{01"), Err(ParserError::UnclosedPlaceholder));
    assert_eq!(parse("{0}{1"), Err(ParserError::UnclosedPlaceholder));
    assert_eq!(parse("{date}"), Err(ParserError::InvalidPlaceholder("date".to_string())));
    assert_eq!(parse("{}"), Err(ParserError::InvalidPlaceholder(String::new())));
    assert_eq!(parse("{-1}"), Err(ParserError::InvalidPlaceholder("-1".to_string())));
    assert_eq!(
        parse("{99999999999999999999999}"),
        Err(ParserError::InvalidPlaceholder("99999999999999999999999".to_string()))
    );
    assert_eq!(parse("{0}'"), Err(ParserError::UnclosedQuotedLiteral));
    assert_eq!(parse("'{0}"), Err(ParserError::UnclosedQuotedLiteral));
    assert_eq!(parse("'"), Err(ParserError::UnclosedQuotedLiteral));
    assert_eq!(parse("{0} o'clock"), Err(ParserError::IllegalCharacter('o')));
}

#[test]
fn parser_try_next_steps() {
    let mut parser = Parser::<usize>::new("a{1}", ParserOptions { allow_raw_letters: true });
    assert_eq!(parser.try_next(), Ok(Some(lit("a", false))));
    assert_eq!(parser.try_next(), Ok(Some(PatternToken::Placeholder(1))));
    assert_eq!(parser.try_next(), Ok(None));
    assert_eq!(parser.try_next(), Ok(None));
    let mut parser = Parser::<usize>::new(", x", ParserOptions { allow_raw_letters: false });
    assert_eq!(parser.try_next(), Err(ParserError::IllegalCharacter('x')));
}

#[test]
fn pattern_named_placeholders() {
    let p = Pattern::<String>::try_from_str("{name}, {surname}").unwrap();
    assert_eq!(
        p.tokens(),
        &[
            PatternToken::Placeholder("name".to_string()),
            lit(", ", false),
            PatternToken::Placeholder("surname".to_string()),
        ]
    );
}

#[test]
fn pattern_interpolate() {
    let pattern = Pattern::<usize>::try_from_str("{0}, {1}").unwrap();
    let replacements = strings(&[&["Hello"], &["World", "!"]]);
    let result = pattern.interpolate(&replacements).unwrap();
    let hello = "Hello".to_string();
    let comma = ", ".to_string();
    let world = "World".to_string();
    let bang = "!".to_string();
    assert_eq!(
        result.kinds(),
        &[
            InterpolatedKind::Element(&hello),
            InterpolatedKind::Literal(&comma),
            InterpolatedKind::Element(&world),
            InterpolatedKind::Element(&bang),
        ]
    );
    assert_eq!(result.render(), "Hello, World!");
    assert_eq!(pattern.interpolate_to_string(&replacements), Ok("Hello, World!".to_string()));
}

#[test]
fn pattern_interpolate_reordered() {
    let samples = [
        ("Foo {0} and {1}", "Foo Hello and World"),
        ("Foo {1} and {0}", "Foo World and Hello"),
        ("{0} 'at' {1}", "Hello at World"),
    ];
    let replacements = strings(&[&["Hello"], &["World"]]);
    for (input, expected) in samples {
        let pattern = Pattern::<usize>::try_from_str(input);
        // Raw letters are refused unless quoted.
        if input.starts_with("Foo") {
            assert_eq!(pattern, Err(ParserError::IllegalCharacter('F')));
            let parser = Parser::<usize>::new(input, ParserOptions { allow_raw_letters: true });
            let pattern = Pattern::try_from_parser(parser).unwrap();
            assert_eq!(pattern.interpolate_to_string(&replacements), Ok(expected.to_string()));
        } else {
            let pattern = pattern.unwrap();
            assert_eq!(pattern.interpolate_to_string(&replacements), Ok(expected.to_string()));
        }
    }
}

#[test]
fn pattern_interpolate_missing() {
    let pattern = Pattern::<usize>::try_from_str("{0} - {2} - {3}").unwrap();
    let replacements = strings(&[&["Hello"], &["World"]]);
    let expected = Err(PatternError::Interpolator(InterpolatorError::MissingPlaceholder(2)));
    assert_eq!(pattern.interpolate(&replacements).map(|p| p.render()), expected.clone());
    assert_eq!(pattern.interpolate_to_string(&replacements), expected.clone());
    let mut out = String::from(">");
    assert_eq!(pattern.interpolate_to_write(&replacements, &mut out), expected.map(|_: String| ()));
    // What comes before the missing placeholder has been written.
    assert_eq!(out, ">Hello - ");
}

#[test]
fn pattern_interpolate_literals_only() {
    let pattern = Pattern::<usize>::try_from_str("', ' - '!'").unwrap();
    let none: Vec<Vec<String>> = vec![];
    assert_eq!(pattern.interpolate_to_string(&none), Ok(",  - !".to_string()));
    let mut out = String::new();
    assert_eq!(pattern.interpolate_to_write(&none, &mut out), Ok(()));
    assert_eq!(out, ",  - !");
}

#[test]
fn pattern_from_tokens() {
    let pattern = Pattern::from_tokens(vec![lit("[", false), PatternToken::Placeholder(0usize), lit("]", true)]);
    let replacements = strings(&[&["a", "b"]]);
    assert_eq!(pattern.interpolate_to_string(&replacements), Ok("[ab]".to_string()));
}

#[test]
fn pattern_parse_literals_nonempty() {
    let ts = tokens("''{0}'''' ");
    assert_eq!(
        ts,
        vec![lit("'", false), PatternToken::Placeholder(0), lit("'", false), lit("'", false), lit(" ", false)]
    );
    assert!(ts.iter().all(|t| match t {
        PatternToken::Literal { content, .. } => !content.is_empty(),
        _ => true,
    }));
}

#[test]
fn pattern_interpolate_first_missing() {
    let pattern = Pattern::<usize>::try_from_str("{1}{3}{2}").unwrap();
    let replacements = strings(&[&["a"], &["b"]]);
    assert_eq!(
        pattern.interpolate_to_string(&replacements),
        Err(PatternError::Interpolator(InterpolatorError::MissingPlaceholder(3)))
    );
}

#[test]
fn interpolator_steps_through_pieces() {
    let pattern = Pattern::<usize>::try_from_str("{0}, {1}").expect("valid pattern");
    let replacements = strings(&[&["Variant1", " foo ", "Variant2"], &["Variant2", " bar ", "Variant1"]]);
    let mut interpolator = Interpolator::new(&pattern, &replacements);
    let mut result = vec![];
    while let Some(ik) = interpolator.try_next().expect("Failed to advance iterator") {
        result.push(ik);
    }
    let sep = ", ".to_string();
    assert_eq!(
        result,
        vec![
            InterpolatedKind::Element(&replacements[0][0]),
            InterpolatedKind::Element(&replacements[0][1]),
            InterpolatedKind::Element(&replacements[0][2]),
            InterpolatedKind::Literal(&sep),
            InterpolatedKind::Element(&replacements[1][0]),
            InterpolatedKind::Element(&replacements[1][1]),
            InterpolatedKind::Element(&replacements[1][2]),
        ]
    );
    assert_eq!(interpolator.try_next(), Ok(None));
}

#[test]
fn interpolator_reports_missing_and_goes_on() {
    let pattern = Pattern::<usize>::try_from_str("{0}, {2}; {1}").expect("valid pattern");
    let replacements = strings(&[&["a"], &["b"]]);
    let mut interpolator = Interpolator::new(&pattern, &replacements);
    let and = ", ".to_string();
    let or = "; ".to_string();
    assert_eq!(interpolator.try_next(), Ok(Some(InterpolatedKind::Element(&replacements[0][0]))));
    assert_eq!(interpolator.try_next(), Ok(Some(InterpolatedKind::Literal(&and))));
    assert_eq!(interpolator.try_next(), Err(InterpolatorError::MissingPlaceholder(2)));
    assert_eq!(interpolator.try_next(), Ok(Some(InterpolatedKind::Literal(&or))));
    assert_eq!(interpolator.try_next(), Ok(Some(InterpolatedKind::Element(&replacements[1][0]))));
    assert_eq!(interpolator.try_next(), Ok(None));
    assert_eq!(interpolator.try_next(), Ok(None));
}

#[test]
fn interpolator_skips_empty_replacements() {
    let pattern = Pattern::<usize>::try_from_str("{0}{1}-").expect("valid pattern");
    let replacements: Vec<Vec<String>> = vec![vec![], vec!["y".to_string()]];
    let mut interpolator = Interpolator::new(&pattern, &replacements);
    let x = "-".to_string();
    assert_eq!(interpolator.try_next(), Ok(Some(InterpolatedKind::Element(&replacements[1][0]))));
    assert_eq!(interpolator.try_next(), Ok(Some(InterpolatedKind::Literal(&x))));
    assert_eq!(interpolator.try_next(), Ok(None));
}

#[test]
fn written_pieces_read_back() {
    // Text, quoted text and keys written one after the other read back one token each.
    let p = Pattern::<String>::try_from_str("{when}: 'at' -{where}'x'").unwrap();
    assert_eq!(
        p.tokens(),
        &[
            PatternToken::Placeholder("when".to_string()),
            lit(": ", false),
            lit("at", true),
            lit(" -", false),
            PatternToken::Placeholder("where".to_string()),
            lit("x", true),
        ]
    );
}

#[test]
fn interpolate_named_keys_from_hash_map() {
    let pattern = Pattern::<String>::try_from_str("{name}, {surname}").unwrap();
    let mut replacements: std::collections::HashMap<String, Vec<String>> = std::collections::HashMap::new();
    replacements.insert("name".to_string(), vec!["Ada".to_string()]);
    replacements.insert("surname".to_string(), vec!["Love".to_string(), "lace".to_string()]);
    assert_eq!(pattern.interpolate_to_string(&replacements), Ok("Ada, Lovelace".to_string()));

    replacements.remove("surname");
    assert_eq!(
        pattern.interpolate_to_string(&replacements),
        Err(PatternError::Interpolator(InterpolatorError::MissingPlaceholder("surname".to_string())))
    );
}
