use biblia::errors::LookupError;
use biblia::parser::parse_reference;

fn chars(s: &str) -> Vec<char> {
    s.chars().collect()
}

#[test]
fn plain_reference_parses() {
    let r = parse_reference("Mt:10:20").unwrap();
    assert_eq!(r.book, chars("Mt"));
    assert_eq!(r.chapter, 10);
    assert_eq!(r.start, 20);
    assert_eq!(r.end, Some(20));
}

#[test]
fn range_reference_parses() {
    let r = parse_reference("Lc:20:2-3").unwrap();
    assert_eq!(r.book, chars("Lc"));
    assert_eq!(r.chapter, 20);
    assert_eq!(r.start, 2);
    assert_eq!(r.end, Some(3));
}

#[test]
fn omitted_verse_defaults_to_whole_chapter() {
    let r = parse_reference("Ap:5").unwrap();
    assert_eq!(r.book, chars("Ap"));
    assert_eq!(r.chapter, 5);
    assert_eq!(r.start, 1);
    assert_eq!(r.end, None);
}

#[test]
fn fields_are_trimmed() {
    let r = parse_reference("  Ioan  : 3 : 16 ").unwrap();
    assert_eq!(r.book, chars("Ioan"));
    assert_eq!(r.chapter, 3);
    assert_eq!(r.start, 16);
    assert_eq!(r.end, Some(16));
}

#[test]
fn empty_book_token_is_missing_book() {
    assert_eq!(parse_reference(":3:16").unwrap_err(), LookupError::MissingBook);
    assert_eq!(parse_reference("  :3").unwrap_err(), LookupError::MissingBook);
    assert_eq!(parse_reference("").unwrap_err(), LookupError::MissingBook);
}

#[test]
fn absent_chapter_is_missing_chapter() {
    assert_eq!(parse_reference("Mt").unwrap_err(), LookupError::MissingChapter);
}

#[test]
fn bad_chapter_is_invalid_chapter() {
    assert_eq!(parse_reference("Mt:x").unwrap_err(), LookupError::InvalidChapter);
    assert_eq!(parse_reference("Mt:").unwrap_err(), LookupError::InvalidChapter);
    assert_eq!(parse_reference("Mt:0").unwrap_err(), LookupError::InvalidChapter);
    assert_eq!(parse_reference("Mt:-3").unwrap_err(), LookupError::InvalidChapter);
    assert_eq!(
        parse_reference("Mt:4294967296").unwrap_err(),
        LookupError::InvalidChapter
    );
}

#[test]
fn chapter_at_the_integer_limit_parses() {
    let r = parse_reference("Mt:4294967295").unwrap();
    assert_eq!(r.chapter, 4294967295);
}

#[test]
fn bad_verse_spec_is_invalid_verse_spec() {
    assert_eq!(parse_reference("Mt:5:x").unwrap_err(), LookupError::InvalidVerseSpec);
    assert_eq!(parse_reference("Mt:5:").unwrap_err(), LookupError::InvalidVerseSpec);
    assert_eq!(parse_reference("Mt:5:0").unwrap_err(), LookupError::InvalidVerseSpec);
    assert_eq!(
        parse_reference("Mt:5:3-x").unwrap_err(),
        LookupError::InvalidVerseSpec
    );
    assert_eq!(
        parse_reference("Mt:5:3-4-5").unwrap_err(),
        LookupError::InvalidVerseSpec
    );
    assert_eq!(
        parse_reference("Mt:5:-4").unwrap_err(),
        LookupError::InvalidVerseSpec
    );
}

#[test]
fn more_than_three_fields_is_malformed() {
    assert_eq!(
        parse_reference("Mt:5:3:4").unwrap_err(),
        LookupError::MalformedReference
    );
    assert_eq!(parse_reference("a:b:c:d").unwrap_err(), LookupError::MalformedReference);
}
