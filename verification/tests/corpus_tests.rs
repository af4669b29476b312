use biblia::corpus::{check_corpus, Book, Chapter, Corpus, Verse};
use biblia::errors::LookupError;
use biblia::pipeline::interpret_assistant_reply;

fn verse(number: u32, text: &str) -> Verse {
    Verse { number, text: text.to_string() }
}

fn one_book(name: &str, chapters: Vec<Chapter>) -> Corpus {
    Corpus {
        books: vec![Book { name: name.to_string(), aliases: vec![], chapters }],
    }
}

#[test]
fn empty_corpus_is_well_formed() {
    assert!(check_corpus(&Corpus { books: vec![] }));
}

#[test]
fn empty_book_name_is_rejected() {
    assert!(!check_corpus(&one_book("", vec![])));
}

#[test]
fn duplicate_book_names_are_rejected() {
    let c = Corpus {
        books: vec![
            Book { name: "In".to_string(), aliases: vec![], chapters: vec![] },
            Book { name: "In".to_string(), aliases: vec![], chapters: vec![] },
        ],
    };
    assert!(!check_corpus(&c));
}

#[test]
fn duplicate_chapter_numbers_are_rejected() {
    let c = one_book(
        "In",
        vec![
            Chapter { number: 2, verses: vec![verse(1, "a")] },
            Chapter { number: 2, verses: vec![verse(1, "b")] },
        ],
    );
    assert!(!check_corpus(&c));
}

#[test]
fn zero_verse_number_is_rejected() {
    let c = one_book("In", vec![Chapter { number: 1, verses: vec![verse(0, "a")] }]);
    assert!(!check_corpus(&c));
}

#[test]
fn empty_verse_text_is_rejected() {
    let c = one_book("In", vec![Chapter { number: 1, verses: vec![verse(1, "")] }]);
    assert!(!check_corpus(&c));
}

#[test]
fn zero_chapter_number_is_rejected() {
    let c = one_book("In", vec![Chapter { number: 0, verses: vec![verse(1, "a")] }]);
    assert!(!check_corpus(&c));
}

#[test]
fn assistant_error_field_is_a_failure() {
    let r = interpret_assistant_reply(Some("quota".to_string()), Some("Mt:1:1".to_string()));
    assert_eq!(r, Err(LookupError::AssistantFailed));
}

#[test]
fn assistant_missing_content_is_a_failure() {
    let r = interpret_assistant_reply(None, None);
    assert_eq!(r, Err(LookupError::AssistantFailed));
}

#[test]
fn assistant_reply_passes_through() {
    let r = interpret_assistant_reply(None, Some("Mt:10:20".to_string()));
    assert_eq!(r, Ok("Mt:10:20".to_string()));
}
