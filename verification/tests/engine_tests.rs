use biblia::corpus::{check_corpus, Book, Chapter, Corpus, Verse};
use biblia::errors::LookupError;
use biblia::extractor::get_verses;
use biblia::formatter::format_passage;
use biblia::pipeline::lookup_passage;

fn verse(number: u32, text: &str) -> Verse {
    Verse { number, text: text.to_string() }
}

fn filler_chapter(number: u32, count: u32) -> Chapter {
    let mut verses = Vec::new();
    for k in 1..=count {
        verses.push(verse(k, &format!("text {k}")));
    }
    Chapter { number, verses }
}

/// A corpus in the shape of the real one: canonical abbreviations as keys,
/// longer spellings as aliases.
fn sample_corpus() -> Corpus {
    let mut ioan_ch3 = filler_chapter(3, 16);
    ioan_ch3.verses[15] =
        verse(16, "Fiindc\u{103} at\u{e2}t de mult a iubit Dumnezeu lumea...");
    let input = Book {
        name: "In".to_string(),
        aliases: vec!["Ioan".to_string()],
        chapters: vec![filler_chapter(1, 5), ioan_ch3],
    };
    let matei = Book {
        name: "Mt".to_string(),
        aliases: vec![],
        chapters: vec![filler_chapter(5, 10)],
    };
    let marcu = Book {
        name: "Mc".to_string(),
        aliases: vec![],
        chapters: vec![filler_chapter(1, 4)],
    };
    Corpus { books: vec![input, matei, marcu] }
}

#[test]
fn sample_corpus_is_well_formed() {
    assert!(check_corpus(&sample_corpus()));
}

#[test]
fn corpus_with_descending_verses_is_rejected() {
    let bad = Corpus {
        books: vec![Book {
            name: "In".to_string(),
            aliases: vec![],
            chapters: vec![Chapter { number: 1, verses: vec![verse(2, "b"), verse(1, "a")] }],
        }],
    };
    assert!(!check_corpus(&bad));
}

#[test]
fn alias_reference_round_trips_to_exact_text() {
    let corpus = sample_corpus();
    let out = lookup_passage(&corpus, "Ioan:3:16").unwrap();
    assert!(out.contains("## In"));
    assert!(out.contains("Capitolul 3"));
    assert!(out.contains(
        "> **3:16** Fiindc\u{103} at\u{e2}t de mult a iubit Dumnezeu lumea..."
    ));
}

#[test]
fn fuzzy_match_range_returns_exactly_the_range() {
    let corpus = sample_corpus();
    let out = lookup_passage(&corpus, "Matei:5:3-5").unwrap();
    assert!(out.contains("## Mt"));
    assert!(out.contains("> **5:3** text 3"));
    assert!(out.contains("> **5:4** text 4"));
    assert!(out.contains("> **5:5** text 5"));
    assert!(!out.contains("5:2"));
    assert!(!out.contains("5:6"));
}

#[test]
fn zero_similarity_reports_no_book_match() {
    let corpus = sample_corpus();
    assert_eq!(lookup_passage(&corpus, "Xyz:1:1"), Err(LookupError::NoBookMatch));
}

#[test]
fn four_fields_is_malformed() {
    let corpus = sample_corpus();
    assert_eq!(lookup_passage(&corpus, "Mt:5:3:4"), Err(LookupError::MalformedReference));
}

#[test]
fn descending_range_is_verse_not_found() {
    let corpus = sample_corpus();
    assert_eq!(lookup_passage(&corpus, "In:3:5-2"), Err(LookupError::VerseNotFound));
    assert!(matches!(
        get_verses(&corpus, "In", 3, 5, Some(2)),
        Err(LookupError::VerseNotFound)
    ));
}

#[test]
fn out_of_bounds_indices_are_verse_not_found() {
    let corpus = sample_corpus();
    assert_eq!(lookup_passage(&corpus, "In:99:1"), Err(LookupError::VerseNotFound));
    assert_eq!(lookup_passage(&corpus, "In:3:999"), Err(LookupError::VerseNotFound));
    assert_eq!(
        lookup_passage(&corpus, "In:3:4294967295"),
        Err(LookupError::VerseNotFound)
    );
}

#[test]
fn clipped_range_returns_the_existing_tail() {
    let corpus = sample_corpus();
    let out = lookup_passage(&corpus, "Mc:1:3-99").unwrap();
    assert!(out.contains("> **1:3** text 3"));
    assert!(out.contains("> **1:4** text 4"));
    assert!(!out.contains("1:2"));
}

#[test]
fn omitted_verse_spec_returns_whole_chapter_in_order() {
    let corpus = sample_corpus();
    let out = lookup_passage(&corpus, "Mc:1").unwrap();
    let expected = "## Mc\n ### Capitolul 1\n > **1:1** text 1\n> **1:2** text 2\n\
                    > **1:3** text 3\n> **1:4** text 4";
    assert_eq!(out, expected);
}

#[test]
fn formatter_builds_the_exact_block() {
    let verses = vec![verse(1, "alfa"), verse(2, "beta")];
    let out = format_passage("In", 7, &verses);
    assert_eq!(out, "## In\n ### Capitolul 7\n > **7:1** alfa\n> **7:2** beta");
}

#[test]
fn single_verse_reference_returns_one_line() {
    let corpus = sample_corpus();
    let out = lookup_passage(&corpus, "Mt:5:7").unwrap();
    assert_eq!(out, "## Mt\n ### Capitolul 5\n > **5:7** text 7");
}

#[test]
fn exact_alias_match_wins_over_higher_scoring_book() {
    // "Ioan" is an exact alias of "In"; the book "Ioana" would score far
    // higher under the similarity metric, but the exact phase must win.
    let mut corpus = sample_corpus();
    corpus.books.push(Book {
        name: "Ioana".to_string(),
        aliases: vec![],
        chapters: vec![filler_chapter(1, 3)],
    });
    assert!(check_corpus(&corpus));
    let out = lookup_passage(&corpus, "Ioan:1:1").unwrap();
    assert!(out.contains("## In"));
    assert!(!out.contains("Ioana"));
}

#[test]
fn fields_are_trimmed_before_interpretation() {
    let corpus = sample_corpus();
    let out = lookup_passage(&corpus, " Ioan : 3 : 16 ").unwrap();
    assert!(out.contains("## In"));
    assert!(out.contains("3:16"));
}
