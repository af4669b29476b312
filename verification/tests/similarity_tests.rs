use biblia::corpus::{Book, Chapter, Corpus, Verse};
use biblia::pipeline::lookup_passage;
use biblia::similarity::{jaro_winkler_scaled, SCALE};

fn chars(s: &str) -> Vec<char> {
    s.chars().collect()
}

fn score(a: &str, b: &str) -> u64 {
    jaro_winkler_scaled(&chars(a), &chars(b))
}

#[test]
fn identical_strings_score_full_scale() {
    assert_eq!(score("Ioan", "Ioan"), SCALE);
    assert_eq!(score("", ""), SCALE);
}

#[test]
fn disjoint_strings_score_zero() {
    assert_eq!(score("Xyz", "In"), 0);
    assert_eq!(score("abc", ""), 0);
    assert_eq!(score("", "abc"), 0);
}

#[test]
fn transposed_letters_score_above_eight_tenths() {
    assert!(score("Iaon", "Ioan") > 800_000);
    assert!(score("Matie", "Matei") > 800_000);
}

#[test]
fn transposed_candidate_resolves_to_intended_book() {
    let verse = Verse { number: 1, text: "una".to_string() };
    let corpus = Corpus {
        books: vec![
            Book {
                name: "In".to_string(),
                aliases: vec!["Ioan".to_string()],
                chapters: vec![Chapter { number: 1, verses: vec![verse] }],
            },
            Book { name: "Mt".to_string(), aliases: vec![], chapters: vec![] },
            Book { name: "Lc".to_string(), aliases: vec![], chapters: vec![] },
        ],
    };
    let out = lookup_passage(&corpus, "Iaon:1:1").unwrap();
    assert!(out.contains("## In"));
}

#[test]
fn scores_agree_with_the_float_reference_metric() {
    let pairs = [
        ("Matei", "Mt"),
        ("Iaon", "Ioan"),
        ("Ioan", "In"),
        ("cheeseburger", "cheese fries"),
        ("Friedrich Nietzsche", "Jean-Paul Sartre"),
        ("dwayne", "duane"),
        ("dixon", "dicksonx"),
        ("a", "a"),
        ("a", "b"),
        ("", "x"),
        ("Psalmi", "Ps"),
        ("Apocalipsa", "Ap"),
    ];
    for (a, b) in pairs {
        let ours = score(a, b) as f64 / SCALE as f64;
        let theirs = strsim::jaro_winkler(a, b);
        assert!(
            (ours - theirs).abs() < 2e-6,
            "{a} vs {b}: ours {ours}, strsim {theirs}"
        );
    }
}
