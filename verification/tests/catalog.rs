use bibledesk::api::{BibleClient, BookContent, BookEntry, ChapterEntry, TranslationEntry, VerseEntry, BASE_URL};
use bibledesk::models::Verse;

fn entry(translation: &str, abbreviation: &str, language: &str) -> TranslationEntry {
    TranslationEntry {
        translation: translation.to_string(),
        abbreviation: abbreviation.to_string(),
        language: language.to_string(),
    }
}

fn verse(n: u32, text: &str) -> VerseEntry {
    VerseEntry { verse: n, text: text.to_string() }
}

fn sample_book() -> BookContent {
    BookContent {
        abbreviation: "kjv".to_string(),
        nr: 43,
        name: "John".to_string(),
        chapters: vec![
            ChapterEntry {
                chapter: 1,
                name: "John 1".to_string(),
                verses: vec![verse(2, " The same was in the beginning with God. "), verse(1, "In the beginning was the Word")],
            },
            ChapterEntry {
                chapter: 2,
                name: "John 2".to_string(),
                verses: vec![verse(1, "And the third day\n")],
            },
            ChapterEntry {
                chapter: 3,
                name: "John 3".to_string(),
                verses: vec![verse(16, "For God so loved the world"), verse(17, "For God sent not his Son")],
            },
        ],
    }
}

fn key(v: &Verse) -> (String, u32, u32, String, String, String) {
    (v.book_id.clone(), v.chapter, v.verse, v.text.clone(), v.book_name.clone(), v.translation.clone())
}

#[test]
fn urls() {
    assert_eq!(BASE_URL, "https://api.getbible.net/v2");
    assert_eq!(BibleClient::translations_url(), "https://api.getbible.net/v2/translations.json");
    assert_eq!(BibleClient::books_url("kjv"), "https://api.getbible.net/v2/kjv/books.json");
    assert_eq!(BibleClient::book_url("elberfelder1905", 36), "https://api.getbible.net/v2/elberfelder1905/36.json");
}

#[test]
fn translations_sorted_by_language_then_name() {
    let list = BibleClient::translations_from_entries(vec![
        entry("Luther 1912", "luther1912", "German"),
        entry("King James Version", "kjv", "English"),
        entry("Elberfelder 1905", "elberfelder1905", "German"),
        entry("American Standard Version", "asv", "English"),
        entry("Afrikaans 1953", "aov", "Afrikaans"),
    ]);
    let ids: Vec<&str> = list.iter().map(|t| t.id.as_str()).collect();
    assert_eq!(ids, vec!["aov", "asv", "kjv", "elberfelder1905", "luther1912"]);
    assert_eq!(list[2].name, "King James Version");
    assert_eq!(list[2].language, "English");
    for w in list.windows(2) {
        assert!((w[0].language.as_str(), w[0].name.as_str()) <= (w[1].language.as_str(), w[1].name.as_str()));
    }
}

#[test]
fn translations_ties_keep_order() {
    let list = BibleClient::translations_from_entries(vec![
        entry("Same", "b", "X"),
        entry("Same", "a", "X"),
        entry("Other", "c", "X"),
    ]);
    let ids: Vec<&str> = list.iter().map(|t| t.id.as_str()).collect();
    assert_eq!(ids, vec!["c", "b", "a"]);
    assert!(BibleClient::translations_from_entries(vec![]).is_empty());
}

#[test]
fn books_filtered_and_sorted() {
    let books = BibleClient::books_from_entries(vec![
        BookEntry { nr: Some(2), name: Some("Exodus".to_string()) },
        BookEntry { nr: None, name: Some("Nameless".to_string()) },
        BookEntry { nr: Some(1), name: Some("Genesis".to_string()) },
        BookEntry { nr: Some(3), name: None },
        BookEntry { nr: Some((1u64 << 32) + 5), name: Some("Wrapped".to_string()) },
    ]);
    let got: Vec<(String, u32, String, u32)> =
        books.iter().map(|b| (b.id.clone(), b.book_nr, b.name.clone(), b.chapters)).collect();
    assert_eq!(
        got,
        vec![
            ("1".to_string(), 1, "Genesis".to_string(), 0),
            ("2".to_string(), 2, "Exodus".to_string(), 0),
            ("5".to_string(), 5, "Wrapped".to_string(), 0),
        ]
    );
}

#[test]
fn chapter_extracted_with_sorted_verses() {
    let content = sample_book();
    let (chapter, others, total) = BibleClient::chapter_from_book(&content, 1).unwrap();
    assert_eq!(total, 3);
    assert_eq!(chapter.reference, "John 1");
    assert_eq!(chapter.book_name, "John");
    assert_eq!(chapter.chapter_num, 1);
    assert_eq!(chapter.translation, "kjv");
    let verses: Vec<(u32, &str)> = chapter.verses.iter().map(|v| (v.verse, v.text.as_str())).collect();
    assert_eq!(verses, vec![(1, "In the beginning was the Word"), (2, "The same was in the beginning with God.")]);
    assert!(chapter.verses.iter().all(|v| v.book_id == "43" && v.chapter == 1 && v.translation == "kjv"));
    let rest: Vec<(u32, u32, &str)> = others.iter().map(|v| (v.chapter, v.verse, v.text.as_str())).collect();
    assert_eq!(
        rest,
        vec![(2, 1, "And the third day"), (3, 16, "For God so loved the world"), (3, 17, "For God sent not his Son")]
    );
}

#[test]
fn missing_chapter_is_an_error() {
    let content = sample_book();
    let err = BibleClient::chapter_from_book(&content, 9).unwrap_err();
    assert_eq!(err, "Chapter 9 not found in John (book has 3 chapters)");
}

#[test]
fn last_chapter_of_a_number_wins() {
    let mut content = sample_book();
    content.chapters.push(ChapterEntry { chapter: 1, name: String::new(), verses: vec![verse(5, "again")] });
    let (chapter, others, total) = BibleClient::chapter_from_book(&content, 1).unwrap();
    assert_eq!(total, 4);
    assert_eq!(chapter.verses.len(), 1);
    assert_eq!(chapter.verses[0].text, "again");
    assert_eq!(others.len(), 3);
}

#[test]
fn whole_book_in_order() {
    let content = sample_book();
    let all = BibleClient::book_verses(&content);
    let got: Vec<(u32, u32, &str)> = all.iter().map(|v| (v.chapter, v.verse, v.text.as_str())).collect();
    assert_eq!(
        got,
        vec![
            (1, 2, "The same was in the beginning with God."),
            (1, 1, "In the beginning was the Word"),
            (2, 1, "And the third day"),
            (3, 16, "For God so loved the world"),
            (3, 17, "For God sent not his Son"),
        ]
    );
}

#[test]
fn chapter_and_rest_are_the_whole_book() {
    let content = sample_book();
    for nr in 1..=3 {
        let (chapter, others, _) = BibleClient::chapter_from_book(&content, nr).unwrap();
        let mut fetched: Vec<_> = chapter.verses.iter().chain(others.iter()).map(key).collect();
        let mut whole: Vec<_> = BibleClient::book_verses(&content).iter().map(key).collect();
        fetched.sort();
        whole.sort();
        assert_eq!(fetched, whole);
    }
}

#[test]
fn parse_error_preview() {
    assert_eq!(
        BibleClient::parse_error_message("expected value at line 1 column 1", "oops"),
        "Parse error: expected value at line 1 column 1 (response preview: oops)"
    );
    let long = "x".repeat(301);
    let msg = BibleClient::parse_error_message("e", &long);
    assert_eq!(msg, format!("Parse error: e (response preview: {}...)", "x".repeat(300)));
    // Byte 300 falls inside a two-byte character: the preview stops before it.
    let greek = format!("{}{}", "a".repeat(299), "αβγ");
    assert_eq!(
        BibleClient::parse_error_message("e", &greek),
        format!("Parse error: e (response preview: {}...)", "a".repeat(299))
    );
    let german = format!("{}{}", "b".repeat(298), "äöü");
    assert_eq!(
        BibleClient::parse_error_message("e", &german),
        format!("Parse error: e (response preview: {}ä...)", "b".repeat(298))
    );
    let exact = "y".repeat(300);
    assert_eq!(BibleClient::parse_error_message("e", &exact), format!("Parse error: e (response preview: {})", exact));
}
