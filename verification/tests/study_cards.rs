use bibledesk::study::{judge_answer, FlashcardSession, FlashcardView};
use bibledesk::models::MemoryCard;
use bibledesk::study::{
    answer_is_correct, check_answer, next_card_index, reference_label, review_date_label, review_interval_days, study_index,
    FlashcardMode, MAX_REVIEW_DAYS,
};

fn card(book: &str, chapter: u32, verse: u32, text: &str) -> MemoryCard {
    MemoryCard {
        id: 1,
        book_id: "43".to_string(),
        book_name: book.to_string(),
        chapter,
        verse,
        text: text.to_string(),
        translation: "kjv".to_string(),
        successes: 0,
        failures: 0,
        next_review: None,
        last_reviewed: None,
    }
}

#[test]
fn card_positions() {
    assert_eq!(study_index(None, 3), 0);
    assert_eq!(study_index(Some(1), 3), 1);
    assert_eq!(study_index(Some(7), 3), 2);
    assert_eq!(next_card_index(0, 3), 1);
    assert_eq!(next_card_index(2, 3), 0);
    let mut i = 1;
    for _ in 0..3 {
        i = next_card_index(i, 3);
    }
    assert_eq!(i, 1);
}

#[test]
fn review_intervals() {
    assert_eq!(review_interval_days(0, true), 1);
    assert_eq!(review_interval_days(4, true), 5);
    assert_eq!(review_interval_days(29, true), 30);
    assert_eq!(review_interval_days(100, true), MAX_REVIEW_DAYS);
    assert_eq!(review_interval_days(100, false), 1);
    for s in 0..50 {
        let d = review_interval_days(s, true);
        assert!((1..=30).contains(&d));
        assert!(d <= review_interval_days(s + 1, true));
    }
}

#[test]
fn reference_labels() {
    assert_eq!(reference_label("John", 3, 16), "John 3:16");
}

#[test]
fn verse_answers() {
    let c = card("John", 3, 16, "For God so loved the world, that he gave");
    let m = FlashcardMode::ReferenceToVerse;
    assert_eq!(check_answer(m, "  for god so loved the world ", &c), Some(true));
    assert_eq!(check_answer(m, "FOR GOD SO LOVED THE", &c), Some(true));
    assert_eq!(check_answer(m, "for", &c), Some(true));
    assert_eq!(check_answer(m, "in the beginning", &c), Some(false));
    assert!(answer_is_correct(m, "For God so loved", &c));
}

#[test]
fn reference_answers() {
    let c = card("John", 3, 16, "For God so loved the world");
    let m = FlashcardMode::VerseToReference;
    assert_eq!(check_answer(m, "john 3:16", &c), Some(true));
    assert_eq!(check_answer(m, " JOHN 3:17 ", &c), Some(true));
    assert_eq!(check_answer(m, "Matthew 3:16", &c), Some(false));
    assert_eq!(check_answer(m, "", &c), Some(false));
}

#[test]
fn answers_cut_inside_a_character_are_not_judged() {
    // 19 ASCII bytes then a two-byte character: byte 20 falls inside it.
    let c = card("Römer", 1, 1, "aaaaaaaaaaaaaaaaaaaé tail");
    assert_eq!(check_answer(FlashcardMode::ReferenceToVerse, "aaaa", &c), None);
    assert_eq!(check_answer(FlashcardMode::VerseToReference, "römer 1:1", &c), Some(true));
}

#[test]
fn review_dates() {
    assert_eq!(review_date_label("2024-05-01T10:00:00+02:00"), "2024-05-01");
    assert_eq!(review_date_label("soon"), "soon");
    assert_eq!(review_date_label(""), "");
}

#[test]
fn judging_normalized_answers() {
    assert!(judge_answer(FlashcardMode::VerseToReference, "genesis 1:1", "", "genesis", 1, 1));
    assert!(!judge_answer(FlashcardMode::VerseToReference, "exodus 1:1", "", "genesis", 1, 1));
    assert!(judge_answer(FlashcardMode::ReferenceToVerse, "in the beginning god", "in the beginning god created", "", 1, 1));
    assert!(!judge_answer(FlashcardMode::ReferenceToVerse, "and god said", "in the beginning god created", "", 1, 1));
}

#[test]
fn flashcard_session() {
    let mut s = FlashcardSession::new();
    assert_eq!(s.view, FlashcardView::CardList);
    s.answer.push_str("draft");
    s.start_review();
    assert_eq!((s.view, s.current, s.answer.as_str(), s.result), (FlashcardView::Study, Some(0), "", None));
    s.current = Some(9);
    assert_eq!(s.focus(3), 2);
    assert_eq!(s.current, Some(2));
    s.record(true);
    assert_eq!(s.result, Some(true));
    s.next_card(2, 3);
    assert_eq!((s.current, s.result), (Some(0), None));
    s.back_to_list();
    assert_eq!(s.view, FlashcardView::CardList);
}
