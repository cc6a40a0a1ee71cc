use bibledesk::reader::NavStep;
use bibledesk::settings::Language;
use bibledesk::models::{BibleBook, Chapter, Translation, Verse};
use bibledesk::reader::{
    chapter_heading, language_groups, like_pattern, search_request, translation_name, Reader,
};
use bibledesk::settings::Settings;

fn tr(id: &str, name: &str, language: &str) -> Translation {
    Translation { id: id.to_string(), name: name.to_string(), language: language.to_string() }
}

fn book(nr: u32, name: &str, chapters: u32) -> BibleBook {
    BibleBook { id: nr.to_string(), book_nr: nr, name: name.to_string(), chapters }
}

fn verse(chapter: u32, n: u32, text: &str) -> Verse {
    Verse {
        book_id: "1".to_string(),
        book_name: "Genesis".to_string(),
        chapter,
        verse: n,
        text: text.to_string(),
        translation: "kjv".to_string(),
    }
}

fn ready_reader() -> Reader {
    Reader::new(
        Settings::default(),
        vec![tr("kjv", "King James Version", "English")],
        vec![book(1, "Genesis", 0), book(2, "Exodus", 40)],
    )
}

#[test]
fn start_loads_catalog_only_when_missing() {
    let r = Reader::new(Settings::default(), vec![], vec![book(1, "Genesis", 50)]);
    assert!(r.catalog_loading);
    let r = ready_reader();
    assert!(!r.catalog_loading);
    assert_eq!(r.selected_book_idx, 0);
    assert_eq!(r.selected_chapter, 1);
    assert_eq!(r.settings_translation_temp, "kjv");
    let r = Reader::new(Settings::default(), vec![tr("kjv", "K", "E")], vec![]);
    assert!(r.catalog_loading);
}

#[test]
fn catalog_keeps_a_listed_default() {
    let mut r = Reader::new(Settings::default(), vec![], vec![]);
    r.receive_catalog(Ok((vec![tr("asv", "ASV", "English"), tr("kjv", "KJV", "English")], vec![book(1, "Genesis", 0)])));
    assert!(!r.catalog_loading);
    assert!(r.catalog_error.is_none());
    assert_eq!(r.settings.default_translation, "kjv");
    assert_eq!(r.translations.len(), 2);
    assert_eq!(r.books.len(), 1);
}

#[test]
fn catalog_replaces_an_unlisted_default() {
    let mut r = Reader::new(Settings::default(), vec![], vec![]);
    r.receive_catalog(Ok((vec![tr("luther1912", "Luther", "German")], vec![])));
    assert_eq!(r.settings.default_translation, "luther1912");
    assert_eq!(r.settings_translation_temp, "luther1912");
    assert!(r.books.is_empty());
}

#[test]
fn catalog_failure_is_kept() {
    let mut r = Reader::new(Settings::default(), vec![], vec![]);
    r.receive_catalog(Err("Network error: offline".to_string()));
    assert!(!r.catalog_loading);
    assert_eq!(r.catalog_error.as_deref(), Some("Network error: offline"));
}

#[test]
fn cached_books_or_fetch() {
    let mut r = ready_reader();
    r.select_book(1);
    assert!(!r.books_looked_up(vec![book(10, "Psalms", 150)]));
    assert_eq!(r.books.len(), 1);
    assert_eq!(r.selected_book_idx, 0);
    assert!(r.books_looked_up(vec![]));
    assert!(r.catalog_loading);
    assert!(!r.books_looked_up(vec![]));
}

#[test]
fn chapter_from_cache() {
    let mut r = ready_reader();
    let q = r.chapter_request().unwrap();
    assert_eq!((q.book_nr, q.book_name.as_str(), q.chapter, q.translation.as_str()), (1, "Genesis", 1, "kjv"));
    assert!(r.chapter_count_unknown());
    let fetch = r.chapter_looked_up(vec![verse(1, 1, "In the beginning")], Some(50));
    assert!(!fetch);
    let c = r.current_chapter.as_ref().unwrap();
    assert_eq!(c.reference, "Genesis 1");
    assert_eq!(c.translation, "kjv");
    assert_eq!(r.books[0].chapters, 50);
    assert_eq!(r.reader_status, "");
}

#[test]
fn chapter_fetch_when_not_cached() {
    let mut r = ready_reader();
    assert!(r.chapter_looked_up(vec![], None));
    assert!(r.chapter_loading);
    assert_eq!(r.reader_status, "Loading from API...");
    assert!(r.chapter_request().is_none());
    let chapter = Chapter {
        reference: "Genesis 1".to_string(),
        book_name: "Genesis".to_string(),
        chapter_num: 1,
        verses: vec![verse(1, 1, "In the beginning")],
        translation: "kjv".to_string(),
    };
    let store = r.receive_chapter(Ok((chapter, 50)));
    assert_eq!(store, Some(("kjv".to_string(), 1, 50)));
    assert!(!r.chapter_loading);
    assert_eq!(r.books[0].chapters, 50);
    assert!(r.current_chapter.is_some());
}

#[test]
fn chapter_fetch_failure() {
    let mut r = ready_reader();
    r.chapter_looked_up(vec![], None);
    assert_eq!(r.receive_chapter(Err("Network error: x".to_string())), None);
    assert_eq!(r.reader_status, "Error: Network error: x");
    assert!(!r.chapter_loading);
}

#[test]
fn book_download_round() {
    let mut r = ready_reader();
    assert_eq!(r.begin_book_download("Downloading book..."), Some(("kjv".to_string(), 1)));
    assert!(r.book_downloading);
    assert_eq!(r.begin_book_download("again"), None);
    r.receive_download(Ok(1533), "Book downloaded");
    assert_eq!(r.reader_status, "Book downloaded (1533 verses)");
    assert!(!r.book_downloading);
    r.begin_book_download("x");
    r.receive_download(Err("timeout".to_string()), "Book downloaded");
    assert_eq!(r.reader_status, "Download error: timeout");
}

#[test]
fn navigation() {
    let mut r = ready_reader();
    assert!(!r.can_go_previous());
    assert!(r.can_go_next());
    assert_eq!(r.chapter_choices(), 1);
    r.go_next();
    assert_eq!(r.selected_chapter, 2);
    assert!(r.select_book(1));
    assert_eq!(r.selected_chapter, 1);
    assert!(!r.select_book(1));
    assert_eq!(r.max_chapter(), 40);
    assert_eq!(r.chapter_choices(), 40);
    r.selected_chapter = 40;
    assert!(!r.can_go_next());
    r.go_previous();
    assert_eq!(r.selected_chapter, 39);
    r.change_translation("asv".to_string());
    assert_eq!(r.settings.default_translation, "asv");
    assert!(r.current_chapter.is_none());
}

#[test]
fn names_and_heading() {
    let ts = vec![tr("kjv", "King James Version", "English"), tr("kjv", "Duplicate", "English")];
    assert_eq!(translation_name(&ts, "kjv"), "King James Version");
    assert_eq!(translation_name(&ts, "web"), "web");
    let c = Chapter {
        reference: "John 3".to_string(),
        book_name: "John".to_string(),
        chapter_num: 3,
        verses: vec![],
        translation: "kjv".to_string(),
    };
    assert_eq!(chapter_heading(&c, &ts), "John 3 (King James Version)");
}

#[test]
fn search_requests() {
    assert_eq!(search_request("  light ", "all"), Some(("light".to_string(), None)));
    assert_eq!(search_request("light", "kjv"), Some(("light".to_string(), Some("kjv".to_string()))));
    assert_eq!(search_request("   ", "kjv"), None);
    assert_eq!(like_pattern("light"), "%light%");
}

#[test]
fn groups_by_language() {
    let ts = vec![
        tr("a", "A", "English"),
        tr("b", "B", "English"),
        tr("c", "C", "German"),
        tr("d", "D", "English"),
    ];
    assert_eq!(language_groups(&ts), vec![(0, 2), (2, 3), (3, 4)]);
    assert_eq!(language_groups(&vec![]), vec![]);
}

#[test]
fn navigation_steps() {
    let mut r = ready_reader();
    // Genesis: chapter count unknown, so the menu offers only the selected chapter.
    assert!(!r.navigate(NavStep::ChooseChapter(2)));
    assert!(!r.navigate(NavStep::Previous));
    assert!(r.navigate(NavStep::Next));
    assert_eq!(r.selected_chapter, 2);
    assert!(r.navigate(NavStep::Previous));
    assert_eq!(r.selected_chapter, 1);
    // Exodus: 40 chapters.
    assert!(r.navigate(NavStep::SelectBook(1)));
    assert_eq!((r.selected_book_idx, r.selected_chapter), (1, 1));
    assert!(!r.navigate(NavStep::SelectBook(1)));
    assert!(!r.navigate(NavStep::SelectBook(7)));
    assert!(r.navigate(NavStep::ChooseChapter(40)));
    assert!(!r.navigate(NavStep::Next));
    assert_eq!(r.selected_chapter, 40);
    assert!(!r.navigate(NavStep::ChooseChapter(41)));
    assert!(!r.navigate(NavStep::ChooseChapter(0)));
}

#[test]
fn navigation_keeps_chapter_in_range() {
    let mut r = ready_reader();
    let steps = [
        NavStep::SelectBook(1),
        NavStep::Next,
        NavStep::ChooseChapter(40),
        NavStep::Next,
        NavStep::Previous,
        NavStep::SelectBook(0),
        NavStep::Previous,
        NavStep::Next,
        NavStep::ChooseChapter(9),
    ];
    for step in steps {
        r.navigate(step);
        let max = r.books[r.selected_book_idx].chapters;
        assert!(r.selected_book_idx < r.books.len());
        assert!(r.selected_chapter >= 1);
        assert!(max == 0 || r.selected_chapter <= max);
    }
}

#[test]
fn saving_the_settings_form() {
    let mut r = ready_reader();
    r.settings_translation_temp = "asv".to_string();
    r.apply_settings_form(Language::German, false);
    assert_eq!(r.settings.language, Language::German);
    assert_eq!(r.settings.default_translation, "asv");
    assert!(!r.settings.dark_mode);
}
