use bibledesk::models::{BibleBook, ReadingPlanEntry, SavedVerse, Verse};
use bibledesk::plans::{entry_label, form_book_index, new_plan_name, plan_entry_from_form, plan_progress, selection_after_delete};
use bibledesk::saved::{saved_id_of, saved_in_translation};

fn entry(id: i64, book: &str, chapter: u32, date: Option<&str>, completed: bool) -> ReadingPlanEntry {
    ReadingPlanEntry {
        id,
        plan_id: 1,
        book_name: book.to_string(),
        chapter,
        scheduled_date: date.map(|d| d.to_string()),
        completed,
    }
}

fn saved(id: i64, book: &str, chapter: u32, verse: u32, translation: &str) -> SavedVerse {
    SavedVerse {
        id,
        book_id: "1".to_string(),
        book_name: book.to_string(),
        chapter,
        verse,
        text: "text".to_string(),
        translation: translation.to_string(),
        note: String::new(),
        saved_at: "2024-01-01T00:00:00+00:00".to_string(),
    }
}

fn book(nr: u32, name: &str) -> BibleBook {
    BibleBook { id: nr.to_string(), book_nr: nr, name: name.to_string(), chapters: 0 }
}

#[test]
fn progress_counts_completed() {
    let es = vec![entry(1, "Genesis", 1, None, true), entry(2, "Genesis", 2, None, false), entry(3, "Genesis", 3, None, true)];
    assert_eq!(plan_progress(&es), (2, 3));
    assert_eq!(plan_progress(&vec![]), (0, 0));
}

#[test]
fn plan_names() {
    assert_eq!(new_plan_name("  Gospels  "), Some("Gospels".to_string()));
    assert_eq!(new_plan_name(" \t "), None);
}

#[test]
fn form_entries() {
    let books = vec![book(1, "Genesis"), book(2, "Exodus")];
    assert_eq!(plan_entry_from_form(&books, 1, "12", "2024-05-01"), ("Exodus".to_string(), 12, Some("2024-05-01".to_string())));
    assert_eq!(plan_entry_from_form(&books, 9, "abc", ""), ("Exodus".to_string(), 1, None));
    assert_eq!(plan_entry_from_form(&books, 0, "", ""), ("Genesis".to_string(), 1, None));
    assert_eq!(plan_entry_from_form(&books, 0, "0", ""), ("Genesis".to_string(), 0, None));
    assert_eq!(form_book_index(5, 2), 1);
}

#[test]
fn entry_labels() {
    assert_eq!(entry_label(&entry(1, "Psalms", 23, Some("Monday"), false)), "Psalms 23 (Monday)");
    assert_eq!(entry_label(&entry(1, "Psalms", 23, None, false)), "Psalms 23");
}

#[test]
fn deleting_the_selected_plan() {
    assert_eq!(selection_after_delete(Some(4), 4), None);
    assert_eq!(selection_after_delete(Some(4), 5), Some(4));
    assert_eq!(selection_after_delete(None, 5), None);
}

#[test]
fn saved_filter() {
    let all = vec![saved(1, "John", 3, 16, "kjv"), saved(2, "John", 3, 16, "asv"), saved(3, "Ruth", 1, 1, "kjv")];
    let ids: Vec<i64> = saved_in_translation(&all, "kjv").iter().map(|s| s.id).collect();
    assert_eq!(ids, vec![1, 3]);
    assert_eq!(saved_in_translation(&all, "all").len(), 3);
    assert!(saved_in_translation(&all, "web").is_empty());
}

#[test]
fn saved_lookup_last_wins() {
    let all = vec![saved(1, "John", 3, 16, "kjv"), saved(7, "John", 3, 16, "kjv"), saved(3, "Ruth", 1, 1, "kjv")];
    let v = Verse {
        book_id: "43".to_string(),
        book_name: "John".to_string(),
        chapter: 3,
        verse: 16,
        text: String::new(),
        translation: "kjv".to_string(),
    };
    assert_eq!(saved_id_of(&all, &v), Some(7));
    let other = Verse { translation: "asv".to_string(), ..v.clone() };
    assert_eq!(saved_id_of(&all, &other), None);
    let back = all[2].to_verse();
    assert_eq!((back.book_name.as_str(), back.chapter, back.verse, back.translation.as_str()), ("Ruth", 1, 1, "kjv"));
}
