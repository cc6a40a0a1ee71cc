//! The records that the reader, the catalog and the study tools work on, each
//! with a view that speaks of its text as characters.
use crate::sort::SortKey;
use crate::text::{bytes_le, bytes_lt, compare_str, lemma_bytes_le_total, lemma_bytes_le_transitive, Order};
use vstd::prelude::*;
use vstd::utf8::encode_utf8;

verus! {

/// A Bible translation offered by the text service.
#[derive(Debug, Clone)]
pub struct Translation {
    pub id: String,
    pub name: String,
    pub language: String,
}

/// The view of a [`Translation`].
pub struct TranslationView {
    pub id: Seq<char>,
    pub name: Seq<char>,
    pub language: Seq<char>,
}

impl View for Translation {
    type V = TranslationView;

    open spec fn view(&self) -> TranslationView {
        TranslationView { id: self.id@, name: self.name@, language: self.language@ }
    }
}

/// Translations are listed by language, then by name, each compared by its
/// UTF-8 bytes as `str` comparison does.
impl SortKey for Translation {
    open spec fn key_le(a: TranslationView, b: TranslationView) -> bool {
        let la = encode_utf8(a.language);
        let lb = encode_utf8(b.language);
        bytes_lt(la, lb) || (la == lb && bytes_le(encode_utf8(a.name), encode_utf8(b.name)))
    }

    fn le(&self, other: &Self) -> (r: bool) {
        match compare_str(self.language.as_str(), other.language.as_str()) {
            Order::Less => true,
            Order::Greater => false,
            Order::Equal => !matches!(compare_str(self.name.as_str(), other.name.as_str()), Order::Greater),
        }
    }

    proof fn lemma_key_le_total(a: TranslationView, b: TranslationView) {
        lemma_bytes_le_total(encode_utf8(a.language), encode_utf8(b.language));
        lemma_bytes_le_total(encode_utf8(a.name), encode_utf8(b.name));
    }

    proof fn lemma_key_le_transitive(a: TranslationView, b: TranslationView, c: TranslationView) {
        let (la, lb, lc) = (encode_utf8(a.language), encode_utf8(b.language), encode_utf8(c.language));
        lemma_bytes_le_total(la, lb);
        lemma_bytes_le_total(lb, lc);
        lemma_bytes_le_total(la, lc);
        if bytes_le(la, lb) && bytes_le(lb, lc) {
            lemma_bytes_le_transitive(la, lb, lc);
        }
        if la == lb && lb == lc {
            lemma_bytes_le_transitive(encode_utf8(a.name), encode_utf8(b.name), encode_utf8(c.name));
        }
    }
}

/// A book of the Bible as a translation lists it.
#[derive(Debug, Clone)]
pub struct BibleBook {
    pub id: String,
    pub book_nr: u32,
    pub name: String,
    /// The number of chapters, 0 while it is not known.
    pub chapters: u32,
}

/// The view of a [`BibleBook`].
pub struct BookView {
    pub id: Seq<char>,
    pub book_nr: u32,
    pub name: Seq<char>,
    pub chapters: u32,
}

impl View for BibleBook {
    type V = BookView;

    open spec fn view(&self) -> BookView {
        BookView { id: self.id@, book_nr: self.book_nr, name: self.name@, chapters: self.chapters }
    }
}

/// Books are listed by their number.
impl SortKey for BibleBook {
    open spec fn key_le(a: BookView, b: BookView) -> bool {
        a.book_nr <= b.book_nr
    }

    fn le(&self, other: &Self) -> (r: bool) {
        self.book_nr <= other.book_nr
    }

    proof fn lemma_key_le_total(a: BookView, b: BookView) {
    }

    proof fn lemma_key_le_transitive(a: BookView, b: BookView, c: BookView) {
    }
}

/// One verse of one chapter in one translation.
#[derive(Debug, Clone)]
pub struct Verse {
    pub book_id: String,
    pub book_name: String,
    pub chapter: u32,
    pub verse: u32,
    pub text: String,
    pub translation: String,
}

/// The view of a [`Verse`].
pub struct VerseView {
    pub book_id: Seq<char>,
    pub book_name: Seq<char>,
    pub chapter: u32,
    pub verse: u32,
    pub text: Seq<char>,
    pub translation: Seq<char>,
}

impl View for Verse {
    type V = VerseView;

    open spec fn view(&self) -> VerseView {
        VerseView {
            book_id: self.book_id@,
            book_name: self.book_name@,
            chapter: self.chapter,
            verse: self.verse,
            text: self.text@,
            translation: self.translation@,
        }
    }
}

/// The verses of a chapter are listed by verse number.
impl SortKey for Verse {
    open spec fn key_le(a: VerseView, b: VerseView) -> bool {
        a.verse <= b.verse
    }

    fn le(&self, other: &Self) -> (r: bool) {
        self.verse <= other.verse
    }

    proof fn lemma_key_le_total(a: VerseView, b: VerseView) {
    }

    proof fn lemma_key_le_transitive(a: VerseView, b: VerseView, c: VerseView) {
    }
}

/// A chapter ready to be read.
#[derive(Debug, Clone)]
pub struct Chapter {
    pub reference: String,
    pub book_name: String,
    pub chapter_num: u32,
    pub verses: Vec<Verse>,
    pub translation: String,
}

/// The view of a [`Chapter`].
pub struct ChapterView {
    pub reference: Seq<char>,
    pub book_name: Seq<char>,
    pub chapter_num: u32,
    pub verses: Seq<VerseView>,
    pub translation: Seq<char>,
}

impl View for Chapter {
    type V = ChapterView;

    open spec fn view(&self) -> ChapterView {
        ChapterView {
            reference: self.reference@,
            book_name: self.book_name@,
            chapter_num: self.chapter_num,
            verses: crate::sort::views(self.verses@),
            translation: self.translation@,
        }
    }
}

/// A verse the reader has bookmarked, with a note.
#[derive(Debug, Clone)]
pub struct SavedVerse {
    pub id: i64,
    pub book_id: String,
    pub book_name: String,
    pub chapter: u32,
    pub verse: u32,
    pub text: String,
    pub translation: String,
    pub note: String,
    pub saved_at: String,
}

/// The view of a [`SavedVerse`].
pub struct SavedVerseView {
    pub id: i64,
    pub book_id: Seq<char>,
    pub book_name: Seq<char>,
    pub chapter: u32,
    pub verse: u32,
    pub text: Seq<char>,
    pub translation: Seq<char>,
    pub note: Seq<char>,
    pub saved_at: Seq<char>,
}

impl View for SavedVerse {
    type V = SavedVerseView;

    open spec fn view(&self) -> SavedVerseView {
        SavedVerseView {
            id: self.id,
            book_id: self.book_id@,
            book_name: self.book_name@,
            chapter: self.chapter,
            verse: self.verse,
            text: self.text@,
            translation: self.translation@,
            note: self.note@,
            saved_at: self.saved_at@,
        }
    }
}

impl SavedVerse {
    /// A copy of this saved verse with the same view.
    pub fn copy(&self) -> (r: SavedVerse)
        ensures
            r@ == self@,
    {
        SavedVerse {
            id: self.id,
            book_id: copy_string(&self.book_id),
            book_name: copy_string(&self.book_name),
            chapter: self.chapter,
            verse: self.verse,
            text: copy_string(&self.text),
            translation: copy_string(&self.translation),
            note: copy_string(&self.note),
            saved_at: copy_string(&self.saved_at),
        }
    }

    /// The verse that this saved verse records.
    pub fn to_verse(&self) -> (r: Verse)
        ensures
            r@ == (VerseView {
                book_id: self.book_id@,
                book_name: self.book_name@,
                chapter: self.chapter,
                verse: self.verse,
                text: self.text@,
                translation: self.translation@,
            }),
    {
        Verse {
            book_id: copy_string(&self.book_id),
            book_name: copy_string(&self.book_name),
            chapter: self.chapter,
            verse: self.verse,
            text: copy_string(&self.text),
            translation: copy_string(&self.translation),
        }
    }
}

/// A named reading plan.
#[derive(Debug, Clone)]
pub struct ReadingPlan {
    pub id: i64,
    pub name: String,
    pub created_at: String,
}

/// One chapter scheduled in a reading plan.
#[derive(Debug, Clone)]
pub struct ReadingPlanEntry {
    pub id: i64,
    pub plan_id: i64,
    pub book_name: String,
    pub chapter: u32,
    pub scheduled_date: Option<String>,
    pub completed: bool,
}

/// The view of a [`ReadingPlanEntry`].
pub struct PlanEntryView {
    pub id: i64,
    pub plan_id: i64,
    pub book_name: Seq<char>,
    pub chapter: u32,
    pub scheduled_date: Option<Seq<char>>,
    pub completed: bool,
}

impl View for ReadingPlanEntry {
    type V = PlanEntryView;

    open spec fn view(&self) -> PlanEntryView {
        PlanEntryView {
            id: self.id,
            plan_id: self.plan_id,
            book_name: self.book_name@,
            chapter: self.chapter,
            scheduled_date: match self.scheduled_date {
                Some(d) => Some(d@),
                None => None,
            },
            completed: self.completed,
        }
    }
}

/// A verse being memorised, with its review record.
#[derive(Debug, Clone)]
pub struct MemoryCard {
    pub id: i64,
    pub book_id: String,
    pub book_name: String,
    pub chapter: u32,
    pub verse: u32,
    pub text: String,
    pub translation: String,
    pub successes: i64,
    pub failures: i64,
    pub next_review: Option<String>,
    pub last_reviewed: Option<String>,
}

/// A copy of `s` with the same characters.
pub fn copy_string(s: &String) -> (r: String)
    ensures
        r@ == s@,
{
    s.clone()
}

} // verus!
