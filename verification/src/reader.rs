//! The reader: the catalog of translations and books, the selected book and
//! chapter, the chapter shown, and the decisions around the background work
//! that loads them. Each operation is a transition of [`ReaderView`]; the
//! caller performs the lookups and fetches that an operation asks for and hands
//! back what they gave.
use crate::models::{copy_string, BibleBook, BookView, Chapter, ChapterView, Translation, TranslationView, Verse, VerseView};
use crate::settings::{Settings, SettingsView};
use crate::sort::views;
use crate::text::{decimal, owned, push_decimal, push_str, str_eq, trim, trimmed};
use vstd::prelude::*;

verus! {

/// The state of the reader.
pub struct Reader {
    pub settings: Settings,
    pub translations: Vec<Translation>,
    pub books: Vec<BibleBook>,
    pub selected_book_idx: usize,
    pub selected_chapter: u32,
    pub current_chapter: Option<Chapter>,
    pub catalog_loading: bool,
    pub catalog_error: Option<String>,
    pub chapter_loading: bool,
    pub book_downloading: bool,
    pub reader_status: String,
    /// The default translation as the settings form shows it.
    pub settings_translation_temp: String,
}

/// The view of a [`Reader`].
pub struct ReaderView {
    pub settings: SettingsView,
    pub translations: Seq<TranslationView>,
    pub books: Seq<BookView>,
    pub selected_book_idx: usize,
    pub selected_chapter: u32,
    pub current_chapter: Option<ChapterView>,
    pub catalog_loading: bool,
    pub catalog_error: Option<Seq<char>>,
    pub chapter_loading: bool,
    pub book_downloading: bool,
    pub reader_status: Seq<char>,
    pub settings_translation_temp: Seq<char>,
}

/// The view of an optional chapter.
pub open spec fn chapter_opt_view(c: Option<Chapter>) -> Option<ChapterView> {
    match c {
        Some(ch) => Some(ch@),
        None => None,
    }
}

/// The view of an optional string.
pub open spec fn string_opt_view(s: Option<String>) -> Option<Seq<char>> {
    match s {
        Some(t) => Some(t@),
        None => None,
    }
}

impl View for Reader {
    type V = ReaderView;

    open spec fn view(&self) -> ReaderView {
        ReaderView {
            settings: self.settings@,
            translations: views(self.translations@),
            books: views(self.books@),
            selected_book_idx: self.selected_book_idx,
            selected_chapter: self.selected_chapter,
            current_chapter: chapter_opt_view(self.current_chapter),
            catalog_loading: self.catalog_loading,
            catalog_error: string_opt_view(self.catalog_error),
            chapter_loading: self.chapter_loading,
            book_downloading: self.book_downloading,
            reader_status: self.reader_status@,
            settings_translation_temp: self.settings_translation_temp@,
        }
    }
}

/// What is needed to look up or fetch one chapter.
pub struct ChapterRequest {
    pub book_nr: u32,
    pub book_name: String,
    pub chapter: u32,
    pub translation: String,
}

// ───────────────────────────── transitions ─────────────────────────────

/// The state is sound: while there are books, one of them is selected.
pub open spec fn reader_wf(s: ReaderView) -> bool {
    s.books.len() > 0 ==> s.selected_book_idx < s.books.len()
}

/// The state at start: loading the catalog exactly when the cached
/// translations or books are missing.
pub open spec fn reader_initial(
    settings: SettingsView,
    translations: Seq<TranslationView>,
    books: Seq<BookView>,
) -> ReaderView {
    ReaderView {
        settings,
        translations,
        books,
        selected_book_idx: 0,
        selected_chapter: 1,
        current_chapter: None,
        catalog_loading: translations.len() == 0 || books.len() == 0,
        catalog_error: None,
        chapter_loading: false,
        book_downloading: false,
        reader_status: Seq::empty(),
        settings_translation_temp: settings.default_translation,
    }
}

/// Whether some translation of `ts` has the identifier `id`.
pub open spec fn has_translation(ts: Seq<TranslationView>, id: Seq<char>) -> bool {
    exists|i: int| 0 <= i < ts.len() && #[trigger] ts[i].id == id
}

/// The state after the catalog fetch answered. A non-empty translation list
/// replaces the old one, and when it lacks the default translation its first
/// translation becomes the default; a non-empty book list replaces the old one
/// and selects its first book at chapter 1. A failure is kept as the error.
pub open spec fn catalog_received(
    s: ReaderView,
    result: Result<(Seq<TranslationView>, Seq<BookView>), Seq<char>>,
) -> ReaderView {
    match result {
        Ok((ts, bs)) => {
            let s1 = ReaderView { catalog_loading: false, catalog_error: None, ..s };
            let s2 = if ts.len() == 0 {
                s1
            } else if has_translation(ts, s.settings.default_translation) {
                ReaderView { translations: ts, ..s1 }
            } else {
                ReaderView {
                    translations: ts,
                    settings: SettingsView { default_translation: ts[0].id, ..s.settings },
                    settings_translation_temp: ts[0].id,
                    ..s1
                }
            };
            if bs.len() == 0 {
                s2
            } else {
                ReaderView { books: bs, selected_book_idx: 0, selected_chapter: 1, ..s2 }
            }
        },
        Err(e) => ReaderView { catalog_loading: false, catalog_error: Some(e), ..s },
    }
}

/// The state after the cached book list of the default translation was looked
/// up, and whether the list must be fetched: a non-empty cached list is taken
/// (first book, chapter 1); otherwise a fetch starts unless one is under way.
pub open spec fn books_looked_up(s: ReaderView, cached: Seq<BookView>) -> (ReaderView, bool) {
    if cached.len() > 0 {
        (ReaderView { books: cached, selected_book_idx: 0, selected_chapter: 1, ..s }, false)
    } else if s.catalog_loading {
        (s, false)
    } else {
        (ReaderView { catalog_loading: true, ..s }, true)
    }
}

/// The reference of a chapter: the book's name, a space and the number.
pub open spec fn reference_of(book_name: Seq<char>, chapter: u32) -> Seq<char> {
    book_name + " "@ + decimal(chapter as nat)
}

/// The state after the cache was asked for the selected chapter, and whether
/// the chapter must be fetched. Cached verses are shown as the chapter (and
/// the largest cached chapter number becomes the book's chapter count while
/// that is unknown); without them the fetch starts.
pub open spec fn chapter_looked_up(s: ReaderView, cached: Seq<VerseView>, max_chapter: Option<u32>) -> (
    ReaderView,
    bool,
) {
    let b = s.books[s.selected_book_idx as int];
    if cached.len() > 0 {
        let books = match max_chapter {
            Some(m) => if b.chapters == 0 && m > 0 {
                s.books.update(s.selected_book_idx as int, BookView { chapters: m, ..b })
            } else {
                s.books
            },
            None => s.books,
        };
        (
            ReaderView {
                current_chapter: Some(
                    ChapterView {
                        reference: reference_of(b.name, s.selected_chapter),
                        book_name: b.name,
                        chapter_num: s.selected_chapter,
                        verses: cached,
                        translation: s.settings.default_translation,
                    },
                ),
                books,
                reader_status: Seq::empty(),
                ..s
            },
            false,
        )
    } else {
        (ReaderView { chapter_loading: true, reader_status: "Loading from API..."@, ..s }, true)
    }
}

/// Law: a chapter shown from the cache carries the same reference as the same
/// chapter made from the book the service sent, and that reference, parsed
/// back after the book's name and a space, gives the chapter number.
pub proof fn lemma_reference_agrees(content: crate::api::BookContent, ch: crate::api::ChapterEntry)
    ensures
        crate::api::chapter_view_of(content, ch).reference == reference_of(content.name@, ch.chapter),
        crate::text::parse_u32_spec(
            reference_of(content.name@, ch.chapter).skip(content.name@.len() + 1int),
        ) == Some(ch.chapter),
{
    let r = reference_of(content.name@, ch.chapter);
    assert(r.skip(content.name@.len() + 1int) =~= decimal(ch.chapter as nat)) by {
        reveal_strlit(" ");
    }
    crate::text::lemma_parse_decimal(ch.chapter);
}

/// The state after the chapter fetch answered: the chapter is shown and, when
/// the book's chapter count came with it, that count is recorded (and handed
/// back with the translation and book number, to be stored); a failure is
/// shown as the status.
pub open spec fn chapter_received(s: ReaderView, result: Result<(ChapterView, u32), Seq<char>>) -> (
    ReaderView,
    Option<(Seq<char>, u32, u32)>,
) {
    match result {
        Ok((c, total)) => {
            let s1 = ReaderView {
                chapter_loading: false,
                reader_status: Seq::empty(),
                current_chapter: Some(c),
                ..s
            };
            if total > 0 && s.selected_book_idx < s.books.len() {
                let b = s.books[s.selected_book_idx as int];
                (
                    ReaderView {
                        books: s.books.update(
                            s.selected_book_idx as int,
                            BookView { chapters: total, ..b },
                        ),
                        ..s1
                    },
                    Some((c.translation, b.book_nr, total)),
                )
            } else {
                (s1, None)
            }
        },
        Err(e) => (
            ReaderView { chapter_loading: false, reader_status: "Error: "@ + e, ..s },
            None,
        ),
    }
}

/// The state after the book download answered.
pub open spec fn download_received(s: ReaderView, result: Result<usize, Seq<char>>, done_label: Seq<
    char,
>) -> ReaderView {
    match result {
        Ok(count) => ReaderView {
            book_downloading: false,
            reader_status: done_label + " ("@ + decimal(count as nat) + " verses)"@,
            ..s
        },
        Err(e) => ReaderView {
            book_downloading: false,
            reader_status: "Download error: "@ + e,
            ..s
        },
    }
}

/// The chapter count of the selected book, 0 while unknown.
pub open spec fn max_chapter_of(s: ReaderView) -> u32 {
    s.books[s.selected_book_idx as int].chapters
}

/// The view of a catalog answer.
pub open spec fn catalog_result_view(r: Result<(Vec<Translation>, Vec<BibleBook>), String>) -> Result<
    (Seq<TranslationView>, Seq<BookView>),
    Seq<char>,
> {
    match r {
        Ok((ts, bs)) => Ok((views(ts@), views(bs@))),
        Err(e) => Err(e@),
    }
}

/// The view of a chapter answer.
pub open spec fn chapter_result_view(r: Result<(Chapter, u32), String>) -> Result<
    (ChapterView, u32),
    Seq<char>,
> {
    match r {
        Ok((c, total)) => Ok((c@, total)),
        Err(e) => Err(e@),
    }
}

/// The view of a download answer.
pub open spec fn download_result_view(r: Result<usize, String>) -> Result<usize, Seq<char>> {
    match r {
        Ok(n) => Ok(n),
        Err(e) => Err(e@),
    }
}

/// The view of an optional result triple of strings and numbers.
pub open spec fn store_action_view(a: Option<(String, u32, u32)>) -> Option<(Seq<char>, u32, u32)> {
    match a {
        Some((t, b, n)) => Some((t@, b, n)),
        None => None,
    }
}

// ───────────────────────────── operations ─────────────────────────────

/// A copy of a book with the same view.
fn copy_book(b: &BibleBook) -> (r: BibleBook)
    ensures
        r@ == b@,
{
    BibleBook { id: copy_string(&b.id), book_nr: b.book_nr, name: copy_string(&b.name), chapters: b.chapters }
}

impl Reader {
    /// The reader at start, with the settings and the cached catalog.
    pub fn new(settings: Settings, translations: Vec<Translation>, books: Vec<BibleBook>) -> (r: Reader)
        ensures
            r@ == reader_initial(settings@, views(translations@), views(books@)),
            reader_wf(r@),
    {
        let needs_catalog = translations.len() == 0 || books.len() == 0;
        let temp = copy_string(&settings.default_translation);
        Reader {
            settings,
            translations,
            books,
            selected_book_idx: 0,
            selected_chapter: 1,
            current_chapter: None,
            catalog_loading: needs_catalog,
            catalog_error: None,
            chapter_loading: false,
            book_downloading: false,
            reader_status: String::new(),
            settings_translation_temp: temp,
        }
    }

    /// Takes in the answer of the catalog fetch.
    pub fn receive_catalog(&mut self, result: Result<(Vec<Translation>, Vec<BibleBook>), String>)
        requires
            reader_wf(old(self)@),
        ensures
            final(self)@ == catalog_received(old(self)@, catalog_result_view(result)),
            reader_wf(final(self)@),
            result is Ok && result->Ok_0.0.len() > 0 ==> has_translation(
                final(self)@.translations,
                final(self)@.settings.default_translation,
            ),
    {
        let ghost s = self@;
        self.catalog_loading = false;
        match result {
            Ok((translations, books)) => {
                self.catalog_error = None;
                if translations.len() > 0 {
                    let n = translations.len();
                    let mut found = false;
                    let mut i: usize = 0;
                    while i < n && !found
                        invariant
                            n == translations@.len(),
                            i <= n,
                            found ==> has_translation(
                                views(translations@),
                                self.settings.default_translation@,
                            ),
                            !found ==> forall|k: int|
                                0 <= k < i ==> translations@[k].id@
                                    != self.settings.default_translation@,
                        decreases n - i + if found { 0int } else { 1 },
                    {
                        if str_eq(translations[i].id.as_str(), self.settings.default_translation.as_str()) {
                            assert(views(translations@)[i as int].id == translations@[i as int].id@);
                            found = true;
                        } else {
                            i = i + 1;
                        }
                    }
                    if !found {
                        assert(!has_translation(views(translations@), s.settings.default_translation)) by {
                            assert forall|k: int| 0 <= k < n implies #[trigger] views(translations@)[k].id
                                != s.settings.default_translation by {
                                assert(views(translations@)[k].id == translations@[k].id@);
                            }
                        }
                        self.settings.default_translation = copy_string(&translations[0].id);
                        self.settings_translation_temp = copy_string(&translations[0].id);
                        assert(has_translation(views(translations@), self.settings.default_translation@));
                    }
                    self.translations = translations;
                }
                if books.len() > 0 {
                    self.books = books;
                    self.selected_book_idx = 0;
                    self.selected_chapter = 1;
                }
            },
            Err(e) => {
                self.catalog_error = Some(e);
            },
        }
    }

    /// Takes the cached book list of the default translation when there is
    /// one; returns whether the list must be fetched.
    pub fn books_looked_up(&mut self, cached: Vec<BibleBook>) -> (fetch: bool)
        requires
            reader_wf(old(self)@),
        ensures
            (final(self)@, fetch) == books_looked_up(old(self)@, views(cached@)),
            reader_wf(final(self)@),
    {
        if cached.len() > 0 {
            self.books = cached;
            self.selected_book_idx = 0;
            self.selected_chapter = 1;
            false
        } else if self.catalog_loading {
            false
        } else {
            self.catalog_loading = true;
            true
        }
    }

    /// What the selected chapter is looked up and fetched by; nothing while a
    /// chapter is loading or no book is listed.
    pub fn chapter_request(&self) -> (r: Option<ChapterRequest>)
        requires
            reader_wf(self@),
        ensures
            match r {
                None => self.chapter_loading || self.books@.len() == 0,
                Some(q) => {
                    &&& !self.chapter_loading
                    &&& self.books@.len() > 0
                    &&& q.book_nr == self.books@[self.selected_book_idx as int].book_nr
                    &&& q.book_name@ == self.books@[self.selected_book_idx as int].name@
                    &&& q.chapter == self.selected_chapter
                    &&& q.translation@ == self.settings.default_translation@
                },
            },
    {
        if self.chapter_loading || self.books.len() == 0 {
            return None;
        }
        let b = &self.books[self.selected_book_idx];
        Some(
            ChapterRequest {
                book_nr: b.book_nr,
                book_name: copy_string(&b.name),
                chapter: self.selected_chapter,
                translation: copy_string(&self.settings.default_translation),
            },
        )
    }

    /// Whether the selected book's chapter count is still unknown.
    pub fn chapter_count_unknown(&self) -> (r: bool)
        requires
            reader_wf(self@),
            self.books@.len() > 0,
        ensures
            r == (self.books@[self.selected_book_idx as int].chapters == 0),
    {
        self.books[self.selected_book_idx].chapters == 0
    }

    /// Shows the selected chapter from the cached verses when there are any,
    /// taking `max_chapter` as the book's chapter count while that is unknown;
    /// returns whether the chapter must be fetched instead.
    pub fn chapter_looked_up(&mut self, cached: Vec<Verse>, max_chapter: Option<u32>) -> (fetch: bool)
        requires
            reader_wf(old(self)@),
            old(self)@.books.len() > 0,
        ensures
            (final(self)@, fetch) == chapter_looked_up(old(self)@, views(cached@), max_chapter),
            reader_wf(final(self)@),
    {
        let ghost s = self@;
        if cached.len() > 0 {
            let idx = self.selected_book_idx;
            let chapter = self.selected_chapter;
            let b = copy_book(&self.books[idx]);
            let mut reference = copy_string(&b.name);
            push_str(&mut reference, " ");
            push_decimal(&mut reference, chapter as u64);
            self.current_chapter = Some(
                Chapter {
                    reference,
                    book_name: copy_string(&b.name),
                    chapter_num: chapter,
                    verses: cached,
                    translation: copy_string(&self.settings.default_translation),
                },
            );
            if b.chapters == 0 {
                if let Some(m) = max_chapter {
                    if m > 0 {
                        let nb = BibleBook { chapters: m, ..b };
                        let ghost before = self.books@;
                        self.books.set(idx, nb);
                        assert(views(self.books@) =~= views(before).update(idx as int, nb@));
                    }
                }
            }
            self.reader_status = String::new();
            false
        } else {
            self.chapter_loading = true;
            self.reader_status = owned("Loading from API...");
            true
        }
    }

    /// Takes in the answer of the chapter fetch; returns the translation, book
    /// number and chapter count to store when the count came with it.
    pub fn receive_chapter(&mut self, result: Result<(Chapter, u32), String>) -> (store: Option<
        (String, u32, u32),
    >)
        requires
            reader_wf(old(self)@),
        ensures
            (final(self)@, store_action_view(store)) == chapter_received(
                old(self)@,
                chapter_result_view(result),
            ),
            reader_wf(final(self)@),
    {
        self.chapter_loading = false;
        match result {
            Ok((chapter, total)) => {
                self.reader_status = String::new();
                let mut store = None;
                if total > 0 && self.selected_book_idx < self.books.len() {
                    let idx = self.selected_book_idx;
                    let b = copy_book(&self.books[idx]);
                    let book_nr = b.book_nr;
                    let nb = BibleBook { chapters: total, ..b };
                    let ghost before = self.books@;
                    self.books.set(idx, nb);
                    assert(views(self.books@) =~= views(before).update(idx as int, nb@));
                    store = Some((copy_string(&chapter.translation), book_nr, total));
                }
                self.current_chapter = Some(chapter);
                store
            },
            Err(e) => {
                let mut status = owned("Error: ");
                push_str(&mut status, e.as_str());
                self.reader_status = status;
                None
            },
        }
    }

    /// Starts the download of the selected book, showing `label` as the
    /// status; returns the translation and book number to download, or nothing
    /// while a download is under way or no book is listed.
    pub fn begin_book_download(&mut self, label: &str) -> (r: Option<(String, u32)>)
        requires
            reader_wf(old(self)@),
        ensures
            reader_wf(final(self)@),
            match r {
                None => {
                    &&& old(self).book_downloading || old(self)@.books.len() == 0
                    &&& final(self)@ == old(self)@
                },
                Some((t, nr)) => {
                    &&& !old(self).book_downloading
                    &&& old(self)@.books.len() > 0
                    &&& t@ == old(self)@.settings.default_translation
                    &&& nr == old(self)@.books[old(self).selected_book_idx as int].book_nr
                    &&& final(self)@ == (ReaderView {
                        book_downloading: true,
                        reader_status: label@,
                        ..old(self)@
                    })
                },
            },
    {
        if self.book_downloading || self.books.len() == 0 {
            return None;
        }
        let book_nr = self.books[self.selected_book_idx].book_nr;
        self.book_downloading = true;
        self.reader_status = owned(label);
        Some((copy_string(&self.settings.default_translation), book_nr))
    }

    /// Takes in the answer of the book download; `done_label` starts the
    /// status of a finished download.
    pub fn receive_download(&mut self, result: Result<usize, String>, done_label: &str)
        requires
            reader_wf(old(self)@),
        ensures
            final(self)@ == download_received(
                old(self)@,
                download_result_view(result),
                done_label@,
            ),
            reader_wf(final(self)@),
    {
        self.book_downloading = false;
        match result {
            Ok(count) => {
                let mut status = owned(done_label);
                push_str(&mut status, " (");
                push_decimal(&mut status, count as u64);
                push_str(&mut status, " verses)");
                self.reader_status = status;
            },
            Err(e) => {
                let mut status = owned("Download error: ");
                push_str(&mut status, e.as_str());
                self.reader_status = status;
            },
        }
    }

    /// Selects book `i` at chapter 1 unless it is selected already; returns
    /// whether the selection changed.
    pub fn select_book(&mut self, i: usize) -> (changed: bool)
        requires
            reader_wf(old(self)@),
            i < old(self)@.books.len(),
        ensures
            changed == (i != old(self).selected_book_idx),
            final(self)@ == (if changed {
                ReaderView { selected_book_idx: i, selected_chapter: 1, ..old(self)@ }
            } else {
                old(self)@
            }),
            reader_wf(final(self)@),
    {
        if self.selected_book_idx != i {
            self.selected_book_idx = i;
            self.selected_chapter = 1;
            true
        } else {
            false
        }
    }

    /// The chapter count of the selected book, 0 while unknown.
    pub fn max_chapter(&self) -> (r: u32)
        requires
            reader_wf(self@),
            self@.books.len() > 0,
        ensures
            r == max_chapter_of(self@),
    {
        self.books[self.selected_book_idx].chapters
    }

    /// The last chapter the chapter menu offers: the chapter count, or the
    /// selected chapter while the count is unknown.
    pub fn chapter_choices(&self) -> (r: u32)
        requires
            reader_wf(self@),
            self@.books.len() > 0,
        ensures
            r == if max_chapter_of(self@) > 0 {
                max_chapter_of(self@)
            } else {
                self.selected_chapter
            },
    {
        let max = self.max_chapter();
        if max > 0 {
            max
        } else {
            self.selected_chapter
        }
    }

    /// Whether there is a chapter before the selected one.
    pub fn can_go_previous(&self) -> (r: bool)
        ensures
            r == (self.selected_chapter > 1),
    {
        self.selected_chapter > 1
    }

    /// Whether a chapter may follow the selected one: while the count is
    /// unknown, or before the last chapter.
    pub fn can_go_next(&self) -> (r: bool)
        requires
            reader_wf(self@),
            self@.books.len() > 0,
        ensures
            r == (max_chapter_of(self@) == 0 || self.selected_chapter < max_chapter_of(self@)),
    {
        let max = self.max_chapter();
        max == 0 || self.selected_chapter < max
    }

    /// Selects the previous chapter.
    pub fn go_previous(&mut self)
        requires
            old(self).selected_chapter > 1,
        ensures
            final(self)@ == (ReaderView {
                selected_chapter: (old(self).selected_chapter - 1) as u32,
                ..old(self)@
            }),
    {
        self.selected_chapter = self.selected_chapter - 1;
    }

    /// Selects the next chapter.
    pub fn go_next(&mut self)
        requires
            old(self).selected_chapter < u32::MAX,
        ensures
            final(self)@ == (ReaderView {
                selected_chapter: (old(self).selected_chapter + 1) as u32,
                ..old(self)@
            }),
    {
        self.selected_chapter = self.selected_chapter + 1;
    }

    /// Makes `id` the default translation and drops the chapter shown.
    pub fn change_translation(&mut self, id: String)
        ensures
            final(self)@ == (ReaderView {
                settings: SettingsView { default_translation: id@, ..old(self)@.settings },
                current_chapter: None,
                ..old(self)@
            }),
    {
        self.settings.default_translation = id;
        self.current_chapter = None;
    }
}

/// One step of moving through the books and chapters.
#[derive(PartialEq, Eq, Structural, Clone, Copy, Debug)]
pub enum NavStep {
    /// A book picked from the book menu.
    SelectBook(usize),
    /// A chapter picked from the chapter menu.
    ChooseChapter(u32),
    /// The previous-chapter button.
    Previous,
    /// The next-chapter button.
    Next,
}

/// The last chapter the chapter menu offers in state `s`.
pub open spec fn chapter_choices_of(s: ReaderView) -> u32 {
    if max_chapter_of(s) > 0 {
        max_chapter_of(s)
    } else {
        s.selected_chapter
    }
}

/// Whether a step is offered in state `s`: a listed book, a chapter the menu
/// lists, Previous after chapter 1, Next while the count is unknown or before
/// the last chapter.
pub open spec fn step_offered(s: ReaderView, step: NavStep) -> bool {
    match step {
        NavStep::SelectBook(i) => i < s.books.len(),
        NavStep::ChooseChapter(c) => 1 <= c <= chapter_choices_of(s),
        NavStep::Previous => s.selected_chapter > 1,
        NavStep::Next => max_chapter_of(s) == 0 || s.selected_chapter < max_chapter_of(s),
    }
}

/// The state after a step; a step not offered changes nothing. Picking
/// another book selects its chapter 1; Previous and Next move by one chapter.
pub open spec fn navigated(s: ReaderView, step: NavStep) -> ReaderView {
    if !step_offered(s, step) {
        s
    } else {
        match step {
            NavStep::SelectBook(i) => if i != s.selected_book_idx {
                ReaderView { selected_book_idx: i, selected_chapter: 1, ..s }
            } else {
                s
            },
            NavStep::ChooseChapter(c) => ReaderView { selected_chapter: c, ..s },
            NavStep::Previous => ReaderView { selected_chapter: (s.selected_chapter - 1) as u32, ..s },
            NavStep::Next => ReaderView { selected_chapter: (s.selected_chapter + 1) as u32, ..s },
        }
    }
}

/// Whether Next, where offered, can still count up from the selected chapter.
pub open spec fn step_fits(s: ReaderView, step: NavStep) -> bool {
    step == NavStep::Next && step_offered(s, step) ==> s.selected_chapter < u32::MAX
}

/// The state after the steps `steps`, in order.
pub open spec fn navigated_all(s: ReaderView, steps: Seq<NavStep>) -> ReaderView
    decreases steps.len(),
{
    if steps.len() == 0 {
        s
    } else {
        navigated_all(navigated(s, steps[0]), steps.drop_first())
    }
}

/// Whether every step of `steps` fits in the state it is taken in.
pub open spec fn steps_fit(s: ReaderView, steps: Seq<NavStep>) -> bool
    decreases steps.len(),
{
    steps.len() == 0 || (step_fits(s, steps[0]) && steps_fit(
        navigated(s, steps[0]),
        steps.drop_first(),
    ))
}

/// Whether a book is selected and its selected chapter is at least 1 and, when
/// the book's chapter count is known, at most that count.
pub open spec fn chapter_in_range(s: ReaderView) -> bool {
    &&& s.books.len() > 0
    &&& s.selected_book_idx < s.books.len()
    &&& s.selected_chapter >= 1
    &&& max_chapter_of(s) == 0 || s.selected_chapter <= max_chapter_of(s)
}

/// Law: moving through books and chapters keeps a book selected and its
/// chapter at least 1 and within the book's known chapter count, whatever steps
/// are taken.
pub proof fn lemma_navigation_keeps_chapter_in_range(s: ReaderView, steps: Seq<NavStep>)
    requires
        chapter_in_range(s),
        steps_fit(s, steps),
    ensures
        chapter_in_range(navigated_all(s, steps)),
    decreases steps.len(),
{
    if steps.len() > 0 {
        let t = navigated(s, steps[0]);
        assert(chapter_in_range(t));
        lemma_navigation_keeps_chapter_in_range(t, steps.drop_first());
    }
}

impl Reader {
    /// Takes one navigation step when it is offered; returns whether the
    /// selected book or chapter changed, that is, whether the chapter must be
    /// loaded.
    pub fn navigate(&mut self, step: NavStep) -> (changed: bool)
        requires
            reader_wf(old(self)@),
            old(self)@.books.len() > 0,
            step_fits(old(self)@, step),
        ensures
            final(self)@ == navigated(old(self)@, step),
            changed == (final(self).selected_book_idx != old(self).selected_book_idx
                || final(self).selected_chapter != old(self).selected_chapter),
            reader_wf(final(self)@),
    {
        match step {
            NavStep::SelectBook(i) => {
                if i < self.books.len() {
                    self.select_book(i)
                } else {
                    false
                }
            },
            NavStep::ChooseChapter(c) => {
                if 1 <= c && c <= self.chapter_choices() {
                    let changed = c != self.selected_chapter;
                    self.selected_chapter = c;
                    changed
                } else {
                    false
                }
            },
            NavStep::Previous => {
                if self.can_go_previous() {
                    self.go_previous();
                    true
                } else {
                    false
                }
            },
            NavStep::Next => {
                if self.can_go_next() {
                    self.go_next();
                    true
                } else {
                    false
                }
            },
        }
    }
}

impl Reader {
    /// Saves the settings form: the chosen language and theme, and the
    /// default translation chosen in the form.
    pub fn apply_settings_form(&mut self, language: crate::settings::Language, dark_mode: bool)
        requires
            reader_wf(old(self)@),
        ensures
            final(self)@ == (ReaderView {
                settings: SettingsView {
                    language,
                    default_translation: old(self)@.settings_translation_temp,
                    dark_mode,
                },
                ..old(self)@
            }),
            reader_wf(final(self)@),
    {
        self.settings.language = language;
        self.settings.default_translation = copy_string(&self.settings_translation_temp);
        self.settings.dark_mode = dark_mode;
    }
}

/// The position of the first translation of `ts` with identifier `id`.
pub open spec fn first_with_id(ts: Seq<TranslationView>, id: Seq<char>) -> Option<int>
    decreases ts.len(),
{
    if ts.len() == 0 {
        None
    } else if ts[0].id == id {
        Some(0)
    } else {
        match first_with_id(ts.drop_first(), id) {
            Some(i) => Some(i + 1),
            None => None,
        }
    }
}

/// The name shown for translation `id`: that of the first translation with
/// that identifier, or the identifier itself.
pub open spec fn translation_name_spec(ts: Seq<TranslationView>, id: Seq<char>) -> Seq<char> {
    match first_with_id(ts, id) {
        Some(i) => ts[i].name,
        None => id,
    }
}

/// The name shown for translation `id`.
pub fn translation_name(translations: &Vec<Translation>, id: &str) -> (r: String)
    ensures
        r@ == translation_name_spec(views(translations@), id@),
{
    let n = translations.len();
    let ghost ts = views(translations@);
    let mut i: usize = 0;
    assert(ts.skip(0) =~= ts);
    while i < n
        invariant
            n == translations@.len(),
            ts == views(translations@),
            i <= n,
            first_with_id(ts, id@) == match first_with_id(ts.skip(i as int), id@) {
                Some(k) => Some(k + i),
                None => None,
            },
        decreases n - i,
    {
        assert(ts.skip(i as int)[0] == ts[i as int]);
        if str_eq(translations[i].id.as_str(), id) {
            return copy_string(&translations[i].name);
        }
        assert(ts.skip(i as int).drop_first() =~= ts.skip(i + 1));
        i = i + 1;
    }
    assert(ts.skip(n as int) =~= Seq::<TranslationView>::empty());
    owned(id)
}

/// The heading of a chapter: its reference and, in brackets, its
/// translation's name.
pub fn chapter_heading(chapter: &Chapter, translations: &Vec<Translation>) -> (r: String)
    ensures
        r@ == chapter.reference@ + " ("@ + translation_name_spec(
            views(translations@),
            chapter.translation@,
        ) + ")"@,
{
    let mut r = copy_string(&chapter.reference);
    push_str(&mut r, " (");
    let name = translation_name(translations, chapter.translation.as_str());
    push_str(&mut r, name.as_str());
    push_str(&mut r, ")");
    r
}

/// What a search asks the cache for: the query without surrounding
/// whitespace and, unless the filter is `all`, the translation to search in;
/// nothing for an empty query.
pub fn search_request(query: &str, filter: &str) -> (r: Option<(String, Option<String>)>)
    ensures
        match r {
            None => trimmed(query@).len() == 0,
            Some((q, t)) => {
                &&& trimmed(query@).len() > 0
                &&& q@ == trimmed(query@)
                &&& if filter@ == "all"@ {
                    t is None
                } else {
                    t matches Some(f) && f@ == filter@
                }
            },
        },
{
    let q = trim(query);
    if q.as_str().unicode_len() == 0 {
        return None;
    }
    let t = if str_eq(filter, "all") {
        None
    } else {
        Some(owned(filter))
    };
    Some((q, t))
}

/// The pattern that matches a verse whose text contains `query` anywhere.
pub fn like_pattern(query: &str) -> (r: String)
    ensures
        r@ == "%"@ + query@ + "%"@,
{
    let mut r = owned("%");
    push_str(&mut r, query);
    push_str(&mut r, "%");
    r
}

/// Whether `r` splits the first `end` translations of `ts` into runs of the
/// same language: consecutive non-empty `[start, end)` ranges that cover them
/// in order, each of one language, neighbours of different languages.
pub open spec fn language_runs(ts: Seq<TranslationView>, r: Seq<(usize, usize)>, end: int) -> bool {
    &&& (r.len() == 0 <==> end == 0)
    &&& r.len() > 0 ==> r[0].0 == 0 && r.last().1 == end
    &&& forall|k: int| 0 <= k < r.len() ==> #[trigger] r[k].0 < r[k].1
    &&& forall|k: int| 0 <= k < r.len() - 1 ==> #[trigger] r[k].1 == r[k + 1].0
    &&& forall|k: int, i: int|
        0 <= k < r.len() && r[k].0 <= i < r[k].1 ==> #[trigger] ts[i].language == ts[(
        #[trigger] r[k]).0 as int].language
    &&& forall|k: int|
        0 <= k < r.len() - 1 ==> ts[(#[trigger] r[k + 1]).0 as int].language != ts[r[k].0 as int].language
}

/// Adding a run of one language after runs that end where it starts, and whose
/// last run has another language, gives runs again.
proof fn lemma_language_runs_extend(ts: Seq<TranslationView>, r: Seq<(usize, usize)>, start: usize, end: usize)
    requires
        language_runs(ts, r, start as int),
        r.len() > 0 ==> ts[start as int].language != ts[r.last().0 as int].language,
        start < end <= ts.len(),
        forall|j: int| start <= j < end ==> #[trigger] ts[j].language == ts[start as int].language,
    ensures
        language_runs(ts, r.push((start, end)), end as int),
{
    let r2 = r.push((start, end));
    assert forall|k: int, j: int|
        0 <= k < r2.len() && r2[k].0 <= j < r2[k].1 implies #[trigger] ts[j].language == ts[(
        #[trigger] r2[k]).0 as int].language by {
        if k < r.len() {
            assert(r2[k] == r[k]);
        }
    }
    assert forall|k: int| 0 <= k < r2.len() - 1 implies ts[(#[trigger] r2[k + 1]).0 as int].language
        != ts[r2[k].0 as int].language by {
        assert(r2[k] == r[k]);
        if k < r.len() - 1 {
            assert(r2[k + 1] == r[k + 1]);
        }
    }
    assert forall|k: int| 0 <= k < r2.len() - 1 implies #[trigger] r2[k].1 == r2[k + 1].0 by {
        assert(r2[k] == r[k]);
        if k < r.len() - 1 {
            assert(r2[k + 1] == r[k + 1]);
        }
    }
    assert forall|k: int| 0 <= k < r2.len() implies #[trigger] r2[k].0 < r2[k].1 by {
        if k < r.len() {
            assert(r2[k] == r[k]);
        }
    }
}

/// The runs of consecutive translations with the same language, as
/// `[start, end)` ranges in order: the groups of the translation menu.
pub fn language_groups(translations: &Vec<Translation>) -> (r: Vec<(usize, usize)>)
    ensures
        language_runs(views(translations@), r@, translations@.len() as int),
{
    let n = translations.len();
    let ghost ts = views(translations@);
    let mut r: Vec<(usize, usize)> = Vec::new();
    let mut i: usize = 0;
    while i < n
        invariant
            n == translations@.len(),
            ts == views(translations@),
            i <= n,
            language_runs(ts, r@, i as int),
            r@.len() > 0 && i < n ==> ts[i as int].language != ts[r@.last().0 as int].language,
        decreases n - i,
    {
        let start = i;
        i = i + 1;
        while i < n && translations[i].language == translations[start].language
            invariant
                n == translations@.len(),
                ts == views(translations@),
                start < i <= n,
                forall|j: int| start <= j < i ==> #[trigger] ts[j].language == ts[start as int].language,
            decreases n - i,
        {
            assert(ts[i as int].language == translations@[i as int].language@);
            i = i + 1;
        }
        proof {
            assert(ts[start as int].language == translations@[start as int].language@);
            if i < n {
                assert(ts[i as int].language == translations@[i as int].language@);
            }
            lemma_language_runs_extend(ts, r@, start, i);
        }
        r.push((start, i));
    }
    r
}

} // verus!
