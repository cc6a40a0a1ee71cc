//! The catalog and text service: the addresses it is asked at, and what the
//! library makes of its answers once they are read into plain records: the
//! sorted translation list, the sorted book list, one chapter of a book with
//! the book's other verses, and all verses of a book.
use crate::models::{copy_string, BibleBook, BookView, Chapter, ChapterView, Translation, TranslationView, Verse, VerseView};
use crate::sort::{sort_stable, sorted_stable, views, lemma_sorted_stable_is_sorted, lemma_sorted_stable_permutes, lemma_views_append};
use crate::text::{bytes_le, bytes_lt};
use crate::text::{decimal, decimal_string, owned, push_decimal, push_str, trim, trimmed};
use vstd::prelude::*;
use vstd::string::StringSliceAdditionalSpecFns;
use vstd::utf8::*;

verus! {

broadcast use vstd::seq_lib::group_to_multiset_ensures;

/// The root address of the text service.
pub const BASE_URL: &'static str = "https://api.getbible.net/v2";

/// The most bytes of a response that an error message quotes.
pub const PREVIEW_BYTES: usize = 300;

/// One entry of the service's translation list: the fields that the library reads.
#[derive(Debug, Clone)]
pub struct TranslationEntry {
    /// The translation's full name.
    pub translation: String,
    /// Its short identifier.
    pub abbreviation: String,
    /// The language it is written in.
    pub language: String,
}

/// One entry of a translation's book list: its `nr` where that is a
/// non-negative integer, and its `name` where that is a string.
#[derive(Debug, Clone)]
pub struct BookEntry {
    pub nr: Option<u64>,
    pub name: Option<String>,
}

/// One verse of a chapter as the service sends it.
#[derive(Debug, Clone)]
pub struct VerseEntry {
    pub verse: u32,
    pub text: String,
}

/// One chapter of a book as the service sends it.
#[derive(Debug, Clone)]
pub struct ChapterEntry {
    pub chapter: u32,
    pub name: String,
    pub verses: Vec<VerseEntry>,
}

/// A whole book of one translation as the service sends it.
#[derive(Debug, Clone)]
pub struct BookContent {
    pub abbreviation: String,
    pub nr: u32,
    pub name: String,
    pub chapters: Vec<ChapterEntry>,
}

/// The client of the text service; the exchanges themselves are made by the
/// caller, which hands the answers to the functions here.
pub struct BibleClient;

// ───────────────────────────── specifications ─────────────────────────────

/// The translation that an entry of the translation list describes.
pub open spec fn translation_view_of(e: TranslationEntry) -> TranslationView {
    TranslationView { id: e.abbreviation@, name: e.translation@, language: e.language@ }
}

/// The translations that a translation list describes, in its order.
pub open spec fn translation_views(entries: Seq<TranslationEntry>) -> Seq<TranslationView> {
    entries.map_values(|e: TranslationEntry| translation_view_of(e))
}

/// The books that a book list describes, in its order: one for each entry that
/// has both a number and a name, numbered by the number's low 32 bits, with
/// that number in decimal as its id and an unknown chapter count.
pub open spec fn listed_books(entries: Seq<BookEntry>) -> Seq<BookView>
    decreases entries.len(),
{
    if entries.len() == 0 {
        Seq::empty()
    } else {
        let rest = listed_books(entries.drop_last());
        let e = entries.last();
        match (e.nr, e.name) {
            (Some(nr), Some(name)) => rest.push(
                BookView {
                    id: decimal((nr as u32) as nat),
                    book_nr: nr as u32,
                    name: name@,
                    chapters: 0,
                },
            ),
            _ => rest,
        }
    }
}

/// The verse that verse entry `v` of chapter `chapter` of book `content` becomes.
pub open spec fn verse_view_of(content: BookContent, chapter: u32, v: VerseEntry) -> VerseView {
    VerseView {
        book_id: decimal(content.nr as nat),
        book_name: content.name@,
        chapter: chapter,
        verse: v.verse,
        text: trimmed(v.text@),
        translation: content.abbreviation@,
    }
}

/// The verses of chapter entry `ch`, in the order the service sent them.
pub open spec fn entry_verse_views(content: BookContent, ch: ChapterEntry) -> Seq<VerseView> {
    ch.verses@.map_values(|v: VerseEntry| verse_view_of(content, ch.chapter, v))
}

/// The verses of chapter entry `ch`, sorted by verse number.
pub open spec fn chapter_verse_views(content: BookContent, ch: ChapterEntry) -> Seq<VerseView> {
    sorted_stable::<Verse>(entry_verse_views(content, ch))
}

/// The chapter that chapter entry `ch` of `content` becomes.
pub open spec fn chapter_view_of(content: BookContent, ch: ChapterEntry) -> ChapterView {
    ChapterView {
        reference: content.name@ + " "@ + decimal(ch.chapter as nat),
        book_name: content.name@,
        chapter_num: ch.chapter,
        verses: chapter_verse_views(content, ch),
        translation: content.abbreviation@,
    }
}

/// The position of the last chapter entry numbered `nr`, if there is one.
pub open spec fn last_match(chs: Seq<ChapterEntry>, nr: u32) -> Option<int>
    decreases chs.len(),
{
    if chs.len() == 0 {
        None
    } else if chs.last().chapter == nr {
        Some(chs.len() - 1)
    } else {
        last_match(chs.drop_last(), nr)
    }
}

/// The verses, each chapter sorted by verse number, of the chapter entries
/// that are not numbered `nr`, in chapter order.
pub open spec fn other_verse_views(content: BookContent, chs: Seq<ChapterEntry>, nr: u32) -> Seq<
    VerseView,
>
    decreases chs.len(),
{
    if chs.len() == 0 {
        Seq::empty()
    } else {
        other_verse_views(content, chs.drop_last(), nr) + if chs.last().chapter == nr {
            Seq::empty()
        } else {
            chapter_verse_views(content, chs.last())
        }
    }
}

/// The verses of the chapter entries numbered `nr`, as sent, in chapter order.
pub open spec fn matching_verse_views(content: BookContent, chs: Seq<ChapterEntry>, nr: u32) -> Seq<
    VerseView,
>
    decreases chs.len(),
{
    if chs.len() == 0 {
        Seq::empty()
    } else {
        matching_verse_views(content, chs.drop_last(), nr) + if chs.last().chapter == nr {
            entry_verse_views(content, chs.last())
        } else {
            Seq::empty()
        }
    }
}

/// All verses of the chapter entries `chs`, as sent, in chapter order.
pub open spec fn book_verse_views(content: BookContent, chs: Seq<ChapterEntry>) -> Seq<VerseView>
    decreases chs.len(),
{
    if chs.len() == 0 {
        Seq::empty()
    } else {
        book_verse_views(content, chs.drop_last()) + entry_verse_views(content, chs.last())
    }
}

/// The message for a chapter that a book does not have.
pub open spec fn not_found_message(nr: u32, book_name: Seq<char>, total: u32) -> Seq<char> {
    "Chapter "@ + decimal(nr as nat) + " not found in "@ + book_name + " (book has "@ + decimal(
        total as nat,
    ) + " chapters)"@
}

/// The characters whose UTF-8 encoding is the first `n` bytes of that of `s`.
pub open spec fn byte_prefix(s: Seq<char>, n: int) -> Seq<char> {
    decode_utf8(encode_utf8(s).subrange(0, n))
}

/// The largest character boundary of `bytes` at or before byte `n`.
pub open spec fn last_boundary(bytes: Seq<u8>, n: nat) -> nat
    decreases n,
{
    if n == 0 || is_char_boundary(bytes, n as int) {
        n
    } else {
        last_boundary(bytes, (n - 1) as nat)
    }
}

/// What an error message quotes of a response body: the body, or, when it is
/// longer than `PREVIEW_BYTES` bytes, its longest prefix of at most that many
/// bytes that ends between characters, and `...`.
pub open spec fn body_preview(body: Seq<char>) -> Seq<char> {
    if encode_utf8(body).len() > PREVIEW_BYTES {
        byte_prefix(body, last_boundary(encode_utf8(body), PREVIEW_BYTES as nat) as int) + "..."@
    } else {
        body
    }
}

/// The message for a response body that could not be read as expected.
pub open spec fn parse_error_message_spec(error: Seq<char>, body: Seq<char>) -> Seq<char> {
    "Parse error: "@ + error + " (response preview: "@ + body_preview(body) + ")"@
}

// ───────────────────────────── implementation ─────────────────────────────

impl BibleClient {
    /// The address of the translation list.
    pub fn translations_url() -> (r: String)
        ensures
            r@ == BASE_URL@ + "/translations.json"@,
    {
        let mut r = owned(BASE_URL);
        push_str(&mut r, "/translations.json");
        r
    }

    /// The address of the book list of translation `abbr`.
    pub fn books_url(abbr: &str) -> (r: String)
        ensures
            r@ == BASE_URL@ + "/"@ + abbr@ + "/books.json"@,
    {
        let mut r = owned(BASE_URL);
        push_str(&mut r, "/");
        push_str(&mut r, abbr);
        push_str(&mut r, "/books.json");
        r
    }

    /// The address of book `book_nr` of translation `abbr`, which holds the
    /// whole book.
    pub fn book_url(abbr: &str, book_nr: u32) -> (r: String)
        ensures
            r@ == BASE_URL@ + "/"@ + abbr@ + "/"@ + decimal(book_nr as nat) + ".json"@,
    {
        let mut r = owned(BASE_URL);
        push_str(&mut r, "/");
        push_str(&mut r, abbr);
        push_str(&mut r, "/");
        push_decimal(&mut r, book_nr as u64);
        push_str(&mut r, ".json");
        r
    }

    /// The message for a response body that could not be read: the reader's
    /// error and a preview of the body, cut between characters.
    pub fn parse_error_message(error: &str, body: &str) -> (r: String)
        ensures
            r@ == parse_error_message_spec(error@, body@),
    {
        let mut r = owned("Parse error: ");
        push_str(&mut r, error);
        push_str(&mut r, " (response preview: ");
        if body.as_bytes().len() > PREVIEW_BYTES {
            let ghost bytes = encode_utf8(body@);
            let mut k: usize = PREVIEW_BYTES;
            while k > 0 && !body.is_char_boundary(k)
                invariant
                    k <= PREVIEW_BYTES,
                    bytes == encode_utf8(body@),
                    bytes.len() > PREVIEW_BYTES,
                    last_boundary(bytes, PREVIEW_BYTES as nat) == last_boundary(bytes, k as nat),
                decreases k,
            {
                k = k - 1;
            }
            proof {
                vstd::utf8::encode_utf8_valid_utf8(body@);
                assert(last_boundary(bytes, k as nat) == k);
            }
            let (head, _) = body.split_at(k);
            proof {
                vstd::utf8::encode_utf8_decode_utf8(head@);
                assert(encode_utf8(head@) == bytes.subrange(0, k as int));
            }
            push_str(&mut r, head);
            push_str(&mut r, "...");
        } else {
            push_str(&mut r, body);
        }
        push_str(&mut r, ")");
        r
    }

    /// The translation list: one translation per entry, sorted by language and
    /// then by name, entries that tie keeping their order.
    pub fn translations_from_entries(entries: Vec<TranslationEntry>) -> (r: Vec<Translation>)
        ensures
            views(r@) == sorted_stable::<Translation>(translation_views(entries@)),
            forall|i: int, j: int|
                0 <= i < j < r@.len() ==> listed_before(#[trigger] r@[i]@, #[trigger] r@[j]@),
    {
        let mut list: Vec<Translation> = Vec::new();
        let n = entries.len();
        for i in 0..n
            invariant
                n == entries@.len(),
                views(list@) == translation_views(entries@.take(i as int)),
        {
            let e = &entries[i];
            let t = Translation {
                id: copy_string(&e.abbreviation),
                name: copy_string(&e.translation),
                language: copy_string(&e.language),
            };
            let ghost before = list@;
            list.push(t);
            assert(views(list@) =~= views(before).push(t@));
            assert(translation_views(entries@.take(i + 1)) =~= translation_views(
                entries@.take(i as int),
            ).push(translation_view_of(entries@[i as int])));
        }
        assert(entries@.take(n as int) =~= entries@);
        let r = sort_stable(list);
        proof {
            lemma_translations_ordered(entries@);
            assert forall|i: int, j: int| 0 <= i < j < r@.len() implies listed_before(
                #[trigger] r@[i]@,
                #[trigger] r@[j]@,
            ) by {
                assert(views(r@)[i] == r@[i]@);
                assert(views(r@)[j] == r@[j]@);
            }
        }
        r
    }

    /// The book list: a book for each entry with a number and a name, sorted
    /// by number, entries with the same number keeping their order.
    pub fn books_from_entries(entries: Vec<BookEntry>) -> (r: Vec<BibleBook>)
        ensures
            views(r@) == sorted_stable::<BibleBook>(listed_books(entries@)),
            forall|i: int, j: int| 0 <= i < j < r@.len() ==> r@[i].book_nr <= r@[j].book_nr,
    {
        let mut books: Vec<BibleBook> = Vec::new();
        let n = entries.len();
        for i in 0..n
            invariant
                n == entries@.len(),
                views(books@) == listed_books(entries@.take(i as int)),
        {
            let e = &entries[i];
            assert(entries@.take(i + 1).drop_last() =~= entries@.take(i as int));
            match (&e.nr, &e.name) {
                (Some(nr), Some(name)) => {
                    let book_nr = *nr as u32;
                    books.push(
                        BibleBook {
                            id: decimal_string(book_nr as u64),
                            book_nr,
                            name: copy_string(name),
                            chapters: 0,
                        },
                    );
                    assert(views(books@) =~= listed_books(entries@.take(i + 1)));
                },
                _ => {},
            }
        }
        assert(entries@.take(n as int) =~= entries@);
        let r = sort_stable(books);
        proof {
            lemma_books_ordered_by_number(entries@);
            assert forall|i: int, j: int| 0 <= i < j < r@.len() implies r@[i].book_nr
                <= r@[j].book_nr by {
                assert(views(r@)[i].book_nr == r@[i].book_nr);
                assert(views(r@)[j].book_nr == r@[j].book_nr);
            }
        }
        r
    }

    /// The verses of one chapter entry, in the order sent.
    fn entry_verses(content: &BookContent, book_id: &String, ch: &ChapterEntry) -> (r: Vec<Verse>)
        requires
            book_id@ == decimal(content.nr as nat),
        ensures
            views(r@) == entry_verse_views(*content, *ch),
    {
        let mut r: Vec<Verse> = Vec::new();
        let n = ch.verses.len();
        for j in 0..n
            invariant
                n == ch.verses@.len(),
                book_id@ == decimal(content.nr as nat),
                views(r@) == entry_verse_views(*content, *ch).take(j as int),
        {
            let v = &ch.verses[j];
            let verse = Verse {
                book_id: copy_string(book_id),
                book_name: copy_string(&content.name),
                chapter: ch.chapter,
                verse: v.verse,
                text: trim(v.text.as_str()),
                translation: copy_string(&content.abbreviation),
            };
            let ghost before = r@;
            r.push(verse);
            assert(views(r@) =~= views(before).push(verse@));
            assert(verse@ == verse_view_of(*content, ch.chapter, ch.verses@[j as int]));
            assert(entry_verse_views(*content, *ch).take(j + 1) =~= entry_verse_views(
                *content,
                *ch,
            ).take(j as int).push(verse@));
        }
        assert(entry_verse_views(*content, *ch).take(n as int) =~= entry_verse_views(
            *content,
            *ch,
        ));
        r
    }

    /// One chapter of a book the service sent whole: the last chapter entry
    /// numbered `chapter_nr` with its verses sorted by number, the verses of
    /// all chapters with another number, and the number of chapter entries.
    /// Without a chapter of that number, the message says so.
    pub fn chapter_from_book(content: &BookContent, chapter_nr: u32) -> (r: Result<
        (Chapter, Vec<Verse>, u32),
        String,
    >)
        ensures
            match r {
                Ok((chapter, others, total)) => {
                    &&& last_match(content.chapters@, chapter_nr) matches Some(k)
                    &&& chapter@ == chapter_view_of(*content, content.chapters@[k])
                    &&& forall|i: int, j: int|
                        0 <= i < j < chapter.verses@.len() ==> chapter.verses@[i].verse
                            <= chapter.verses@[j].verse
                    &&& views(others@) == other_verse_views(
                        *content,
                        content.chapters@,
                        chapter_nr,
                    )
                    &&& total == content.chapters@.len() as u32
                },
                Err(msg) => {
                    &&& last_match(content.chapters@, chapter_nr) is None
                    &&& msg@ == not_found_message(
                        chapter_nr,
                        content.name@,
                        content.chapters@.len() as u32,
                    )
                },
            },
    {
        let book_id = decimal_string(content.nr as u64);
        let n = content.chapters.len();
        let total = n as u32;
        let mut requested: Option<Chapter> = None;
        let mut others: Vec<Verse> = Vec::new();
        let ghost chs = content.chapters@;
        for i in 0..n
            invariant
                n == chs.len(),
                chs == content.chapters@,
                book_id@ == decimal(content.nr as nat),
                match requested {
                    Some(c) => {
                        &&& last_match(chs.take(i as int), chapter_nr) matches Some(k)
                        &&& c@ == chapter_view_of(*content, chs[k])
                    },
                    None => last_match(chs.take(i as int), chapter_nr) is None,
                },
                views(others@) == other_verse_views(*content, chs.take(i as int), chapter_nr),
        {
            let ch = &content.chapters[i];
            let ch_nr = ch.chapter;
            let verses = sort_stable(Self::entry_verses(content, &book_id, ch));
            assert(chs.take(i + 1).drop_last() =~= chs.take(i as int));
            assert(chs.take(i + 1).last() == chs[i as int]);
            if ch_nr == chapter_nr {
                let mut reference = copy_string(&content.name);
                push_str(&mut reference, " ");
                push_decimal(&mut reference, ch_nr as u64);
                requested = Some(
                    Chapter {
                        reference,
                        book_name: copy_string(&content.name),
                        chapter_num: ch_nr,
                        verses,
                        translation: copy_string(&content.abbreviation),
                    },
                );
                assert(other_verse_views(*content, chs.take(i + 1), chapter_nr) =~= other_verse_views(
                    *content,
                    chs.take(i as int),
                    chapter_nr,
                ));
            } else {
                let ghost before = others@;
                let ghost added = verses@;
                let mut verses = verses;
                others.append(&mut verses);
                proof {
                    lemma_views_append(before, added);
                }
                assert(views(others@) =~= other_verse_views(
                    *content,
                    chs.take(i + 1),
                    chapter_nr,
                ));
            }
        }
        assert(chs.take(n as int) =~= chs);
        match requested {
            Some(chapter) => {
                proof {
                    let k = last_match(chs, chapter_nr)->Some_0;
                    lemma_chapter_verses_ordered(*content, chs[k]);
                    assert forall|i: int, j: int| 0 <= i < j < chapter.verses@.len() implies chapter.verses@[i].verse
                        <= chapter.verses@[j].verse by {
                        assert(chapter@.verses[i].verse == chapter.verses@[i].verse);
                        assert(chapter@.verses[j].verse == chapter.verses@[j].verse);
                    }
                }
                Ok((chapter, others, total))
            },
            None => {
                let mut msg = owned("Chapter ");
                push_decimal(&mut msg, chapter_nr as u64);
                push_str(&mut msg, " not found in ");
                push_str(&mut msg, content.name.as_str());
                push_str(&mut msg, " (book has ");
                push_decimal(&mut msg, total as u64);
                push_str(&mut msg, " chapters)");
                Err(msg)
            },
        }
    }

    /// Every verse of a book the service sent whole, chapter after chapter,
    /// each chapter's verses in the order sent.
    pub fn book_verses(content: &BookContent) -> (r: Vec<Verse>)
        ensures
            views(r@) == book_verse_views(*content, content.chapters@),
    {
        let book_id = decimal_string(content.nr as u64);
        let n = content.chapters.len();
        let mut all: Vec<Verse> = Vec::new();
        let ghost chs = content.chapters@;
        for i in 0..n
            invariant
                n == chs.len(),
                chs == content.chapters@,
                book_id@ == decimal(content.nr as nat),
                views(all@) == book_verse_views(*content, chs.take(i as int)),
        {
            let mut verses = Self::entry_verses(content, &book_id, &content.chapters[i]);
            let ghost before = all@;
            let ghost added = verses@;
            all.append(&mut verses);
            proof {
                lemma_views_append(before, added);
                assert(chs.take(i + 1).drop_last() =~= chs.take(i as int));
            }
            assert(views(all@) =~= book_verse_views(*content, chs.take(i + 1)));
        }
        assert(chs.take(n as int) =~= chs);
        all
    }
}

/// Whether translation `a` may be listed before translation `b`: its
/// language comes first by its UTF-8 bytes, or the languages are the same and
/// its name does not come after `b`'s.
pub open spec fn listed_before(a: TranslationView, b: TranslationView) -> bool {
    bytes_lt(encode_utf8(a.language), encode_utf8(b.language)) || (encode_utf8(a.language)
        == encode_utf8(b.language) && bytes_le(encode_utf8(a.name), encode_utf8(b.name)))
}

/// Law: the translation list is ordered by language and then by name, and it
/// holds exactly the translations that the entries describe.
pub proof fn lemma_translations_ordered(entries: Seq<TranslationEntry>)
    ensures
        forall|i: int, j: int|
            0 <= i < j < sorted_stable::<Translation>(translation_views(entries)).len()
                ==> listed_before(
                #[trigger] sorted_stable::<Translation>(translation_views(entries))[i],
                #[trigger] sorted_stable::<Translation>(translation_views(entries))[j],
            ),
        sorted_stable::<Translation>(translation_views(entries)).to_multiset()
            == translation_views(entries).to_multiset(),
{
    lemma_sorted_stable_is_sorted::<Translation>(translation_views(entries));
    lemma_sorted_stable_permutes::<Translation>(translation_views(entries));
}

/// Law: the book list is ordered by book number, and it holds exactly the books
/// that the entries with a number and a name describe.
pub proof fn lemma_books_ordered_by_number(entries: Seq<BookEntry>)
    ensures
        forall|i: int, j: int|
            0 <= i < j < sorted_stable::<BibleBook>(listed_books(entries)).len() ==> (
            #[trigger] sorted_stable::<BibleBook>(listed_books(entries))[i]).book_nr <= (
            #[trigger] sorted_stable::<BibleBook>(listed_books(entries))[j]).book_nr,
        sorted_stable::<BibleBook>(listed_books(entries)).to_multiset() == listed_books(
            entries,
        ).to_multiset(),
{
    lemma_sorted_stable_is_sorted::<BibleBook>(listed_books(entries));
    lemma_sorted_stable_permutes::<BibleBook>(listed_books(entries));
}

/// Law: the verses of a chapter are ordered by verse number, and they are
/// exactly the verses the service sent for it.
pub proof fn lemma_chapter_verses_ordered(content: BookContent, ch: ChapterEntry)
    ensures
        forall|i: int, j: int|
            0 <= i < j < chapter_verse_views(content, ch).len() ==> (
            #[trigger] chapter_verse_views(content, ch)[i]).verse <= (
            #[trigger] chapter_verse_views(content, ch)[j]).verse,
        chapter_verse_views(content, ch).to_multiset() == entry_verse_views(
            content,
            ch,
        ).to_multiset(),
{
    lemma_sorted_stable_is_sorted::<Verse>(entry_verse_views(content, ch));
    lemma_sorted_stable_permutes::<Verse>(entry_verse_views(content, ch));
}

/// Law: for a book with exactly one chapter numbered `nr`, that chapter's
/// verses and the other verses that `chapter_from_book` returns are, taken
/// together, exactly the verses that `book_verses` returns for the book.
pub proof fn lemma_chapter_and_rest_are_the_book(content: BookContent, nr: u32, k: int)
    requires
        0 <= k < content.chapters@.len(),
        content.chapters@[k].chapter == nr,
        forall|j: int|
            0 <= j < content.chapters@.len() && j != k ==> #[trigger] content.chapters@[j].chapter
                != nr,
    ensures
        last_match(content.chapters@, nr) == Some(k),
        (chapter_view_of(content, content.chapters@[k]).verses + other_verse_views(
            content,
            content.chapters@,
            nr,
        )).to_multiset() == book_verse_views(content, content.chapters@).to_multiset(),
{
    let chs = content.chapters@;
    lemma_last_match_unique(chs, nr, k);
    lemma_book_splits(content, chs, nr);
    lemma_matching_unique(content, chs, nr, k);
    lemma_sorted_stable_permutes::<Verse>(entry_verse_views(content, chs[k]));
    vstd::seq_lib::lemma_multiset_commutative(
        chapter_verse_views(content, chs[k]),
        other_verse_views(content, chs, nr),
    );
}

proof fn lemma_last_match_unique(chs: Seq<ChapterEntry>, nr: u32, k: int)
    requires
        0 <= k < chs.len(),
        chs[k].chapter == nr,
        forall|j: int| 0 <= j < chs.len() && j != k ==> #[trigger] chs[j].chapter != nr,
    ensures
        last_match(chs, nr) == Some(k),
    decreases chs.len(),
{
    if k < chs.len() - 1 {
        let p = chs.drop_last();
        assert(chs[chs.len() - 1].chapter != nr);
        assert forall|j: int| 0 <= j < p.len() && j != k implies #[trigger] p[j].chapter != nr by {
            assert(p[j] == chs[j]);
        }
        lemma_last_match_unique(p, nr, k);
    }
}

/// The verses of a book are those of the chapters numbered `nr` and those of the others.
proof fn lemma_book_splits(content: BookContent, chs: Seq<ChapterEntry>, nr: u32)
    ensures
        book_verse_views(content, chs).to_multiset() == other_verse_views(
            content,
            chs,
            nr,
        ).to_multiset().add(matching_verse_views(content, chs, nr).to_multiset()),
    decreases chs.len(),
{
    if chs.len() > 0 {
        let p = chs.drop_last();
        let last = chs.last();
        lemma_book_splits(content, p, nr);
        vstd::seq_lib::lemma_multiset_commutative(
            book_verse_views(content, p),
            entry_verse_views(content, last),
        );
        if last.chapter == nr {
            vstd::seq_lib::lemma_multiset_commutative(
                other_verse_views(content, p, nr),
                Seq::<VerseView>::empty(),
            );
            vstd::seq_lib::lemma_multiset_commutative(
                matching_verse_views(content, p, nr),
                entry_verse_views(content, last),
            );
        } else {
            lemma_sorted_stable_permutes::<Verse>(entry_verse_views(content, last));
            vstd::seq_lib::lemma_multiset_commutative(
                other_verse_views(content, p, nr),
                chapter_verse_views(content, last),
            );
            vstd::seq_lib::lemma_multiset_commutative(
                matching_verse_views(content, p, nr),
                Seq::<VerseView>::empty(),
            );
        }
    }
}

proof fn lemma_matching_unique(content: BookContent, chs: Seq<ChapterEntry>, nr: u32, k: int)
    requires
        0 <= k < chs.len(),
        chs[k].chapter == nr,
        forall|j: int| 0 <= j < chs.len() && j != k ==> #[trigger] chs[j].chapter != nr,
    ensures
        matching_verse_views(content, chs, nr) == entry_verse_views(content, chs[k]),
    decreases chs.len(),
{
    let p = chs.drop_last();
    if k < chs.len() - 1 {
        assert(chs[chs.len() - 1].chapter != nr);
        assert forall|j: int| 0 <= j < p.len() && j != k implies #[trigger] p[j].chapter != nr by {
            assert(p[j] == chs[j]);
        }
        lemma_matching_unique(content, p, nr, k);
        assert(matching_verse_views(content, chs, nr) =~= matching_verse_views(content, p, nr));
    } else {
        lemma_matching_none(content, p, nr);
        assert(matching_verse_views(content, chs, nr) =~= entry_verse_views(content, chs[k]));
    }
}

proof fn lemma_matching_none(content: BookContent, chs: Seq<ChapterEntry>, nr: u32)
    requires
        forall|j: int| 0 <= j < chs.len() ==> #[trigger] chs[j].chapter != nr,
    ensures
        matching_verse_views(content, chs, nr) == Seq::<VerseView>::empty(),
    decreases chs.len(),
{
    if chs.len() > 0 {
        let p = chs.drop_last();
        assert forall|j: int| 0 <= j < p.len() implies #[trigger] p[j].chapter != nr by {
            assert(p[j] == chs[j]);
        }
        lemma_matching_none(content, p, nr);
        assert(chs[chs.len() - 1].chapter != nr);
        assert(matching_verse_views(content, chs, nr) =~= Seq::<VerseView>::empty());
    }
}

} // verus!
