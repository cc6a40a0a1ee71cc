//! Memorising verses with flash cards: which card is studied, how an answer is
//! judged, and how long a card rests before its next review.
use crate::models::MemoryCard;
use crate::text::{str_eq, contains_seq, decimal, lowercase, push_decimal, push_str, str_contains, to_lowercase, trim, trimmed, owned};
use vstd::prelude::*;
use vstd::string::StringSliceAdditionalSpecFns;
use vstd::utf8::{encode_utf8, is_char_boundary};

verus! {

/// What a flash card shows and what the answer must give.
#[derive(PartialEq, Eq, Structural, Clone, Copy, Debug)]
pub enum FlashcardMode {
    /// The card shows the reference; the answer gives the verse's text.
    ReferenceToVerse,
    /// The card shows the verse's text; the answer gives the reference.
    VerseToReference,
}

/// The longest interval, in days, between two reviews of a card.
pub const MAX_REVIEW_DAYS: i64 = 30;

/// The bytes of an answer and of a verse that are compared in
/// reference-to-verse mode.
pub const COMPARED_BYTES: usize = 20;

/// The card studied: the current position (the first card when there is
/// none), but at most the last card.
pub open spec fn study_index_spec(current: Option<usize>, len: usize) -> usize {
    let i = match current {
        Some(i) => i,
        None => 0,
    };
    if i < len - 1 {
        i
    } else {
        (len - 1) as usize
    }
}

/// The card studied among `len` cards.
pub fn study_index(current: Option<usize>, len: usize) -> (r: usize)
    requires
        len > 0,
    ensures
        r == study_index_spec(current, len),
        r < len,
{
    let i = match current {
        Some(i) => i,
        None => 0,
    };
    if i < len - 1 {
        i
    } else {
        len - 1
    }
}

/// Which part of the flash-card tab is shown.
#[derive(PartialEq, Eq, Structural, Clone, Copy, Debug)]
pub enum FlashcardView {
    /// The list of cards.
    CardList,
    /// One card being studied.
    Study,
}

/// The state of studying flash cards: the part shown, the card studied, the
/// answer typed and the verdict on it.
pub struct FlashcardSession {
    pub view: FlashcardView,
    pub current: Option<usize>,
    pub answer: String,
    pub result: Option<bool>,
}

impl FlashcardSession {
    /// The session at start: the card list, no card, no answer, no verdict.
    pub fn new() -> (r: FlashcardSession)
        ensures
            r.view == FlashcardView::CardList,
            r.current is None,
            r.answer@.len() == 0,
            r.result is None,
    {
        FlashcardSession { view: FlashcardView::CardList, current: None, answer: String::new(), result: None }
    }

    /// Starts a review at the first card, with no answer and no verdict.
    pub fn start_review(&mut self)
        ensures
            final(self).view == FlashcardView::Study,
            final(self).current == Some(0usize),
            final(self).answer@.len() == 0,
            final(self).result is None,
    {
        self.view = FlashcardView::Study;
        self.current = Some(0);
        self.answer = String::new();
        self.result = None;
    }

    /// Goes back to the card list, keeping the rest.
    pub fn back_to_list(&mut self)
        ensures
            final(self).view == FlashcardView::CardList,
            final(self).current == old(self).current,
            final(self).answer@ == old(self).answer@,
            final(self).result == old(self).result,
    {
        self.view = FlashcardView::CardList;
    }

    /// The card studied among `len` cards, which becomes the current one.
    pub fn focus(&mut self, len: usize) -> (idx: usize)
        requires
            len > 0,
        ensures
            idx == study_index_spec(old(self).current, len),
            final(self).current == Some(idx),
            final(self).view == old(self).view,
            final(self).answer@ == old(self).answer@,
            final(self).result == old(self).result,
    {
        let idx = study_index(self.current, len);
        self.current = Some(idx);
        idx
    }

    /// Records the verdict on the answer.
    pub fn record(&mut self, correct: bool)
        ensures
            final(self).result == Some(correct),
            final(self).view == old(self).view,
            final(self).current == old(self).current,
            final(self).answer@ == old(self).answer@,
    {
        self.result = Some(correct);
    }

    /// Moves from card `idx` of `len` to the next one, clearing the answer and
    /// the verdict.
    pub fn next_card(&mut self, idx: usize, len: usize)
        requires
            idx < len,
        ensures
            final(self).current == Some(((idx + 1) % (len as int)) as usize),
            final(self).view == old(self).view,
            final(self).answer@.len() == 0,
            final(self).result is None,
    {
        self.current = Some(next_card_index(idx, len));
        self.answer = String::new();
        self.result = None;
    }
}

/// The card after card `idx` of `len`, the first after the last.
pub fn next_card_index(idx: usize, len: usize) -> (r: usize)
    requires
        idx < len,
    ensures
        r == (idx + 1) % (len as int),
        r < len,
{
    (idx + 1) % len
}

/// The card reached from card `idx` of `len` by `k` steps to the next card.
pub open spec fn after_steps(idx: int, len: int, k: nat) -> int
    decreases k,
{
    if k == 0 {
        idx
    } else {
        (after_steps(idx, len, (k - 1) as nat) + 1) % len
    }
}

proof fn lemma_after_steps(idx: int, len: int, k: nat)
    requires
        0 <= idx < len,
    ensures
        after_steps(idx, len, k) == (idx + k) % len,
    decreases k,
{
    if k == 0 {
        vstd::arithmetic::div_mod::lemma_small_mod(idx as nat, len as nat);
    } else {
        lemma_after_steps(idx, len, (k - 1) as nat);
        vstd::arithmetic::div_mod::lemma_add_mod_noop_right(1, idx + k - 1, len);
    }
}

/// Law: stepping to the next card `len` times from any card of `len` comes
/// back to it, and every step stays among the cards.
pub proof fn lemma_cards_cycle(idx: int, len: int, k: nat)
    requires
        0 <= idx < len,
    ensures
        0 <= after_steps(idx, len, k) < len,
        after_steps(idx, len, len as nat) == idx,
{
    lemma_after_steps(idx, len, k);
    lemma_after_steps(idx, len, len as nat);
    vstd::arithmetic::div_mod::lemma_mod_bound(idx + k, len);
    vstd::arithmetic::div_mod::lemma_mod_add_multiples_vanish(idx, len);
    vstd::arithmetic::div_mod::lemma_small_mod(idx as nat, len as nat);
}

/// The days until a card is due again after a review: one more than its
/// successes so far (at most `MAX_REVIEW_DAYS`) after a success, one after a
/// failure.
pub open spec fn review_interval(successes: int, success: bool) -> int {
    if success {
        if successes + 1 < MAX_REVIEW_DAYS {
            successes + 1
        } else {
            MAX_REVIEW_DAYS as int
        }
    } else {
        1
    }
}

/// The days until a card with `successes` successes is due again after a
/// review with outcome `success`.
pub fn review_interval_days(successes: i64, success: bool) -> (d: i64)
    requires
        success ==> successes < i64::MAX,
    ensures
        d == review_interval(successes as int, success),
{
    if success {
        let next = successes + 1;
        if next < MAX_REVIEW_DAYS {
            next
        } else {
            MAX_REVIEW_DAYS
        }
    } else {
        1
    }
}

/// Law: a card is due again after one to `MAX_REVIEW_DAYS` days, and more
/// successes never make the interval after a success shorter.
pub proof fn lemma_review_interval_bounds(successes: int, more: int, success: bool)
    requires
        0 <= successes <= more,
    ensures
        1 <= review_interval(successes, success) <= MAX_REVIEW_DAYS,
        review_interval(successes, true) <= review_interval(more, true),
{
}

/// The number of bytes of `s` that reference-to-verse mode compares.
pub open spec fn compared_len(s: Seq<char>) -> int {
    let n = encode_utf8(s).len();
    if n < COMPARED_BYTES {
        n as int
    } else {
        COMPARED_BYTES as int
    }
}

/// The first compared bytes of `s`.
pub open spec fn compared_prefix(s: Seq<char>) -> Seq<u8> {
    encode_utf8(s).subrange(0, compared_len(s))
}

/// The compared part of a string is its first twenty bytes, or all of its
/// bytes when it has fewer.
pub proof fn lemma_compared_prefix(s: Seq<char>)
    ensures
        compared_prefix(s).len() == (if encode_utf8(s).len() < 20 {
            encode_utf8(s).len() as int
        } else {
            20
        }),
        forall|i: int|
            0 <= i < compared_prefix(s).len() ==> #[trigger] compared_prefix(s)[i]
                == encode_utf8(s)[i],
        compared_prefix(s) == encode_utf8(s).take(
            if encode_utf8(s).len() < 20 {
                encode_utf8(s).len() as int
            } else {
                20
            },
        ),
{
}

/// Whether the compared bytes of `s` end at a character boundary, as cutting
/// a string there requires.
pub open spec fn cuts_cleanly(s: Seq<char>) -> bool {
    is_char_boundary(encode_utf8(s), compared_len(s))
}

/// An answer as it is compared: without surrounding whitespace, in lowercase.
pub open spec fn normalized(s: Seq<char>) -> Seq<char> {
    lowercase(trimmed(s))
}

/// The reference of a verse: book name, chapter and verse as `Book 3:16`.
pub open spec fn reference_text(book_name: Seq<char>, chapter: u32, verse: u32) -> Seq<char> {
    book_name + " "@ + decimal(chapter as nat) + ":"@ + decimal(verse as nat)
}

/// Whether an answer can be judged: in reference-to-verse mode both the
/// answer and the verse's text must be cut at a character boundary.
pub open spec fn answer_judgeable(mode: FlashcardMode, answer: Seq<char>, text: Seq<char>) -> bool {
    mode == FlashcardMode::ReferenceToVerse ==> cuts_cleanly(normalized(answer)) && cuts_cleanly(
        normalized(text),
    )
}

/// Whether an answer, already compared in its normalized form, is right for a
/// card whose text and book name are given in that form too. In
/// reference-to-verse mode the answer must contain the first bytes of the text
/// or the text the first bytes of the answer; in verse-to-reference mode the
/// answer must be the reference or contain the book's name.
pub open spec fn answer_judged(
    mode: FlashcardMode,
    answer: Seq<char>,
    text: Seq<char>,
    book: Seq<char>,
    chapter: u32,
    verse: u32,
) -> bool {
    match mode {
        FlashcardMode::ReferenceToVerse => contains_seq(
            encode_utf8(answer),
            compared_prefix(text),
        ) || contains_seq(encode_utf8(text), compared_prefix(answer)),
        FlashcardMode::VerseToReference => answer == reference_text(book, chapter, verse)
            || contains_seq(encode_utf8(answer), encode_utf8(book)),
    }
}

/// Whether an answer is right: the answer and the verse's text without
/// surrounding whitespace and in lowercase, and the book's name in lowercase,
/// judged by `answer_judged`.
pub open spec fn answer_correct(
    mode: FlashcardMode,
    answer: Seq<char>,
    book_name: Seq<char>,
    chapter: u32,
    verse: u32,
    text: Seq<char>,
) -> bool {
    answer_judged(mode, normalized(answer), normalized(text), lowercase(book_name), chapter, verse)
}

/// In reference-to-verse mode an answer is judged right exactly when it holds
/// the first twenty bytes of the text (all of it when shorter), or the text
/// holds the first twenty bytes of the answer (all of it when shorter). So an
/// answer whose normalized form holds the first twenty bytes of the
/// normalized verse text is right, whatever follows them.
pub proof fn lemma_reference_to_verse_judged(
    answer: Seq<char>,
    text: Seq<char>,
    book_name: Seq<char>,
    chapter: u32,
    verse: u32,
)
    ensures
        answer_judged(FlashcardMode::ReferenceToVerse, answer, text, book_name, chapter, verse)
            <==> (contains_seq(
            encode_utf8(answer),
            encode_utf8(text).take(
                if encode_utf8(text).len() < 20 {
                    encode_utf8(text).len() as int
                } else {
                    20
                },
            ),
        ) || contains_seq(
            encode_utf8(text),
            encode_utf8(answer).take(
                if encode_utf8(answer).len() < 20 {
                    encode_utf8(answer).len() as int
                } else {
                    20
                },
            ),
        )),
        contains_seq(
            encode_utf8(normalized(answer)),
            encode_utf8(normalized(text)).take(
                if encode_utf8(normalized(text)).len() < 20 {
                    encode_utf8(normalized(text)).len() as int
                } else {
                    20
                },
            ),
        ) ==> answer_correct(
            FlashcardMode::ReferenceToVerse,
            answer,
            book_name,
            chapter,
            verse,
            text,
        ),
{
    lemma_compared_prefix(answer);
    lemma_compared_prefix(text);
    lemma_compared_prefix(normalized(answer));
    lemma_compared_prefix(normalized(text));
}

/// The bytes of a card's next review time that the card list shows: the date.
pub const REVIEW_DATE_BYTES: usize = 10;

/// The number of bytes of `next` that the card list shows.
pub open spec fn review_date_len(next: Seq<char>) -> int {
    let n = encode_utf8(next).len();
    if n < REVIEW_DATE_BYTES {
        n as int
    } else {
        REVIEW_DATE_BYTES as int
    }
}

/// What the card list shows of a card's next review time: its first
/// `REVIEW_DATE_BYTES` bytes (the date of a time written as RFC 3339), or all
/// of it when shorter. The cut must fall between characters.
pub fn review_date_label(next: &str) -> (r: &str)
    requires
        is_char_boundary(encode_utf8(next@), review_date_len(next@)),
    ensures
        encode_utf8(r@) == encode_utf8(next@).subrange(0, review_date_len(next@)),
{
    let n = next.as_bytes().len();
    let m = if n < REVIEW_DATE_BYTES {
        n
    } else {
        REVIEW_DATE_BYTES
    };
    let (head, _) = next.split_at(m);
    head
}

/// The first compared bytes of `s`, as a string.
fn compared_head(s: &str) -> (r: &str)
    requires
        cuts_cleanly(s@),
    ensures
        encode_utf8(r@) == compared_prefix(s@),
{
    let n = s.as_bytes().len();
    let m = if n < COMPARED_BYTES {
        n
    } else {
        COMPARED_BYTES
    };
    let (head, _) = s.split_at(m);
    head
}

/// The reference of a verse, as `Book 3:16`.
pub fn reference_label(book_name: &str, chapter: u32, verse: u32) -> (r: String)
    ensures
        r@ == reference_text(book_name@, chapter, verse),
{
    let mut r = owned(book_name);
    push_str(&mut r, " ");
    push_decimal(&mut r, chapter as u64);
    push_str(&mut r, ":");
    push_decimal(&mut r, verse as u64);
    r
}

/// Judges an answer in normalized form against a card's text and book name in
/// that form. In reference-to-verse mode both the answer and the text must be
/// cut between characters at the compared length.
pub fn judge_answer(
    mode: FlashcardMode,
    answer: &str,
    text: &str,
    book: &str,
    chapter: u32,
    verse: u32,
) -> (r: bool)
    requires
        mode == FlashcardMode::ReferenceToVerse ==> cuts_cleanly(answer@) && cuts_cleanly(text@),
    ensures
        r == answer_judged(mode, answer@, text@, book@, chapter, verse),
{
    match mode {
        FlashcardMode::ReferenceToVerse => {
            let e_head = compared_head(text);
            let a_head = compared_head(answer);
            str_contains(answer, e_head) || str_contains(text, a_head)
        },
        FlashcardMode::VerseToReference => {
            let expected = reference_label(book, chapter, verse);
            str_eq(answer, expected.as_str()) || str_contains(answer, book)
        },
    }
}

/// Judges an answer to a card that can be judged.
pub fn answer_is_correct(mode: FlashcardMode, answer: &str, card: &MemoryCard) -> (r: bool)
    requires
        answer_judgeable(mode, answer@, card.text@),
    ensures
        r == answer_correct(mode, answer@, card.book_name@, card.chapter, card.verse, card.text@),
{
    let a = to_lowercase(trim(answer).as_str());
    let e = to_lowercase(trim(card.text.as_str()).as_str());
    let book = to_lowercase(card.book_name.as_str());
    judge_answer(mode, a.as_str(), e.as_str(), book.as_str(), card.chapter, card.verse)
}

/// Judges an answer to a card; nothing when it cannot be judged because a
/// compared part would be cut inside a character.
pub fn check_answer(mode: FlashcardMode, answer: &str, card: &MemoryCard) -> (r: Option<bool>)
    ensures
        r is None <==> !answer_judgeable(mode, answer@, card.text@),
        r matches Some(b) ==> b == answer_correct(
            mode,
            answer@,
            card.book_name@,
            card.chapter,
            card.verse,
            card.text@,
        ),
{
    if mode == FlashcardMode::ReferenceToVerse {
        let a = to_lowercase(trim(answer).as_str());
        let e = to_lowercase(trim(card.text.as_str()).as_str());
        if !cuts_at_compared_len(a.as_str()) || !cuts_at_compared_len(e.as_str()) {
            return None;
        }
    }
    Some(answer_is_correct(mode, answer, card))
}

/// Whether the compared bytes of `s` end at a character boundary.
fn cuts_at_compared_len(s: &str) -> (r: bool)
    ensures
        r == cuts_cleanly(s@),
{
    let n = s.as_bytes().len();
    let m = if n < COMPARED_BYTES {
        n
    } else {
        COMPARED_BYTES
    };
    s.is_char_boundary(m)
}

} // verus!
