//! Reading plans: naming a plan, adding a chapter to it from the form, how an
//! entry is labelled, and how far a plan has got.
use crate::models::{copy_string, BibleBook, PlanEntryView, ReadingPlanEntry};
use crate::sort::views;
use crate::text::{decimal, owned, parse_u32, parse_u32_spec, push_decimal, push_str, trim, trimmed};
use vstd::prelude::*;

verus! {

/// The number of completed entries among `s`.
pub open spec fn completed_count(s: Seq<PlanEntryView>) -> nat
    decreases s.len(),
{
    if s.len() == 0 {
        0
    } else {
        completed_count(s.drop_last()) + if s.last().completed {
            1nat
        } else {
            0nat
        }
    }
}

/// How far a plan has got: its completed entries and all its entries.
pub fn plan_progress(entries: &Vec<ReadingPlanEntry>) -> (r: (usize, usize))
    ensures
        r.0 == completed_count(views(entries@)),
        r.1 == entries@.len(),
        r.0 <= r.1,
{
    let n = entries.len();
    let mut done: usize = 0;
    let ghost es = views(entries@);
    for i in 0..n
        invariant
            n == entries@.len(),
            es == views(entries@),
            done == completed_count(es.take(i as int)),
            done <= i,
    {
        assert(es.take(i + 1).drop_last() =~= es.take(i as int));
        if entries[i].completed {
            done = done + 1;
        }
    }
    assert(es.take(n as int) =~= es);
    (done, n)
}

/// The name of a new plan: the text without surrounding whitespace, or
/// nothing when that is empty.
pub fn new_plan_name(text: &str) -> (r: Option<String>)
    ensures
        match r {
            Some(name) => trimmed(text@).len() > 0 && name@ == trimmed(text@),
            None => trimmed(text@).len() == 0,
        },
{
    let name = trim(text);
    if name.as_str().unicode_len() == 0 {
        None
    } else {
        Some(name)
    }
}

/// The book that the plan form's book menu shows: the chosen position, but at
/// most the last book.
pub open spec fn form_book_index_spec(book_idx: usize, len: int) -> int {
    if book_idx < len - 1 {
        book_idx as int
    } else {
        len - 1
    }
}

/// The position of the book the plan form shows among `len` books.
pub fn form_book_index(book_idx: usize, len: usize) -> (r: usize)
    requires
        len > 0,
    ensures
        r == form_book_index_spec(book_idx, len as int),
        r < len,
{
    if book_idx < len - 1 {
        book_idx
    } else {
        len - 1
    }
}

/// The entry that the plan form adds: the shown book's name, the chapter
/// typed (1 when it is not a number), and the date typed unless that is empty.
pub fn plan_entry_from_form(
    books: &Vec<BibleBook>,
    book_idx: usize,
    chapter_text: &str,
    date_text: &str,
) -> (r: (String, u32, Option<String>))
    requires
        books@.len() > 0,
    ensures
        r.0@ == books@[form_book_index_spec(book_idx, books@.len() as int)].name@,
        r.1 == match parse_u32_spec(chapter_text@) {
            Some(c) => c,
            None => 1,
        },
        match r.2 {
            Some(d) => date_text@.len() > 0 && d@ == date_text@,
            None => date_text@.len() == 0,
        },
{
    let chapter = match parse_u32(chapter_text) {
        Some(c) => c,
        None => 1,
    };
    let idx = form_book_index(book_idx, books.len());
    let book_name = copy_string(&books[idx].name);
    let date = if date_text.unicode_len() == 0 {
        None
    } else {
        Some(owned(date_text))
    };
    (book_name, chapter, date)
}

/// How an entry is listed: book and chapter, then its date in brackets when
/// it has one.
pub open spec fn entry_label_spec(e: PlanEntryView) -> Seq<char> {
    let base = e.book_name + " "@ + decimal(e.chapter as nat);
    match e.scheduled_date {
        Some(d) => base + " ("@ + d + ")"@,
        None => base,
    }
}

/// The label of a plan entry.
pub fn entry_label(entry: &ReadingPlanEntry) -> (r: String)
    ensures
        r@ == entry_label_spec(entry@),
{
    let mut r = copy_string(&entry.book_name);
    push_str(&mut r, " ");
    push_decimal(&mut r, entry.chapter as u64);
    if let Some(d) = &entry.scheduled_date {
        push_str(&mut r, " (");
        push_str(&mut r, d.as_str());
        push_str(&mut r, ")");
    }
    r
}

/// The selected plan after plan `deleted` is deleted: none if it was the
/// selected one.
pub fn selection_after_delete(selected: Option<i64>, deleted: i64) -> (r: Option<i64>)
    ensures
        r == (if selected == Some(deleted) {
            None
        } else {
            selected
        }),
{
    match selected {
        Some(id) => if id == deleted {
            None
        } else {
            Some(id)
        },
        None => None,
    }
}

} // verus!
