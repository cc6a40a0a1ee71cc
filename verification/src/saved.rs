//! Saved verses: which are listed under a translation filter, and under which
//! identifier a verse is saved.
use crate::models::{SavedVerse, SavedVerseView, Verse};
use crate::sort::views;
use crate::text::str_eq;
use vstd::prelude::*;

verus! {

/// Whether a saved verse is listed under the translation filter `filter`:
/// every verse under `all`, otherwise those of that translation.
pub open spec fn listed_under(v: SavedVerseView, filter: Seq<char>) -> bool {
    filter == "all"@ || v.translation == filter
}

/// The saved verses of `s` listed under `filter`, in order.
pub open spec fn saved_listed(s: Seq<SavedVerseView>, filter: Seq<char>) -> Seq<SavedVerseView>
    decreases s.len(),
{
    if s.len() == 0 {
        Seq::empty()
    } else if listed_under(s.last(), filter) {
        saved_listed(s.drop_last(), filter).push(s.last())
    } else {
        saved_listed(s.drop_last(), filter)
    }
}

/// The saved verses listed under the translation filter `filter`.
pub fn saved_in_translation(saved: &Vec<SavedVerse>, filter: &str) -> (r: Vec<SavedVerse>)
    ensures
        views(r@) == saved_listed(views(saved@), filter@),
{
    let all = str_eq(filter, "all");
    let n = saved.len();
    let ghost s = views(saved@);
    let mut r: Vec<SavedVerse> = Vec::new();
    for i in 0..n
        invariant
            n == saved@.len(),
            s == views(saved@),
            all == (filter@ == "all"@),
            views(r@) == saved_listed(s.take(i as int), filter@),
    {
        assert(s.take(i + 1).drop_last() =~= s.take(i as int));
        assert(s.take(i + 1).last() == saved@[i as int]@);
        if all || str_eq(saved[i].translation.as_str(), filter) {
            let v = saved[i].copy();
            let ghost before = r@;
            r.push(v);
            assert(views(r@) =~= views(before).push(v@));
        }
    }
    assert(s.take(n as int) =~= s);
    r
}

/// The identifier of the last saved verse of `s` with the given book name,
/// chapter, verse and translation (later entries replace earlier ones).
pub open spec fn saved_id_spec(
    s: Seq<SavedVerseView>,
    book_name: Seq<char>,
    chapter: u32,
    verse: u32,
    translation: Seq<char>,
) -> Option<i64>
    decreases s.len(),
{
    if s.len() == 0 {
        None
    } else {
        let v = s.last();
        if v.book_name == book_name && v.chapter == chapter && v.verse == verse && v.translation
            == translation {
            Some(v.id)
        } else {
            saved_id_spec(s.drop_last(), book_name, chapter, verse, translation)
        }
    }
}

/// A verse is found saved only under the identifier of a saved verse with the
/// same book name, chapter, verse number and translation, the last such one;
/// when no saved verse agrees in all four, none is found.
pub proof fn lemma_saved_id_matches(
    s: Seq<SavedVerseView>,
    book_name: Seq<char>,
    chapter: u32,
    verse: u32,
    translation: Seq<char>,
)
    ensures
        match saved_id_spec(s, book_name, chapter, verse, translation) {
            Some(id) => exists|k: int|
                0 <= k < s.len() && #[trigger] s[k].id == id && s[k].book_name == book_name
                    && s[k].chapter == chapter && s[k].verse == verse && s[k].translation
                    == translation && (forall|j: int|
                    k < j < s.len() ==> !(#[trigger] s[j].book_name == book_name && s[j].chapter
                        == chapter && s[j].verse == verse && s[j].translation == translation)),
            None => forall|k: int|
                0 <= k < s.len() ==> !(#[trigger] s[k].book_name == book_name && s[k].chapter
                    == chapter && s[k].verse == verse && s[k].translation == translation),
        },
    decreases s.len(),
{
    if s.len() > 0 {
        let t = s.drop_last();
        let last = s.len() - 1;
        let v = s.last();
        if v.book_name == book_name && v.chapter == chapter && v.verse == verse && v.translation
            == translation {
            assert(s[last].id == v.id);
        } else {
            lemma_saved_id_matches(t, book_name, chapter, verse, translation);
            assert forall|k: int| 0 <= k < t.len() implies #[trigger] t[k] == s[k] by {}
            match saved_id_spec(t, book_name, chapter, verse, translation) {
                Some(id) => {
                    let k = choose|k: int|
                        0 <= k < t.len() && #[trigger] t[k].id == id && t[k].book_name == book_name
                            && t[k].chapter == chapter && t[k].verse == verse && t[k].translation
                            == translation && (forall|j: int|
                            k < j < t.len() ==> !(#[trigger] t[j].book_name == book_name
                                && t[j].chapter == chapter && t[j].verse == verse
                                && t[j].translation == translation));
                    assert(t[k] == s[k]);
                    assert(s[k].id == id);
                    assert forall|j: int| k < j < s.len() implies !(#[trigger] s[j].book_name
                        == book_name && s[j].chapter == chapter && s[j].verse == verse
                        && s[j].translation == translation) by {
                        if j < t.len() {
                            assert(t[j] == s[j]);
                        }
                    }
                },
                None => {
                    assert forall|k: int| 0 <= k < s.len() implies !(#[trigger] s[k].book_name
                        == book_name && s[k].chapter == chapter && s[k].verse == verse
                        && s[k].translation == translation) by {
                        if k < t.len() {
                            assert(t[k] == s[k]);
                        }
                    }
                },
            }
        }
    }
}

/// The identifier under which `verse` is saved, if it is.
pub fn saved_id_of(saved: &Vec<SavedVerse>, verse: &Verse) -> (r: Option<i64>)
    ensures
        r == saved_id_spec(
            views(saved@),
            verse.book_name@,
            verse.chapter,
            verse.verse,
            verse.translation@,
        ),
        r matches Some(id) ==> exists|k: int|
            0 <= k < saved@.len() && #[trigger] views(saved@)[k].id == id && views(saved@)[k].book_name
                == verse.book_name@ && views(saved@)[k].chapter == verse.chapter
                && views(saved@)[k].verse == verse.verse && views(saved@)[k].translation
                == verse.translation@,
        r is None ==> forall|k: int|
            0 <= k < saved@.len() ==> !(#[trigger] views(saved@)[k].book_name == verse.book_name@
                && views(saved@)[k].chapter == verse.chapter && views(saved@)[k].verse
                == verse.verse && views(saved@)[k].translation == verse.translation@),
{
    let ghost s = views(saved@);
    proof {
        lemma_saved_id_matches(
            s,
            verse.book_name@,
            verse.chapter,
            verse.verse,
            verse.translation@,
        );
    }
    let mut i = saved.len();
    assert(s.take(i as int) =~= s);
    while i > 0
        invariant
            i <= saved@.len(),
            s == views(saved@),
            saved_id_spec(s, verse.book_name@, verse.chapter, verse.verse, verse.translation@)
                == saved_id_spec(
                s.take(i as int),
                verse.book_name@,
                verse.chapter,
                verse.verse,
                verse.translation@,
            ),
        decreases i,
    {
        i = i - 1;
        let v = &saved[i];
        assert(s.take(i + 1).drop_last() =~= s.take(i as int));
        assert(s.take(i + 1).last() == v@);
        if str_eq(v.book_name.as_str(), verse.book_name.as_str()) && v.chapter == verse.chapter
            && v.verse == verse.verse && str_eq(
            v.translation.as_str(),
            verse.translation.as_str(),
        ) {
            return Some(v.id);
        }
    }
    None
}

} // verus!
