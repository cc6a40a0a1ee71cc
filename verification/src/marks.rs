//! Marking verses and words with a coloured marker: the colours a mark is
//! drawn in, and what a click or a drag over a word does to its mark.
use crate::text::str_eq;
use vstd::prelude::*;

verus! {

/// A colour with its red, green, blue and alpha parts (alpha 255 is opaque,
/// alpha 0 transparent).
#[derive(PartialEq, Eq, Structural, Clone, Copy, Debug)]
pub struct Rgba {
    pub r: u8,
    pub g: u8,
    pub b: u8,
    pub a: u8,
}

/// An opaque colour.
pub open spec fn opaque(r: u8, g: u8, b: u8) -> Rgba {
    Rgba { r, g, b, a: 255 }
}

/// No colour.
pub open spec fn transparent() -> Rgba {
    Rgba { r: 0, g: 0, b: 0, a: 0 }
}

/// The background of a word marked with the colour named `name`.
pub open spec fn mark_color_spec(name: Seq<char>) -> Rgba {
    if name == "yellow"@ {
        opaque(255, 220, 40)
    } else if name == "green"@ {
        opaque(50, 190, 70)
    } else if name == "blue"@ {
        opaque(80, 150, 255)
    } else if name == "pink"@ {
        opaque(255, 110, 170)
    } else {
        transparent()
    }
}

/// The text colour on a mark of the colour named `name`, chosen to be read
/// on it.
pub open spec fn mark_text_color_spec(name: Seq<char>) -> Rgba {
    if name == "yellow"@ {
        opaque(30, 20, 0)
    } else if name == "blue"@ {
        opaque(255, 255, 255)
    } else {
        opaque(0, 0, 0)
    }
}

/// The dot that shows the marker colour named `name` in the toolbar.
pub open spec fn mark_color_opaque_spec(name: Seq<char>) -> Rgba {
    if name == "yellow"@ {
        opaque(255, 210, 30)
    } else if name == "green"@ {
        opaque(60, 185, 70)
    } else if name == "blue"@ {
        opaque(60, 130, 240)
    } else if name == "pink"@ {
        opaque(240, 90, 150)
    } else {
        transparent()
    }
}

/// The background of a word marked with the colour named `name`.
pub fn mark_color(name: &str) -> (c: Rgba)
    ensures
        c == mark_color_spec(name@),
{
    if str_eq(name, "yellow") {
        Rgba { r: 255, g: 220, b: 40, a: 255 }
    } else if str_eq(name, "green") {
        Rgba { r: 50, g: 190, b: 70, a: 255 }
    } else if str_eq(name, "blue") {
        Rgba { r: 80, g: 150, b: 255, a: 255 }
    } else if str_eq(name, "pink") {
        Rgba { r: 255, g: 110, b: 170, a: 255 }
    } else {
        Rgba { r: 0, g: 0, b: 0, a: 0 }
    }
}

/// The text colour on a mark of the colour named `name`.
pub fn mark_text_color(name: &str) -> (c: Rgba)
    ensures
        c == mark_text_color_spec(name@),
{
    if str_eq(name, "yellow") {
        Rgba { r: 30, g: 20, b: 0, a: 255 }
    } else if str_eq(name, "blue") {
        Rgba { r: 255, g: 255, b: 255, a: 255 }
    } else {
        Rgba { r: 0, g: 0, b: 0, a: 255 }
    }
}

/// The toolbar dot of the marker colour named `name`.
pub fn mark_color_opaque(name: &str) -> (c: Rgba)
    ensures
        c == mark_color_opaque_spec(name@),
{
    if str_eq(name, "yellow") {
        Rgba { r: 255, g: 210, b: 30, a: 255 }
    } else if str_eq(name, "green") {
        Rgba { r: 60, g: 185, b: 70, a: 255 }
    } else if str_eq(name, "blue") {
        Rgba { r: 60, g: 130, b: 240, a: 255 }
    } else if str_eq(name, "pink") {
        Rgba { r: 240, g: 90, b: 150, a: 255 }
    } else {
        Rgba { r: 0, g: 0, b: 0, a: 0 }
    }
}

/// What happens to a word's mark.
#[derive(PartialEq, Eq, Structural, Clone, Copy, Debug)]
pub enum WordMarkAction {
    /// The mark stays as it is.
    Keep,
    /// The word is marked with the marker's colour.
    Mark,
    /// The word's mark is removed.
    Clear,
}

/// Whether the marker acts on a word: when it is clicked, or when the pointer
/// passes over it with the button held during a drag while a marker colour
/// is chosen.
pub open spec fn marker_applies(
    clicked: bool,
    hovered: bool,
    button_down: bool,
    dragging: bool,
    marker_on: bool,
) -> bool {
    clicked || (hovered && button_down && dragging && marker_on)
}

/// Whether the marker acts on a word.
pub fn should_apply_mark(
    clicked: bool,
    hovered: bool,
    button_down: bool,
    dragging: bool,
    marker_on: bool,
) -> (r: bool)
    ensures
        r == marker_applies(clicked, hovered, button_down, dragging, marker_on),
        clicked ==> r,
        !clicked && !hovered ==> !r,
        !clicked && !button_down ==> !r,
        !clicked && !dragging ==> !r,
        !clicked && !marker_on ==> !r,
        hovered && button_down && dragging && marker_on ==> r,
{
    proof {
        lemma_marker_applies_where_pointed(clicked, hovered, button_down, dragging, marker_on);
    }
    clicked || (hovered && button_down && dragging && marker_on)
}

/// The marker acts on a word that is clicked, and on one that is not clicked
/// only while the pointer is over it, the button is held, a drag is under way
/// and a marker colour is chosen: during a drag, words the pointer does not
/// pass over stay as they are.
pub proof fn lemma_marker_applies_where_pointed(
    clicked: bool,
    hovered: bool,
    button_down: bool,
    dragging: bool,
    marker_on: bool,
)
    ensures
        clicked ==> marker_applies(clicked, hovered, button_down, dragging, marker_on),
        !clicked && !hovered ==> !marker_applies(
            clicked,
            hovered,
            button_down,
            dragging,
            marker_on,
        ),
        !clicked && !button_down ==> !marker_applies(
            clicked,
            hovered,
            button_down,
            dragging,
            marker_on,
        ),
        !clicked && !dragging ==> !marker_applies(
            clicked,
            hovered,
            button_down,
            dragging,
            marker_on,
        ),
        !clicked && !marker_on ==> !marker_applies(
            clicked,
            hovered,
            button_down,
            dragging,
            marker_on,
        ),
        hovered && button_down && dragging && marker_on ==> marker_applies(
            clicked,
            hovered,
            button_down,
            dragging,
            marker_on,
        ),
{
}

/// The view of an optional colour name.
pub open spec fn name_view(n: Option<&str>) -> Option<Seq<char>> {
    match n {
        Some(s) => Some(s@),
        None => None,
    }
}

/// What the marker with colour `active` (none when the marker is off) does
/// to a word marked `current` when it acts on it: a word already in that
/// colour loses its mark, any other takes the colour.
pub open spec fn word_mark_action_spec(active: Option<Seq<char>>, current: Option<Seq<char>>, applies: bool) -> WordMarkAction {
    if !applies {
        WordMarkAction::Keep
    } else {
        match active {
            None => WordMarkAction::Keep,
            Some(c) => if current == Some(c) {
                WordMarkAction::Clear
            } else {
                WordMarkAction::Mark
            },
        }
    }
}

/// What the marker does to a word.
pub fn word_mark_action(active: Option<&str>, current: Option<&str>, applies: bool) -> (r: WordMarkAction)
    ensures
        r == word_mark_action_spec(name_view(active), name_view(current), applies),
{
    if !applies {
        return WordMarkAction::Keep;
    }
    match active {
        None => WordMarkAction::Keep,
        Some(c) => {
            let same = match current {
                Some(w) => str_eq(w, c),
                None => false,
            };
            if same {
                WordMarkAction::Clear
            } else {
                WordMarkAction::Mark
            }
        },
    }
}

/// The marker colour after the toolbar button of colour `color` is pressed:
/// pressing the colour already chosen turns the marker off, any other chooses
/// it.
pub fn toggle_marker(current: Option<&'static str>, color: &'static str) -> (r: Option<&'static str>)
    ensures
        name_view(current) == Some(color@) ==> r is None,
        name_view(current) != Some(color@) ==> r == Some(color),
{
    let same = match current {
        Some(c) => str_eq(c, color),
        None => false,
    };
    if same {
        None
    } else {
        Some(color)
    }
}

/// Whether a drag that marks words goes on into this frame: only while the
/// button stays held.
pub fn drag_continues(dragging: bool, button_down: bool) -> (r: bool)
    ensures
        r == (dragging && button_down),
{
    dragging && button_down
}

/// Whether a drag that marks words starts on a word: a drag begins on it while
/// a marker colour is chosen.
pub fn drag_starts(drag_started: bool, marker_on: bool) -> (r: bool)
    ensures
        r == (drag_started && marker_on),
{
    drag_started && marker_on
}

/// A word's mark after `action` by the marker with colour `active`.
pub open spec fn mark_after(current: Option<Seq<char>>, active: Seq<char>, action: WordMarkAction) -> Option<Seq<char>> {
    match action {
        WordMarkAction::Keep => current,
        WordMarkAction::Mark => Some(active),
        WordMarkAction::Clear => None,
    }
}

/// Law: the marker toggles: acting on a word with colour `c` marks it `c`
/// exactly when it was not marked `c`, and acting on it twice gives back an
/// unmarked word its unmarked state and a word marked `c` its mark.
pub proof fn lemma_marker_toggles(current: Option<Seq<char>>, c: Seq<char>)
    ensures
        mark_after(current, c, word_mark_action_spec(Some(c), current, true)) == Some(c) <==> current
            != Some(c),
        ({
            let once = mark_after(current, c, word_mark_action_spec(Some(c), current, true));
            let twice = mark_after(once, c, word_mark_action_spec(Some(c), once, true));
            (current is None || current == Some(c)) ==> twice == current
        }),
{
}

} // verus!
