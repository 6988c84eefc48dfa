//! Turning the pages of a listing by the buttons under it.
//!
//! A listing shows one page at a time. Its buttons carry names that start with the
//! number of the listing, so that a press can be told from a press under another
//! listing. What a press does is decided here; showing the page is left to the caller.

use crate::text::{natural_text, push_natural};
use vstd::prelude::*;

verus! {

/// A button under a listing.
#[derive(Clone, Copy, Debug, PartialEq, Eq, Structural)]
pub enum Button {
    Previous,
    Next,
    Select,
}

/// What a press comes to.
#[derive(Clone, Copy, Debug, PartialEq, Eq, Structural)]
pub enum PressOutcome {
    /// The press belongs to another listing, or to no button of this one.
    Unrelated,
    /// Someone other than the owner of the listing pressed: the page stays.
    OtherUser,
    /// The page with this number is to be shown.
    Show(usize),
    /// The page with this number was selected, and stays shown.
    Select(usize),
}

/// The word a button's name ends with.
pub open spec fn button_word(button: Button) -> Seq<char> {
    match button {
        Button::Previous => "prev"@,
        Button::Next => "next"@,
        Button::Select => "select"@,
    }
}

/// The name of a button of the listing with the number `listing`.
pub open spec fn button_name(listing: u64, button: Button) -> Seq<char> {
    natural_text(listing as nat) + button_word(button)
}

/// The page after `current` of `pages` pages; the first page after the last.
pub open spec fn page_after(current: usize, pages: usize) -> usize {
    if current + 1 >= pages {
        0
    } else {
        (current + 1) as usize
    }
}

/// The page before `current` of `pages` pages; the last page before the first.
pub open spec fn page_before(current: usize, pages: usize) -> usize {
    if current == 0 {
        (pages - 1) as usize
    } else {
        (current - 1) as usize
    }
}

/// What a press on the button named `pressed` comes to, on page `current` of `pages`
/// pages of the listing `listing`. `by_owner` tells whether the owner of the listing
/// pressed; `selectable` whether the listing has a button to select a page.
pub open spec fn press_outcome(
    current: usize,
    pages: usize,
    listing: u64,
    pressed: Seq<char>,
    by_owner: bool,
    selectable: bool,
) -> PressOutcome {
    if !natural_text(listing as nat).is_prefix_of(pressed) {
        PressOutcome::Unrelated
    } else if !by_owner {
        PressOutcome::OtherUser
    } else if pressed == button_name(listing, Button::Next) {
        PressOutcome::Show(page_after(current, pages))
    } else if pressed == button_name(listing, Button::Previous) {
        PressOutcome::Show(page_before(current, pages))
    } else if selectable && pressed == button_name(listing, Button::Select) {
        PressOutcome::Select(current)
    } else {
        PressOutcome::Unrelated
    }
}

/// `str::starts_with` with a text as the pattern: whether the text begins with the
/// pattern.
#[verifier::external_body]
fn text_starts_with(text: &str, pattern: &str) -> (r: bool)
    ensures
        r == pattern@.is_prefix_of(text@),
{
    text.starts_with(pattern)
}

/// The name of a button of the listing with the number `listing`.
pub fn button_id(listing: u64, button: Button) -> (r: String)
    ensures
        r@ == button_name(listing, button),
{
    let mut out = String::new();
    push_natural(&mut out, listing as u128);
    out.append(
        match button {
            Button::Previous => "prev",
            Button::Next => "next",
            Button::Select => "select",
        },
    );
    assert(out@ =~= button_name(listing, button));
    out
}

/// Decides what a press on the button named `pressed` comes to.
pub fn on_press(
    current: usize,
    pages: usize,
    listing: u64,
    pressed: &String,
    by_owner: bool,
    selectable: bool,
) -> (r: PressOutcome)
    requires
        current < pages,
    ensures
        r == press_outcome(current, pages, listing, pressed@, by_owner, selectable),
{
    let mut prefix = String::new();
    push_natural(&mut prefix, listing as u128);
    assert(prefix@ =~= natural_text(listing as nat));
    if !text_starts_with(pressed.as_str(), prefix.as_str()) {
        return PressOutcome::Unrelated;
    }
    if !by_owner {
        return PressOutcome::OtherUser;
    }
    if *pressed == button_id(listing, Button::Next) {
        if current + 1 >= pages {
            PressOutcome::Show(0)
        } else {
            PressOutcome::Show(current + 1)
        }
    } else if *pressed == button_id(listing, Button::Previous) {
        if current == 0 {
            PressOutcome::Show(pages - 1)
        } else {
            PressOutcome::Show(current - 1)
        }
    } else if selectable && *pressed == button_id(listing, Button::Select) {
        PressOutcome::Select(current)
    } else {
        PressOutcome::Unrelated
    }
}

} // verus!
