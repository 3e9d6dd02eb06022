//! The highlight of the part that the player looks at.

use vstd::prelude::*;
use super::colour::Rgba;

verus! {

/// The colour that a part had before it was highlighted.
#[derive(Clone, Copy, Debug, PartialEq, Eq, Structural)]
pub struct FocusedHighlight {
    pub base_color: Rgba,
}

/// Yellow, as opaque as `c`.
pub open spec fn yellow(c: Rgba) -> Rgba {
    Rgba { r: 1_000_000, g: 1_000_000, b: 0, a: c.a }
}

/// A part that can be highlighted.
#[derive(Clone, Copy, Debug, PartialEq, Eq, Structural)]
pub struct Lightable {
    pub focused: bool,
    /// A rocket: its stripes would stay if only its colour changed.
    pub rocket: bool,
    pub color: Rgba,
    pub highlight: Option<FocusedHighlight>,
    /// The tint of a rocket's whole body.
    pub glow: Option<Rgba>,
}

/// The part once the highlight was added, if it has come into focus.
pub open spec fn highlight_added(part: Lightable) -> Lightable {
    if part.focused && !part.rocket && part.highlight is None {
        Lightable {
            color: yellow(part.color),
            highlight: Some(FocusedHighlight { base_color: part.color }),
            ..part
        }
    } else {
        part
    }
}

/// The part once the highlight was removed, if it has gone out of focus.
pub open spec fn highlight_removed(part: Lightable) -> Lightable {
    match part.highlight {
        Some(h) if !part.focused => Lightable { color: h.base_color, highlight: None, ..part },
        _ => part,
    }
}

/// The part once the glow was added, if it is a rocket that has come into focus.
pub open spec fn glow_added(part: Lightable) -> Lightable {
    if part.focused && part.rocket && part.glow is None {
        Lightable {
            glow: Some(Rgba { r: 1_000_000, g: 1_000_000, b: 0, a: 1_000_000 }),
            ..part
        }
    } else {
        part
    }
}

/// The part once the glow was removed, if it has gone out of focus.
pub open spec fn glow_removed(part: Lightable) -> Lightable {
    if !part.focused && part.glow is Some {
        Lightable { glow: None, ..part }
    } else {
        part
    }
}

/// Makes a part yellow that has come into focus, and remembers its colour.
pub fn focused_add_highlight(part: &mut Lightable)
    ensures
        *final(part) == highlight_added(*old(part)),
{
    if part.focused && !part.rocket && part.highlight.is_none() {
        part.highlight = Some(FocusedHighlight { base_color: part.color });
        part.color = Rgba { r: 1_000_000, g: 1_000_000, b: 0, a: part.color.a };
    }
}

/// Gives a part its colour back that has gone out of focus.
pub fn focused_remove_highlight(part: &mut Lightable)
    ensures
        *final(part) == highlight_removed(*old(part)),
{
    if !part.focused {
        if let Some(h) = part.highlight {
            part.color = h.base_color;
            part.highlight = None;
        }
    }
}

/// Makes a rocket glow yellow all over that has come into focus.
pub fn rocket_focus_add_highlight(part: &mut Lightable)
    ensures
        *final(part) == glow_added(*old(part)),
{
    if part.focused && part.rocket && part.glow.is_none() {
        part.glow = Some(Rgba { r: 1_000_000, g: 1_000_000, b: 0, a: 1_000_000 });
    }
}

/// Ends the glow of a rocket that has gone out of focus.
pub fn rocket_focus_remove_highlight(part: &mut Lightable)
    ensures
        *final(part) == glow_removed(*old(part)),
{
    if !part.focused && part.glow.is_some() {
        part.glow = None;
    }
}

/// The part as the player's focus leaves or finds it.
pub open spec fn with_focus(part: Lightable, focused: bool) -> Lightable {
    Lightable { focused, ..part }
}

/// A part that came into focus and went out of it again looks as it did before, rocket or
/// not.
pub proof fn law_highlight_is_undone(part: Lightable)
    requires
        !part.focused,
        part.highlight is None,
        part.glow is None,
    ensures
        highlight_removed(with_focus(highlight_added(with_focus(part, true)), false)) == part,
        glow_removed(with_focus(glow_added(with_focus(part, true)), false)) == part,
{
}

/// Adding a highlight that is there changes nothing: the colour that was remembered is not
/// lost.
pub proof fn law_highlight_is_added_once(part: Lightable)
    ensures
        highlight_added(highlight_added(part)) == highlight_added(part),
        glow_added(glow_added(part)) == glow_added(part),
{
}

/// A part that comes into focus turns yellow at its own opacity and remembers its colour; a
/// rocket glows instead and keeps its colour.
pub proof fn law_focus_shows_in_yellow(part: Lightable)
    requires
        part.focused,
    ensures
        !part.rocket && part.highlight is None ==> {
            let lit = highlight_added(part);
            &&& lit.color.r == 1_000_000 && lit.color.g == 1_000_000 && lit.color.b == 0
            &&& lit.color.a == part.color.a
            &&& lit.highlight is Some && lit.highlight->0.base_color == part.color
        },
        part.rocket ==> highlight_added(part) == part,
        part.rocket && part.glow is None ==> {
            let lit = glow_added(part);
            &&& lit.glow is Some && lit.glow->0.r == 1_000_000 && lit.glow->0.g == 1_000_000
            &&& lit.glow->0.b == 0
            &&& lit.color == part.color
        },
        !part.rocket ==> glow_added(part) == part,
        highlight_removed(part) == part,
        glow_removed(part) == part,
{
}

/// A part out of focus gets its own colour back, and nothing is added to it.
pub proof fn law_out_of_focus_the_colour_is_back(part: Lightable)
    requires
        !part.focused,
    ensures
        highlight_added(part) == part,
        glow_added(part) == part,
        part.highlight matches Some(h) ==> highlight_removed(part).color == h.base_color
            && highlight_removed(part).highlight is None,
        glow_removed(part).glow is None,
        glow_removed(part).color == part.color,
{
}

} // verus!
