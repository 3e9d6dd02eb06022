//! The menu and the frame rate.

pub mod menu_state;
pub mod native;
pub mod web;

use super::AppState;
use crate::client::colour::{rgb, Rgba};
use crate::text::{decimal, to_decimal};
use vstd::prelude::*;
use vstd::string::*;

verus! {

/// What can be chosen in the menu.
#[derive(Clone, Copy, Debug, PartialEq, Eq, Structural)]
pub enum Selection {
    Resume,
    Options,
    Multiplayer,
}

/// How tall a button is drawn, in thousandths of a pixel.
pub const BUTTON_HEIGHT: u64 = 65_000;

/// What the pointer does to a button.
#[derive(Clone, Copy, Debug, PartialEq, Eq, Structural)]
pub enum Interaction {
    Clicked,
    Hovered,
    Idle,
}

/// The colours of the buttons.
#[derive(Clone, Copy, Debug, PartialEq, Eq, Structural)]
pub struct ButtonMaterials {
    pub normal: Rgba,
    pub hovered: Rgba,
    pub pressed: Rgba,
}

impl Default for ButtonMaterials {
    fn default() -> (m: Self)
        ensures
            m.normal == (Rgba { r: 150_000, g: 150_000, b: 150_000, a: 1_000_000 }),
            m.hovered == (Rgba { r: 250_000, g: 250_000, b: 250_000, a: 1_000_000 }),
            m.pressed == (Rgba { r: 350_000, g: 350_000, b: 350_000, a: 1_000_000 }),
    {
        ButtonMaterials {
            normal: rgb(150_000, 150_000, 150_000),
            hovered: rgb(250_000, 250_000, 250_000),
            pressed: rgb(350_000, 350_000, 350_000),
        }
    }
}

impl ButtonMaterials {
    /// The colour of a button that the pointer does this to.
    pub open spec fn shown(self, interaction: Interaction) -> Rgba {
        match interaction {
            Interaction::Clicked => self.pressed,
            Interaction::Hovered => self.hovered,
            Interaction::Idle => self.normal,
        }
    }

    pub fn of(&self, interaction: Interaction) -> (c: Rgba)
        ensures
            c == self.shown(interaction),
    {
        match interaction {
            Interaction::Clicked => self.pressed,
            Interaction::Hovered => self.hovered,
            Interaction::Idle => self.normal,
        }
    }
}

/// A button to which the pointer did something.
#[derive(Clone, Copy, Debug, PartialEq, Eq, Structural)]
pub struct Touched {
    pub selection: Selection,
    pub interaction: Interaction,
}

/// The new colours of the buttons, and what was chosen, in their order.
pub fn button_interaction(materials: &ButtonMaterials, touched: &[Touched]) -> (r: (
    Vec<Rgba>,
    Vec<Selection>,
))
    ensures
        r.0@ == touched@.map_values(|t: Touched| materials.shown(t.interaction)),
        r.1@ == touched@.filter(|t: Touched| t.interaction == Interaction::Clicked).map_values(
            |t: Touched| t.selection,
        ),
{
    let mut colours: Vec<Rgba> = Vec::new();
    let mut chosen: Vec<Selection> = Vec::new();
    let ghost clicked = |t: Touched| t.interaction == Interaction::Clicked;
    let ghost selection = |t: Touched| t.selection;
    let mut i: usize = 0;
    proof {
        reveal(Seq::filter);
        assert(touched@.take(0).filter(clicked).map_values(selection) =~= Seq::<Selection>::empty());
    }
    while i < touched.len()
        invariant
            i <= touched.len(),
            clicked == (|t: Touched| t.interaction == Interaction::Clicked),
            selection == (|t: Touched| t.selection),
            colours@.len() == i,
            forall|k: int|
                0 <= k < i ==> #[trigger] colours@[k] == materials.shown(touched@[k].interaction),
            chosen@ == touched@.take(i as int).filter(clicked).map_values(selection),
        decreases touched.len() - i,
    {
        proof {
            reveal(Seq::filter);
            assert(touched@.take(i + 1).drop_last() =~= touched@.take(i as int));
            let kept = touched@.take(i as int).filter(clicked);
            assert(kept.push(touched@[i as int]).map_values(selection) =~= kept.map_values(
                selection,
            ).push(touched@[i as int].selection));
        }
        let t: Touched = touched[i];
        colours.push(materials.of(t.interaction));
        if let Interaction::Clicked = t.interaction {
            chosen.push(t.selection);
        }
        i = i + 1;
    }
    assert(touched@.take(i as int) =~= touched@);
    assert(colours@ =~= touched@.map_values(|t: Touched| materials.shown(t.interaction)));
    (colours, chosen)
}

/// The state that a choice leads to: back to the game, if it was to resume.
pub fn resume(chosen: &[Selection]) -> (next: Option<AppState>)
    ensures
        next == (if chosen@.contains(Selection::Resume) {
            Some(AppState::InGame)
        } else {
            None
        }),
{
    let mut i: usize = 0;
    while i < chosen.len()
        invariant
            i <= chosen.len(),
            forall|k: int| 0 <= k < i ==> chosen@[k] != Selection::Resume,
        decreases chosen.len() - i,
    {
        if let Selection::Resume = chosen[i] {
            assert(chosen@[i as int] == Selection::Resume);
            return Some(AppState::InGame);
        }
        i = i + 1;
    }
    None
}

/// The measures of the menu, in thousandths of a pixel.
#[derive(Clone, Copy, Debug, PartialEq, Eq, Structural)]
pub struct Config {
    pub menu_button_height: u64,
    pub menu_button_width: u64,
    pub menu_button_spacing: u64,
}

/// A button of the menu, `top` below its upper edge.
#[derive(Clone, Copy, Debug, PartialEq, Eq, Structural)]
pub struct MenuButton {
    pub selection: Selection,
    pub top: u64,
}

/// The menu: as wide as its buttons, and as high as they are with the spaces between them.
#[derive(Debug)]
pub struct Menu {
    pub width: u64,
    pub height: u64,
    pub buttons: Vec<MenuButton>,
}

/// How many buttons the menu has, and which, from its top.
pub const MENU_LEN: usize = 3;

pub open spec fn menu_option(i: int) -> Selection {
    if i == 0 {
        Selection::Multiplayer
    } else if i == 1 {
        Selection::Options
    } else {
        Selection::Resume
    }
}

/// The height of a menu of `n` buttons.
pub open spec fn items_height(config: Config, n: int) -> int {
    config.menu_button_height * n + config.menu_button_spacing * (n - 1)
}

/// The largest measure of a menu.
pub const MENU_LIMIT: u64 = 1_000_000_000;

impl Config {
    /// Whether every measure is of a usual size.
    pub open spec fn valid(self) -> bool {
        &&& self.menu_button_height <= MENU_LIMIT
        &&& self.menu_button_width <= MENU_LIMIT
        &&& self.menu_button_spacing <= MENU_LIMIT
    }
}

/// The menu.
pub fn spawn_menu(config: &Config) -> (menu: Menu)
    requires
        config.valid(),
    ensures
        menu.width == config.menu_button_width,
        menu.height == items_height(*config, 3),
        menu.buttons@.len() == MENU_LEN,
        forall|i: int|
            0 <= i < MENU_LEN ==> #[trigger] menu.buttons@[i].selection == menu_option(i)
                && menu.buttons@[i].top == i * (config.menu_button_height
                + config.menu_button_spacing),
{
    let increment: u64 = config.menu_button_height + config.menu_button_spacing;
    let mut buttons: Vec<MenuButton> = Vec::new();
    buttons.push(MenuButton { selection: Selection::Multiplayer, top: 0 });
    buttons.push(MenuButton { selection: Selection::Options, top: increment });
    buttons.push(MenuButton { selection: Selection::Resume, top: 2 * increment });
    Menu {
        width: config.menu_button_width,
        height: config.menu_button_height * 3 + config.menu_button_spacing * 2,
        buttons,
    }
}

/// What is written on a button.
pub open spec fn label(s: Selection) -> Seq<char> {
    match s {
        Selection::Resume => "Resume"@,
        Selection::Options => "Options"@,
        Selection::Multiplayer => "Multiplayer"@,
    }
}

pub fn label_of(s: Selection) -> (text: String)
    ensures
        text@ == label(s),
{
    match s {
        Selection::Resume => String::from_str("Resume"),
        Selection::Options => String::from_str("Options"),
        Selection::Multiplayer => String::from_str("Multiplayer"),
    }
}

/// The state that a key press leads to in the menu.
pub fn close_menu_on_key(escape_just_pressed: bool) -> (next: Option<AppState>)
    ensures
        next == (if escape_just_pressed {
            Some(AppState::InGame)
        } else {
            None
        }),
{
    if escape_just_pressed {
        Some(AppState::InGame)
    } else {
        None
    }
}

/// The state that a key press leads to in the game.
pub fn open_menu_on_key(escape_just_pressed: bool) -> (next: Option<AppState>)
    ensures
        next == (if escape_just_pressed {
            Some(AppState::InGameMenu)
        } else {
            None
        }),
{
    if escape_just_pressed {
        Some(AppState::InGameMenu)
    } else {
        None
    }
}

/// The frame rate as it is shown, from its average in whole frames per second, if there is
/// one.
pub fn update_diagnostics_text(average: Option<u64>) -> (text: String)
    ensures
        text@ == decimal(match average {
            Some(fps) => fps as nat,
            None => 0,
        }) + " FPS"@,
{
    let fps: u64 = match average {
        Some(fps) => fps,
        None => 0,
    };
    let mut text: String = to_decimal(fps);
    text.append(" FPS");
    text
}

/// The law of the menu: its buttons lie one below the other, a space apart, and the last
/// ends at the menu's lower edge.
pub proof fn law_buttons_fill_the_menu(config: Config, i: int)
    requires
        config.valid(),
        0 <= i < MENU_LEN,
    ensures
        ({
            let top = i * (config.menu_button_height + config.menu_button_spacing);
            let next = (i + 1) * (config.menu_button_height + config.menu_button_spacing);
            &&& next == top + config.menu_button_height + config.menu_button_spacing
            &&& i == MENU_LEN - 1 ==> top + config.menu_button_height == items_height(config, 3)
        }),
{
    assert((i + 1) * (config.menu_button_height + config.menu_button_spacing) == i * (
    config.menu_button_height + config.menu_button_spacing) + (config.menu_button_height
        + config.menu_button_spacing)) by (nonlinear_arith);
}

/// A button is as bright as the pointer presses it: each state has its own colour.
pub proof fn law_buttons_show_the_pointer(m: ButtonMaterials)
    ensures
        m.shown(Interaction::Clicked) == m.pressed,
        m.shown(Interaction::Hovered) == m.hovered,
        m.shown(Interaction::Idle) == m.normal,
{
}

/// From the top the menu offers the room, the options and the way back to the game, and each
/// once; a menu of one more button is higher by a button and a space.
pub proof fn law_the_menu_offers_each_once(config: Config, n: int)
    ensures
        menu_option(0) == Selection::Multiplayer,
        menu_option(1) == Selection::Options,
        menu_option(2) == Selection::Resume,
        items_height(config, n + 1) - items_height(config, n) == config.menu_button_height
            + config.menu_button_spacing,
        items_height(config, 1) == config.menu_button_height,
{
    let (h, s) = (config.menu_button_height as int, config.menu_button_spacing as int);
    assert(h * (n + 1) == h * n + h) by (nonlinear_arith);
    assert(s * n == s * (n - 1) + s) by (nonlinear_arith);
}

} // verus!
