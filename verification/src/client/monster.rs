//! Every player is a monster. Which one is assigned, not chosen: it follows from the
//! player's resume id, so that it survives a reload and everybody sees the same.

use vstd::prelude::*;
use vstd::string::*;
use crate::lists::{lemma_pick_none, lemma_pick_step, pick};
use crate::chance::random_number;

verus! {

/// How many monsters there are.
pub const MONSTER_COUNT: u8 = 8;

/// Where a model's clips stand.
pub const ANIM_IDLE: usize = 5;

pub const ANIM_WALK: usize = 8;

/// The height of the feet: half a character below its middle.
pub const FEET_Y: i64 = -750_000;

/// The height of a character.
pub const CHARACTER_HEIGHT: u64 = 1_500_000;

// ---- The models ----------------------------------------------------------------------

/// The name of the model of avatar `index`.
pub open spec fn stem(index: u8) -> Seq<char> {
    match index % 8 {
        0 => "Alien"@,
        1 => "Alien_Tall"@,
        2 => "Ghost"@,
        3 => "GreenDemon"@,
        4 => "Cyclops"@,
        5 => "Demon"@,
        6 => "Yeti"@,
        _ => "Mushroom"@,
    }
}

/// The height of the model at rest, in micrometres.
pub open spec fn model_height(index: u8) -> int {
    match index % 8 {
        0 => 2_060_000,
        1 => 2_110_000,
        2 => 1_400_000,
        3 => 1_620_000,
        4 => 1_670_000,
        5 => 1_620_000,
        6 => 1_670_000,
        _ => 2_070_000,
    }
}

/// `c` in lower case, if it is a letter of ASCII.
pub open spec fn lower(c: char) -> char {
    if 'A' <= c <= 'Z' {
        (c as int + 32) as char
    } else {
        c
    }
}

/// `s` in lower case.
pub open spec fn lowered(s: Seq<char>) -> Seq<char> {
    s.map_values(|c: char| lower(c))
}

/// `s` with a space for every underscore.
pub open spec fn spaced(s: Seq<char>) -> Seq<char> {
    s.map_values(
        |c: char|
            if c == '_' {
                ' '
            } else {
                c
            },
    )
}

/// The name of the model of avatar `index`.
fn avatar_stem(index: u8) -> (s: &'static str)
    ensures
        s@ == stem(index),
{
    match index % 8 {
        0 => "Alien",
        1 => "Alien_Tall",
        2 => "Ghost",
        3 => "GreenDemon",
        4 => "Cyclops",
        5 => "Demon",
        6 => "Yeti",
        _ => "Mushroom",
    }
}

/// The name of the model of avatar `index`, in lower case.
fn lower_stem(index: u8) -> (s: &'static str)
    ensures
        s@ == lowered(stem(index)),
{
    proof {
        reveal_strlit("Alien");
        reveal_strlit("alien");
        reveal_strlit("Alien_Tall");
        reveal_strlit("alien_tall");
        reveal_strlit("Ghost");
        reveal_strlit("ghost");
        reveal_strlit("GreenDemon");
        reveal_strlit("greendemon");
        reveal_strlit("Cyclops");
        reveal_strlit("cyclops");
        reveal_strlit("Demon");
        reveal_strlit("demon");
        reveal_strlit("Yeti");
        reveal_strlit("yeti");
        reveal_strlit("Mushroom");
        reveal_strlit("mushroom");
    }
    let s: &'static str = match index % 8 {
        0 => "alien",
        1 => "alien_tall",
        2 => "ghost",
        3 => "greendemon",
        4 => "cyclops",
        5 => "demon",
        6 => "yeti",
        _ => "mushroom",
    };
    assert(s@ =~= lowered(stem(index)));
    s
}

/// The name of avatar `index` as the picker shows it.
pub fn avatar_name(index: u8) -> (name: String)
    ensures
        name@ == spaced(stem(index)),
{
    let s: &'static str = avatar_stem(index);
    let n: usize = s.unicode_len();
    let mut name: String = String::from_str("");
    let mut i: usize = 0;
    proof {
        reveal_strlit("");
        reveal_strlit(" ");
        assert(name@ =~= spaced(s@.take(0)));
    }
    while i < n
        invariant
            n == s@.len(),
            i <= n,
            name@ == spaced(s@.take(i as int)),
            " "@.len() == 1,
            " "@[0] == ' ',
        decreases n - i,
    {
        let c: char = s.get_char(i);
        let ghost before = name@;
        if c == '_' {
            name.append(" ");
        } else {
            name.append(s.substring_char(i, i + 1));
        }
        assert(name@ =~= spaced(s@.take(i + 1)));
        i = i + 1;
    }
    assert(s@.take(n as int) =~= s@);
    name
}

/// The picture of avatar `index` in the picker.
pub fn avatar_thumbnail_path(index: u8) -> (path: String)
    ensures
        path@ == "monsters/thumbnails/"@ + lowered(stem(index)) + ".png"@,
{
    let mut path: String = String::from_str("monsters/thumbnails/");
    path.append(lower_stem(index));
    path.append(".png");
    path
}

/// A monster to hang under a body.
pub struct MonsterScene {
    pub body: u64,
    pub path: String,
    /// The scale of the model, in millionths.
    pub scale: u64,
    pub feet_y: i64,
    pub displayed: DisplayedMonster,
}

/// The monster that a body shows.
#[derive(Clone, Copy, Debug, PartialEq, Eq, Structural)]
pub struct DisplayedMonster(pub u8);

/// The scale that makes a model as tall as a character.
pub open spec fn model_scale(index: u8) -> int {
    (CHARACTER_HEIGHT * 1_000_000) / model_height(index)
}

/// What hangs under `body` when it shows `monster`: the model, scaled to the height of a
/// character, with its feet at the bottom.
pub fn spawn_monster_visual(body: u64, monster: u8) -> (scene: MonsterScene)
    ensures
        scene.body == body,
        scene.path@ == "monsters/"@ + stem(monster) + ".glb"@,
        scene.scale == model_scale(monster),
        scene.feet_y == FEET_Y,
        scene.displayed == DisplayedMonster(monster),
{
    let mut path: String = String::from_str("monsters/");
    path.append(avatar_stem(monster));
    path.append(".glb");
    let height: u64 = match monster % 8 {
        0 => 2_060_000,
        1 => 2_110_000,
        2 => 1_400_000,
        3 => 1_620_000,
        4 => 1_670_000,
        5 => 1_620_000,
        6 => 1_670_000,
        _ => 2_070_000,
    };
    let scale: u64 = (CHARACTER_HEIGHT * 1_000_000) / height;
    MonsterScene { body, path, scale, feet_y: FEET_Y, displayed: DisplayedMonster(monster) }
}

/// Every monster is as tall as a character, to within three micrometres.
pub proof fn law_monsters_are_one_height(index: u8)
    ensures
        CHARACTER_HEIGHT - 3 <= (model_scale(index) * model_height(index)) / 1_000_000
            <= CHARACTER_HEIGHT,
{
    let h = model_height(index);
    let k = model_scale(index);
    assert(1_400_000 <= h <= 2_110_000);
    let total = CHARACTER_HEIGHT * 1_000_000;
    assert(total - h < k * h <= total) by (nonlinear_arith)
        requires
            k == total / h,
            0 < h,
            0 <= total,
    ;
}

// ---- Who is what ---------------------------------------------------------------------

/// The id that decides a monster: the resume id, or a drawn number where there is none.
pub fn monster_seed(resume_id: u64, drawn: u64) -> (seed: u64)
    ensures
        seed == if resume_id == 0 {
            drawn
        } else {
            resume_id
        },
{
    if resume_id == 0 {
        drawn
    } else {
        resume_id
    }
}

/// The id that decides our monster where the server assigns none. Without a resume id it
/// is another one each time.
pub fn local_monster(resume_id: u64) -> (seed: u64)
    ensures
        resume_id != 0 ==> seed == resume_id,
{
    monster_seed(resume_id, random_number())
}

/// Our monster: the server's word counts, since it is what everybody else sees.
pub fn dress_characters(assigned: Option<u8>, local: u8) -> (monster: u8)
    ensures
        monster == match assigned {
            Some(m) => m,
            None => local,
        },
{
    match assigned {
        Some(m) => m,
        None => local,
    }
}

/// A dressed body: what it should show, what it shows, and what the visual hangs on.
#[derive(Clone, Copy, Debug, PartialEq, Eq, Structural)]
pub struct Dressed {
    pub entity: u64,
    pub assigned: u8,
    pub displayed: DisplayedMonster,
    pub pivot: u64,
}

/// The bodies whose visual has to go, so that they are dressed anew: those that show
/// another monster than they should.
pub fn redress_own_monster(changed: &[Dressed]) -> (undressed: Vec<Dressed>)
    ensures
        undressed@ == pick(
            changed@,
            |d: Dressed| d.assigned != d.displayed.0,
            |d: Dressed| d,
        ),
{
    let ghost p = |d: Dressed| d.assigned != d.displayed.0;
    let ghost f = |d: Dressed| d;
    let mut undressed: Vec<Dressed> = Vec::new();
    let mut i: usize = 0;
    proof {
        lemma_pick_none(changed@, p, f);
    }
    while i < changed.len()
        invariant
            i <= changed.len(),
            p == (|d: Dressed| d.assigned != d.displayed.0),
            f == (|d: Dressed| d),
            undressed@ == pick(changed@.take(i as int), p, f),
        decreases changed.len() - i,
    {
        proof {
            lemma_pick_step(changed@, i as int, p, f);
        }
        let d: Dressed = changed[i];
        if d.assigned != d.displayed.0 {
            undressed.push(d);
        }
        i = i + 1;
    }
    assert(changed@.take(changed.len() as int) =~= changed@);
    undressed
}

/// The turn to write to our monster's pivot: against the look, and only if it changed.
pub fn face_own_monster(yaw: i64, facing: i64) -> (turn: Option<i64>)
    requires
        yaw > i64::MIN,
    ensures
        turn == if facing == -yaw {
            None
        } else {
            Some((-yaw) as i64)
        },
{
    if facing != -yaw {
        Some(-yaw)
    } else {
        None
    }
}

// ---- Animation -----------------------------------------------------------------------

/// A body's clips and the one that plays.
#[derive(Clone, Copy, Debug, PartialEq, Eq, Structural)]
pub struct MonsterAnim {
    pub idle: u32,
    pub walk: u32,
    pub current: u32,
}

/// The first of a scene's nodes that plays animations.
pub fn setup_monster_animation(plays: &[bool]) -> (node: Option<usize>)
    ensures
        match node {
            Some(n) => n < plays@.len() && plays@[n as int] && forall|k: int|
                0 <= k < n ==> !#[trigger] plays@[k],
            None => forall|k: int| 0 <= k < plays@.len() ==> !#[trigger] plays@[k],
        },
{
    let mut i: usize = 0;
    while i < plays.len()
        invariant
            i <= plays.len(),
            forall|k: int| 0 <= k < i ==> !#[trigger] plays@[k],
        decreases plays.len() - i,
    {
        if plays[i] {
            return Some(i);
        }
        i = i + 1;
    }
    None
}

/// Whether a body walks: it has an input of its own, or the server says so. Its own input
/// counts first; how the world moves it never counts.
pub open spec fn walks(input: Option<bool>, replicated: Option<bool>) -> bool {
    match (input, replicated) {
        (Some(pressed), _) => pressed,
        (None, Some(moving)) => moving,
        (None, None) => false,
    }
}

/// The clip to change to, if any. `input` says whether a move or a jump is pressed, where
/// the body is ours; `ready` whether its player is there.
pub fn animate_monsters(
    anim: &mut MonsterAnim,
    input: Option<bool>,
    replicated: Option<bool>,
    ready: bool,
) -> (play: Option<u32>)
    ensures
        ({
            let want = if walks(input, replicated) {
                old(anim).walk
            } else {
                old(anim).idle
            };
            &&& play == if ready && want != old(anim).current {
                Some(want)
            } else {
                None
            }
            &&& *final(anim) == (MonsterAnim {
                current: if play is Some {
                    want
                } else {
                    old(anim).current
                },
                ..*old(anim)
            })
        }),
{
    let moving: bool = match (input, replicated) {
        (Some(pressed), _) => pressed,
        (None, Some(moving)) => moving,
        (None, None) => false,
    };
    let want: u32 = if moving {
        anim.walk
    } else {
        anim.idle
    };
    if want != anim.current && ready {
        anim.current = want;
        Some(want)
    } else {
        None
    }
}

/// A body of ours walks while we press, whatever the server says; another's while the server
/// says so, and one of which nothing is known stands.
pub proof fn law_who_walks(pressed: bool, moving: bool, replicated: Option<bool>)
    ensures
        walks(Some(pressed), replicated) == pressed,
        walks(None, Some(moving)) == moving,
        !walks(None, None),
{
}

/// Avatars go round: eight further on it is the same monster.
pub proof fn law_avatars_go_round(index: u8)
    requires
        index < 248,
    ensures
        stem((index + 8) as u8) == stem(index),
        model_scale((index + 8) as u8) == model_scale(index),
{
}

/// Lower case changes capital letters by their distance to the small ones, and nothing else;
/// the picker shows a space for an underscore, and everything else as it is.
pub proof fn law_names_are_spelled(s: Seq<char>, i: int)
    requires
        0 <= i < s.len(),
    ensures
        lowered(s).len() == s.len(),
        spaced(s).len() == s.len(),
        'A' <= s[i] <= 'Z' ==> lowered(s)[i] as int - s[i] as int == 'a' as int - 'A' as int,
        !('A' <= s[i] <= 'Z') ==> lowered(s)[i] == s[i],
        s[i] == '_' ==> spaced(s)[i] == ' ',
        s[i] != '_' ==> spaced(s)[i] == s[i],
{
}

} // verus!
