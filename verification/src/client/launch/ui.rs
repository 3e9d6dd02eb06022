//! The launch controls: the countdown banner, the Lock button and the Launch button.

use crate::client::launch::{LaunchLocal, NetLaunch, SpPhase, LAUNCH_COUNTDOWN, SECOND};
use crate::client::render_secondary_pass::assembly::Joint;
use crate::lists::contains;
use crate::text::{decimal, to_decimal};
use vstd::prelude::*;
use vstd::string::*;

verus! {

/// Height of the Launch button below the top edge.
pub const LAUNCH_BUTTON_Y: u32 = 24;

/// Height of the Lock button on the pad, and in flight, where the flight readout takes the
/// top.
pub const LOCK_BUTTON_Y_IDLE: u32 = 72;

pub const LOCK_BUTTON_Y_FLIGHT: u32 = 168;

/// Height of the banner on the pad and in flight.
pub const BANNER_Y_IDLE: u32 = 132;

pub const BANNER_Y_FLIGHT: u32 = 232;

/// A pair of colliders that the character takes part in.
#[derive(Clone, Copy, Debug, PartialEq, Eq, Structural)]
pub struct Contact {
    pub collider1: u64,
    pub collider2: u64,
    pub touching: bool,
}

/// A replicated weld of a player to a part.
#[derive(Clone, Copy, Debug, PartialEq, Eq, Structural)]
pub struct LockWeld {
    pub player: u64,
    pub part: u64,
}

/// What the launch controls depend on.
pub struct RoomView {
    pub multiplayer: bool,
    pub orb: Option<NetLaunch>,
    /// This client's id, while connected.
    pub my_id: Option<u64>,
    /// The local character's body.
    pub character: Option<u64>,
    /// Collider pairs of the character.
    pub contacts: Vec<Contact>,
    /// Bodies of the main assembly.
    pub members: Vec<u64>,
    /// Multiplayer: part ids of the main assembly.
    pub assembly_ids: Vec<u64>,
    /// Multiplayer: every player in the room.
    pub players: Vec<u64>,
    /// Multiplayer: the lock welds.
    pub net_welds: Vec<LockWeld>,
    /// Single player: the lock welds, the character first and the part second.
    pub sp_welds: Vec<Joint>,
}

/// The other end of a contact of `character`.
pub open spec fn other_end(contact: Contact, character: u64) -> u64 {
    if contact.collider1 == character {
        contact.collider2
    } else {
        contact.collider1
    }
}

/// Whether the character is in contact with a body of `members`.
pub open spec fn touches(character: Option<u64>, contacts: Seq<Contact>, members: Seq<u64>) -> bool {
    character is Some && exists|k: int|
        0 <= k < contacts.len() && (#[trigger] contacts[k]).touching && members.contains(
            other_end(contacts[k], character->0),
        )
}

/// Whether `player` is welded to a part of the main assembly.
pub open spec fn aboard(welds: Seq<LockWeld>, assembly_ids: Seq<u64>, player: u64) -> bool {
    exists|k: int|
        0 <= k < welds.len() && (#[trigger] welds[k]).player == player && assembly_ids.contains(
            welds[k].part,
        )
}

impl RoomView {
    /// Countdown that is left.
    pub open spec fn counting(self, local: LaunchLocal) -> u64 {
        if self.multiplayer {
            match self.orb {
                Some(l) => l.remaining,
                None => 0,
            }
        } else {
            match local.sp {
                SpPhase::Countdown { remaining } => remaining,
                _ => 0,
            }
        }
    }

    /// Whether the room is in flight.
    pub open spec fn launched(self, local: LaunchLocal) -> bool {
        if self.multiplayer {
            self.orb is Some && self.orb->0.launched
        } else {
            local.sp == SpPhase::Launched
        }
    }

    /// Whether a launch can still be started.
    pub open spec fn idle(self, local: LaunchLocal) -> bool {
        self.counting(local) == 0 && !self.launched(local)
    }

    /// Whether the local player is locked to something.
    pub open spec fn my_locked(self) -> bool {
        if self.multiplayer {
            self.my_id is Some && exists|k: int|
                0 <= k < self.net_welds@.len() && (#[trigger] self.net_welds@[k]).player
                    == self.my_id->0
        } else {
            self.sp_welds@.len() > 0
        }
    }

    /// Whether the local character touches the main assembly.
    pub open spec fn touching(self) -> bool {
        touches(self.character, self.contacts@, self.members@)
    }

    /// Whether every player is locked to the main assembly.
    pub open spec fn all_aboard(self) -> bool {
        if self.multiplayer {
            self.players@.len() > 0 && forall|i: int|
                0 <= i < self.players@.len() ==> aboard(
                    self.net_welds@,
                    self.assembly_ids@,
                    #[trigger] self.players@[i],
                )
        } else {
            exists|k: int|
                0 <= k < self.sp_welds@.len() && self.members@.contains(
                    (#[trigger] self.sp_welds@[k]).body2,
                )
        }
    }

    /// Whether the Lock button is there: on the assembly, and always while locked.
    pub open spec fn lock_shown(self) -> bool {
        self.my_locked() || self.touching()
    }

    /// Whether the Launch button is there.
    pub open spec fn launch_shown(self, local: LaunchLocal) -> bool {
        self.idle(local) && self.all_aboard() && (self.touching() || self.my_locked())
    }

    /// What the banner says.
    pub open spec fn banner(self, local: LaunchLocal) -> Option<Seq<char>> {
        if local.banner > 0 {
            Some("Blastoff!"@)
        } else if self.counting(local) > 0 {
            Some(decimal(count(self.counting(local)) as nat))
        } else {
            None
        }
    }
}

/// The number that is called out with `remaining` to go: whole seconds, rounded up, and
/// never below one.
pub open spec fn count(remaining: u64) -> int {
    let secs = (remaining + SECOND - 1) / (SECOND as int);
    if secs < 1 {
        1
    } else if secs > 0x7fff_ffff {
        0x7fff_ffff
    } else {
        secs
    }
}

/// The word of the countdown: "3" while 2 s < t <= 3 s, and so on.
pub fn countdown_word(remaining: u64) -> (word: String)
    ensures
        word@ == decimal(count(remaining) as nat),
{
    let whole: u64 = remaining / SECOND;
    let secs: u64 = if remaining % SECOND == 0 { whole } else { whole + 1 };
    let shown: u64 = if secs < 1 {
        1
    } else if secs > 0x7fff_ffff {
        0x7fff_ffff
    } else {
        secs
    };
    to_decimal(shown)
}

/// Whether the character is in contact with a body of the assembly.
pub fn character_touches_assembly(
    character: Option<u64>,
    contacts: &[Contact],
    members: &[u64],
) -> (touching: bool)
    ensures
        touching == touches(character, contacts@, members@),
{
    let me: u64 = match character {
        Some(c) => c,
        None => {
            return false;
        },
    };
    if members.len() == 0 {
        return false;
    }
    let mut i: usize = 0;
    while i < contacts.len()
        invariant
            i <= contacts.len(),
            character == Some(me),
            forall|k: int|
                0 <= k < i ==> !((#[trigger] contacts@[k]).touching && members@.contains(
                    other_end(contacts@[k], me),
                )),
        decreases contacts.len() - i,
    {
        let pair: Contact = contacts[i];
        if pair.touching {
            let other: u64 = if pair.collider1 == me { pair.collider2 } else { pair.collider1 };
            if contains(members, other) {
                assert(contacts@[i as int].touching);
                return true;
            }
        }
        i = i + 1;
    }
    false
}

fn is_aboard(welds: &[LockWeld], assembly_ids: &[u64], player: u64) -> (yes: bool)
    ensures
        yes == aboard(welds@, assembly_ids@, player),
{
    let mut i: usize = 0;
    while i < welds.len()
        invariant
            i <= welds.len(),
            forall|k: int|
                0 <= k < i ==> !((#[trigger] welds@[k]).player == player && assembly_ids@.contains(
                    welds@[k].part,
                )),
        decreases welds.len() - i,
    {
        if welds[i].player == player && contains(assembly_ids, welds[i].part) {
            assert(welds@[i as int].player == player);
            return true;
        }
        i = i + 1;
    }
    false
}

fn everyone_aboard(view: &RoomView) -> (yes: bool)
    ensures
        yes == view.all_aboard(),
{
    let mut i: usize = 0;
    if view.multiplayer {
        while i < view.players.len()
            invariant
                i <= view.players.len(),
                view.multiplayer,
                forall|k: int|
                    0 <= k < i ==> aboard(
                        view.net_welds@,
                        view.assembly_ids@,
                        #[trigger] view.players@[k],
                    ),
            decreases view.players.len() - i,
        {
            if !is_aboard(&view.net_welds, &view.assembly_ids, view.players[i]) {
                assert(!aboard(view.net_welds@, view.assembly_ids@, view.players@[i as int]));
                return false;
            }
            i = i + 1;
        }
        return view.players.len() > 0;
    }
    while i < view.sp_welds.len()
        invariant
            i <= view.sp_welds.len(),
            !view.multiplayer,
            forall|k: int|
                0 <= k < i ==> !view.members@.contains((#[trigger] view.sp_welds@[k]).body2),
        decreases view.sp_welds.len() - i,
    {
        if contains(&view.members, view.sp_welds[i].body2) {
            assert(view.members@.contains(view.sp_welds@[i as int].body2));
            return true;
        }
        i = i + 1;
    }
    false
}

fn is_locked(view: &RoomView) -> (yes: bool)
    ensures
        yes == view.my_locked(),
{
    if !view.multiplayer {
        return view.sp_welds.len() > 0;
    }
    let me: u64 = match view.my_id {
        Some(id) => id,
        None => {
            return false;
        },
    };
    let mut i: usize = 0;
    while i < view.net_welds.len()
        invariant
            i <= view.net_welds.len(),
            view.multiplayer,
            view.my_id == Some(me),
            forall|k: int| 0 <= k < i ==> (#[trigger] view.net_welds@[k]).player != me,
        decreases view.net_welds.len() - i,
    {
        if view.net_welds[i].player == me {
            assert(view.net_welds@[i as int].player == me);
            return true;
        }
        i = i + 1;
    }
    false
}

/// The Lock button: what a press asks for, and where it is drawn.
#[derive(Clone, Copy, Debug, PartialEq, Eq, Structural)]
pub struct LockButton {
    /// `false` labels the button "Unlock", `true` labels it "Lock"; a press asks for it.
    pub lock: bool,
    pub y: u32,
}

/// What the launch controls show.
pub struct LaunchUi {
    /// The big word in the middle, and how far down it stands.
    pub banner: Option<String>,
    pub banner_y: u32,
    pub lock: Option<LockButton>,
    /// Whether the Launch button is there, at [`LAUNCH_BUTTON_Y`].
    pub launch: bool,
}

/// What the launch controls show in this frame.
pub fn show_launch_ui(local: &LaunchLocal, view: &RoomView) -> (ui: LaunchUi)
    ensures
        match (ui.banner, view.banner(*local)) {
            (Some(text), Some(want)) => text@ == want,
            (None, None) => true,
            _ => false,
        },
        ui.banner_y == (if view.launched(*local) {
            BANNER_Y_FLIGHT
        } else {
            BANNER_Y_IDLE
        }),
        ui.lock == (if view.lock_shown() {
            Some(
                (LockButton {
                    lock: !view.my_locked(),
                    y: if view.launched(*local) {
                        LOCK_BUTTON_Y_FLIGHT
                    } else {
                        LOCK_BUTTON_Y_IDLE
                    },
                }),
            )
        } else {
            None
        }),
        ui.launch == view.launch_shown(*local),
{
    let counting: u64 = if view.multiplayer {
        match view.orb {
            Some(l) => l.remaining,
            None => 0,
        }
    } else {
        match local.sp {
            SpPhase::Countdown { remaining } => remaining,
            _ => 0,
        }
    };
    let launched: bool = if view.multiplayer {
        match view.orb {
            Some(l) => l.launched,
            None => false,
        }
    } else {
        local.sp_launched()
    };
    let idle: bool = counting == 0 && !launched;
    let banner: Option<String> = if local.banner > 0 {
        Some(String::from_str("Blastoff!"))
    } else if counting > 0 {
        Some(countdown_word(counting))
    } else {
        None
    };
    let my_locked: bool = is_locked(view);
    // A locked rider in flight needs neither scan: both only bring a button in.
    let scan: bool = !my_locked || idle;
    let touching: bool = scan && character_touches_assembly(
        view.character,
        &view.contacts,
        &view.members,
    );
    let all_aboard: bool = scan && idle && everyone_aboard(view);
    let lock: Option<LockButton> = if my_locked || touching {
        Some(
            LockButton {
                lock: !my_locked,
                y: if launched { LOCK_BUTTON_Y_FLIGHT } else { LOCK_BUTTON_Y_IDLE },
            },
        )
    } else {
        None
    };
    LaunchUi {
        banner,
        banner_y: if launched { BANNER_Y_FLIGHT } else { BANNER_Y_IDLE },
        lock,
        launch: idle && all_aboard && (touching || my_locked),
    }
}

/// What a press of the Lock or the Launch button leads to.
#[derive(Clone, Copy, Debug, PartialEq, Eq, Structural)]
pub enum Press {
    Nothing,
    /// Ask the server to lock or unlock this player.
    SendLock(bool),
    /// Lock or unlock the local character.
    ApplyLock(bool),
    /// Ask the server to launch.
    SendLaunch,
}

/// A press of the Lock button. Without a link to the server it is lost.
pub fn press_lock(button: &LockButton, multiplayer: bool, linked: bool) -> (press: Press)
    ensures
        press == (if !multiplayer {
            Press::ApplyLock(button.lock)
        } else if linked {
            Press::SendLock(button.lock)
        } else {
            Press::Nothing
        }),
{
    if !multiplayer {
        Press::ApplyLock(button.lock)
    } else if linked {
        Press::SendLock(button.lock)
    } else {
        Press::Nothing
    }
}

/// A press of the Launch button: starts the countdown, or asks the server to.
pub fn press_launch(local: &mut LaunchLocal, multiplayer: bool, linked: bool) -> (press: Press)
    ensures
        press == (if multiplayer && linked {
            Press::SendLaunch
        } else {
            Press::Nothing
        }),
        *final(local) == (if multiplayer {
            *old(local)
        } else {
            LaunchLocal { sp: SpPhase::Countdown { remaining: LAUNCH_COUNTDOWN }, ..*old(local) }
        }),
{
    if multiplayer {
        if linked {
            return Press::SendLaunch;
        }
        return Press::Nothing;
    }
    local.sp = SpPhase::Countdown { remaining: LAUNCH_COUNTDOWN };
    Press::Nothing
}

/// What becomes of the local character's welds.
#[derive(Clone, Copy, Debug, PartialEq, Eq, Structural)]
pub enum LockChange {
    Keep,
    /// Weld the character to every part within the weld gap.
    Weld(u64),
    /// Dissolve the character's welds.
    Dissolve(u64),
}

/// Whether a weld of `character` exists.
pub open spec fn has_weld(welds: Seq<Joint>, character: u64) -> bool {
    exists|k: int| 0 <= k < welds.len() && (#[trigger] welds[k]).body1 == character
}

/// Applies the last of the buffered lock presses.
pub fn sp_apply_lock(toggles: &[bool], character: Option<u64>, welds: &[Joint]) -> (change:
    LockChange)
    ensures
        change == (if toggles@.len() == 0 || character is None {
            LockChange::Keep
        } else if !toggles@.last() {
            LockChange::Dissolve(character->0)
        } else if has_weld(welds@, character->0) {
            LockChange::Keep
        } else {
            LockChange::Weld(character->0)
        }),
{
    if toggles.len() == 0 {
        return LockChange::Keep;
    }
    let want: bool = toggles[toggles.len() - 1];
    let me: u64 = match character {
        Some(c) => c,
        None => {
            return LockChange::Keep;
        },
    };
    if !want {
        return LockChange::Dissolve(me);
    }
    let mut i: usize = 0;
    while i < welds.len()
        invariant
            i <= welds.len(),
            toggles@.len() > 0,
            toggles@.last(),
            character == Some(me),
            forall|k: int| 0 <= k < i ==> (#[trigger] welds@[k]).body1 != me,
        decreases welds.len() - i,
    {
        if welds[i].body1 == me {
            assert(welds@[i as int].body1 == me);
            return LockChange::Keep;
        }
        i = i + 1;
    }
    LockChange::Weld(me)
}

/// The Launch button is there only once every player in the room is locked to the
/// assembly, and never while a launch counts down or flies.
pub proof fn law_launch_waits_for_everyone(local: LaunchLocal, view: RoomView, i: int)
    requires
        view.launch_shown(local),
        view.multiplayer,
        0 <= i < view.players@.len(),
    ensures
        aboard(view.net_welds@, view.assembly_ids@, view.players@[i]),
        !view.launched(local),
        view.counting(local) == 0,
{
}

/// A single player who is idle and welded to a part of the main assembly is offered the Launch
/// button; without such a weld, or once the countdown runs, they are not.
pub proof fn law_a_welded_player_can_launch(local: LaunchLocal, view: RoomView)
    requires
        !view.multiplayer,
    ensures
        view.launch_shown(local) <==> {
            &&& local.sp == SpPhase::Idle || local.sp == (SpPhase::Countdown { remaining: 0 })
            &&& exists|k: int|
                0 <= k < view.sp_welds@.len() && view.members@.contains(
                    (#[trigger] view.sp_welds@[k]).body2,
                )
        },
{
}

/// In a room the Launch button is there once nothing counts down or flies, every player is
/// welded to a part of the main assembly, and this player is welded to something or stands on
/// the assembly. Nobody else can hold it back.
pub proof fn law_a_full_room_can_launch(local: LaunchLocal, view: RoomView)
    requires
        view.multiplayer,
        view.orb matches Some(orb) ==> orb.remaining == 0 && !orb.launched,
        view.players@.len() > 0,
        forall|i: int|
            0 <= i < view.players@.len() ==> exists|k: int|
                0 <= k < view.net_welds@.len() && #[trigger] view.net_welds@[k].player
                    == #[trigger] view.players@[i] && view.assembly_ids@.contains(
                    view.net_welds@[k].part,
                ),
        (view.my_id is Some && view.players@.contains(view.my_id->0)) || (view.my_id is Some
            && exists|k: int|
            0 <= k < view.net_welds@.len() && #[trigger] view.net_welds@[k].player
                == view.my_id->0) || (view.character is Some && exists|k: int|
            0 <= k < view.contacts@.len() && #[trigger] view.contacts@[k].touching
                && view.contacts@[k].collider1 == view.character->0 && view.members@.contains(
                view.contacts@[k].collider2,
            )),
    ensures
        view.launch_shown(local),
{
    assert forall|i: int| 0 <= i < view.players@.len() implies aboard(
        view.net_welds@,
        view.assembly_ids@,
        #[trigger] view.players@[i],
    ) by {
        let k = choose|k: int|
            0 <= k < view.net_welds@.len() && #[trigger] view.net_welds@[k].player
                == view.players@[i] && view.assembly_ids@.contains(view.net_welds@[k].part);
        assert(view.net_welds@[k].player == view.players@[i]);
    }
    if view.my_id is Some && view.players@.contains(view.my_id->0) {
        let i = view.players@.index_of(view.my_id->0);
        assert(view.players@[i] == view.my_id->0);
        assert(aboard(view.net_welds@, view.assembly_ids@, view.players@[i]));
        assert(view.my_locked());
    }
}

/// While a countdown runs, in flight, or with anybody not welded to the main assembly, nobody is
/// offered the Launch button; nor is a player who is neither welded nor on the assembly.
pub proof fn law_launch_is_held_back(local: LaunchLocal, view: RoomView, i: int)
    requires
        view.multiplayer,
        (view.orb is Some && (view.orb->0.remaining > 0 || view.orb->0.launched))
            || view.players@.len() == 0 || (0 <= i < view.players@.len() && forall|k: int|
            0 <= k < view.net_welds@.len() && #[trigger] view.net_welds@[k].player
                == view.players@[i] ==> !view.assembly_ids@.contains(view.net_welds@[k].part))
            || (view.contacts@.len() == 0 && view.net_welds@.len() == 0),
    ensures
        !view.launch_shown(local),
{
    if 0 <= i < view.players@.len() && view.launch_shown(local) {
        assert(aboard(view.net_welds@, view.assembly_ids@, view.players@[i]));
    }
}

/// The Lock button is there for whoever stands on the main assembly and for whoever is welded,
/// and for nobody else.
pub proof fn law_lock_is_offered_on_the_assembly(view: RoomView)
    ensures
        view.character is Some && (exists|k: int|
            0 <= k < view.contacts@.len() && #[trigger] view.contacts@[k].touching
                && view.contacts@[k].collider1 == view.character->0 && view.members@.contains(
                view.contacts@[k].collider2,
            )) ==> view.lock_shown(),
        view.character is Some && (exists|k: int|
            0 <= k < view.contacts@.len() && #[trigger] view.contacts@[k].touching
                && view.contacts@[k].collider2 == view.character->0 && view.contacts@[k].collider1
                != view.character->0 && view.members@.contains(view.contacts@[k].collider1))
            ==> view.lock_shown(),
        !view.multiplayer && view.sp_welds@.len() > 0 ==> view.lock_shown(),
        view.multiplayer && view.my_id is Some && (exists|k: int|
            0 <= k < view.net_welds@.len() && #[trigger] view.net_welds@[k].player
                == view.my_id->0) ==> view.lock_shown(),
        view.lock_shown() && !view.my_locked() ==> view.character is Some && exists|k: int|
            0 <= k < view.contacts@.len() && #[trigger] view.contacts@[k].touching && (
            view.members@.contains(view.contacts@[k].collider1) || view.members@.contains(
                view.contacts@[k].collider2,
            )),
        view.my_locked() && view.multiplayer ==> view.my_id is Some && exists|k: int|
            0 <= k < view.net_welds@.len() && #[trigger] view.net_welds@[k].player == view.my_id->0,
        view.my_locked() && !view.multiplayer ==> view.sp_welds@.len() > 0,
{
}

/// "Blastoff!" shows for as long as its time lasts; else the countdown is called out while it
/// runs, in whole seconds rounded up; else nothing.
pub proof fn law_the_countdown_is_called_out(local: LaunchLocal, view: RoomView, left: u64, n: int)
    requires
        view.multiplayer ==> left == (if view.orb is Some {
            view.orb->0.remaining
        } else {
            0
        }),
        !view.multiplayer ==> local.sp == (SpPhase::Countdown { remaining: left }),
        0 < left,
        (n - 1) * 1_000_000_000 < left <= n * 1_000_000_000,
        n <= 0x7fff_ffff,
    ensures
        local.banner > 0 ==> view.banner(local) == Some("Blastoff!"@),
        local.banner == 0 ==> view.banner(local) == Some(decimal(n as nat)),
{
    assert(count(left) == n);
}

/// A locked player can always unlock: the button is there and asks for the opposite.
pub proof fn law_locked_can_unlock(view: RoomView)
    requires
        view.my_locked(),
    ensures
        view.lock_shown(),
{
}

/// While a countdown runs the number called out never grows, and it is at least one.
pub proof fn law_count_goes_down(t: u64, u: u64)
    requires
        t <= u,
    ensures
        1 <= count(t) <= count(u),
{
}

} // verus!
