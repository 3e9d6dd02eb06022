//! The multiplayer client: who we are, what we send, and what we take over from the
//! server's world.

use crate::chance::random_number;
use crate::client::render_secondary_pass::assembly::Joint;
use crate::geom::Point;
use crate::lists::{lemma_pick_none, lemma_pick_step, pick};
use crate::text::{parse_number, parsed};
use vstd::prelude::*;
use vstd::string::*;

verus! {

/// Ticks for which a join or delete press is asserted, so that a lost packet does not
/// lose the press.
pub const ATTACH_SEND_TICKS: u32 = 6;

/// Pause between two attempts to reconnect.
pub const RECONNECT_COOLDOWN: u64 = 2_000_000_000;

/// Time between two prediction reports, and between two delete-zone reports.
pub const ROLLBACK_REPORT_EVERY: u64 = 2_000_000_000;

pub const DELETE_ZONE_REPORT_EVERY: u64 = 400_000_000;

/// Bytes of a connect token that are ours.
pub const USER_DATA_LEN: usize = 256;

// ---- Who we are ----------------------------------------------------------------------

/// `b` in upper case, if it is a letter of ASCII.
pub open spec fn upper(b: u8) -> u8 {
    if 'a' as u8 <= b <= 'z' as u8 {
        (b - 32) as u8
    } else {
        b
    }
}

/// Byte `i` of the code's field: the code in upper case, and zeros behind it.
pub open spec fn room_byte(code: Seq<u8>, i: int) -> u8 {
    if i < code.len() {
        upper(code[i])
    } else {
        0
    }
}

fn code_byte(code: &[u8], i: usize) -> (b: u8)
    ensures
        b == room_byte(code@, i as int),
{
    if i < code.len() {
        let b: u8 = code[i];
        if b >= 97 && b <= 122 {
            b - 32
        } else {
            b
        }
    } else {
        0
    }
}

/// A lobby code as the server keys rooms: six bytes, upper case, padded with zeros. No code
/// at all is the shared room.
pub fn room_code_bytes(code: &str) -> (room: [u8; 6])
    ensures
        forall|i: int| 0 <= i < 6 ==> #[trigger] room@[i] == room_byte(code.spec_bytes(), i),
{
    let bytes: &[u8] = code.as_bytes();
    [
        code_byte(bytes, 0),
        code_byte(bytes, 1),
        code_byte(bytes, 2),
        code_byte(bytes, 3),
        code_byte(bytes, 4),
        code_byte(bytes, 5),
    ]
}

/// Codes that differ only in the case of their letters name one room.
pub proof fn law_room_code_ignores_case(a: Seq<u8>, b: Seq<u8>, i: int)
    requires
        a.len() == b.len(),
        forall|k: int| 0 <= k < a.len() ==> upper(#[trigger] a[k]) == upper(b[k]),
        0 <= i,
    ensures
        room_byte(a, i) == room_byte(b, i),
{
    if i < a.len() {
        assert(upper(a[i]) == upper(b[i]));
    }
}

/// The room to report: the code that the environment or the page names, if any.
pub fn multiplayer_room(code: &Option<String>) -> (room: [u8; 6])
    ensures
        match code {
            Some(c) => forall|i: int|
                0 <= i < 6 ==> #[trigger] room@[i] == room_byte(vstd::utf8::encode_utf8(c@), i),
            None => forall|i: int| 0 <= i < 6 ==> #[trigger] room@[i] == 0,
        },
{
    match code {
        Some(c) => room_code_bytes(c.as_str()),
        None => {
            proof {
                reveal_strlit("");
                reveal(vstd::utf8::encode_utf8);
                assert(""@.len() == 0);
                assert("".spec_bytes().len() == 0);
            }
            room_code_bytes("")
        },
    }
}

/// The server to connect to. On the web an empty address is no address.
pub fn multiplayer_target(address: Option<String>, web: bool) -> (target: Option<String>)
    ensures
        match (address, target) {
            (Some(a), Some(t)) => t@ == a@ && !(web && a@.len() == 0),
            (Some(a), None) => web && a@.len() == 0,
            (None, t) => t is None,
        },
{
    match address {
        Some(a) => if web && a.as_str().is_empty() {
            None
        } else {
            Some(a)
        },
        None => None,
    }
}

/// A resume id made of a drawn number. Zero means no resume, so it is never zero.
pub fn fresh_resume_id(drawn: u64) -> (id: u64)
    ensures
        id == drawn | 1,
        id != 0,
        id >= drawn,
{
    assert((drawn | 1) != 0 && (drawn | 1) >= drawn) by (bit_vector);
    drawn | 1
}

/// The resume id that a stored text holds, if it holds one.
pub open spec fn stored_id(stored: Option<Seq<char>>) -> Option<u64> {
    match stored {
        Some(s) => match parsed(s) {
            Some(id) if id != 0 => Some(id),
            _ => None,
        },
        None => None,
    }
}

/// Which id to resume with, and whether it has to be stored.
#[derive(Clone, Copy, Debug, PartialEq, Eq, Structural)]
pub struct ResumeId {
    pub id: u64,
    pub store: bool,
}

/// The view of an optional text.
pub open spec fn opt_view(s: Option<String>) -> Option<Seq<char>> {
    match s {
        Some(t) => Some(t@),
        None => None,
    }
}

/// The id to resume with, given the drawn number.
pub fn choose_resume_id(has_storage: bool, stored: &Option<String>, drawn: u64) -> (r: ResumeId)
    ensures
        r == (if !has_storage {
            ResumeId { id: 0, store: false }
        } else {
            match stored_id(opt_view(*stored)) {
                Some(id) => ResumeId { id, store: false },
                None => ResumeId { id: drawn | 1, store: true },
            }
        }),
        r.store ==> r.id != 0,
{
    if !has_storage {
        return ResumeId { id: 0, store: false };
    }
    if let Some(s) = stored {
        if let Some(id) = parse_number(s.as_str()) {
            if id != 0 {
                return ResumeId { id, store: false };
            }
        }
    }
    ResumeId { id: fresh_resume_id(drawn), store: true }
}

/// The id to resume with: the stored one, or a new one that has to be stored. Without a
/// place to store it there is none.
pub fn resume_id(has_storage: bool, stored: &Option<String>) -> (r: ResumeId)
    ensures
        r.id == 0 <==> !has_storage,
        r.store <==> has_storage && stored_id(opt_view(*stored)) is None,
        has_storage && !r.store ==> Some(r.id) == stored_id(opt_view(*stored)),
{
    choose_resume_id(has_storage, stored, random_number())
}

/// The stored id is found again: what was stored for an id reads back as that id.
pub proof fn law_resume_id_survives_reload(id: u64)
    requires
        id != 0,
    ensures
        stored_id(Some(crate::text::decimal(id as nat))) == Some(id),
{
    crate::text::law_decimal_reads_back(id);
}

/// The `k` lowest bytes of `n`, the lowest first.
pub open spec fn le_bytes(n: nat, k: nat) -> Seq<u8>
    decreases k,
{
    if k == 0 {
        Seq::empty()
    } else {
        seq![(n % 256) as u8] + le_bytes(n / 256, (k - 1) as nat)
    }
}

/// The number whose bytes are `s`, the lowest first.
pub open spec fn le_value(s: Seq<u8>) -> nat
    decreases s.len(),
{
    if s.len() == 0 {
        0
    } else {
        s[0] as nat + 256 * le_value(s.skip(1))
    }
}

/// Our part of a connect token: the resume id in the first eight bytes, and zeros.
pub fn connect_user_data(resume_id: u64) -> (data: Vec<u8>)
    ensures
        data@.len() == USER_DATA_LEN,
        data@.take(8) == le_bytes(resume_id as nat, 8),
        forall|i: int| 8 <= i < USER_DATA_LEN ==> #[trigger] data@[i] == 0,
{
    let mut data: Vec<u8> = Vec::new();
    let mut rest: u64 = resume_id;
    let mut i: usize = 0;
    assert(data@ + le_bytes(rest as nat, 8) =~= le_bytes(resume_id as nat, 8));
    while i < 8
        invariant
            i <= 8,
            data@.len() == i,
            data@ + le_bytes(rest as nat, (8 - i) as nat) == le_bytes(resume_id as nat, 8),
        decreases 8 - i,
    {
        let ghost before = data@;
        let ghost tail = le_bytes(rest as nat / 256, (7 - i) as nat);
        data.push((rest % 256) as u8);
        assert(before + (seq![(rest % 256) as u8] + tail) =~= data@ + tail);
        rest = rest / 256;
        i = i + 1;
    }
    let ghost head = data@;
    assert(head =~= le_bytes(resume_id as nat, 8));
    while i < USER_DATA_LEN
        invariant
            8 <= i <= USER_DATA_LEN,
            data@.len() == i,
            head.len() == 8,
            data@.take(8) == head,
            forall|k: int| 8 <= k < i ==> #[trigger] data@[k] == 0,
        decreases USER_DATA_LEN - i,
    {
        let ghost before = data@;
        data.push(0);
        assert(data@.take(8) =~= before.take(8));
        i = i + 1;
    }
    data
}

proof fn lemma_le_value(n: nat, k: nat)
    ensures
        le_value(le_bytes(n, k)) == n % pow256(k),
        pow256(k) > 0,
    decreases k,
{
    if k == 0 {
        assert(le_bytes(n, 0).len() == 0);
    } else {
        let m = (k - 1) as nat;
        lemma_le_value(n / 256, m);
        assert(le_bytes(n, k).skip(1) =~= le_bytes(n / 256, m));
        assert(le_bytes(n, k)[0] == (n % 256) as u8);
        let p = pow256(m);
        assert(n % (256 * p) == n % 256 + 256 * ((n / 256) % p)) by {
            vstd::arithmetic::div_mod::lemma_mod_breakdown(n as int, 256, p as int);
        }
    }
}

/// 256 to the power `k`.
spec fn pow256(k: nat) -> nat
    decreases k,
{
    if k == 0 {
        1
    } else {
        256 * pow256((k - 1) as nat)
    }
}

proof fn lemma_pow256_large(k: nat)
    ensures
        pow256(k) > 0,
        k >= 8 ==> pow256(k) >= 0x1_0000_0000_0000_0000,
    decreases k,
{
    if k == 8 {
        reveal_with_fuel(pow256, 9);
    } else if k > 0 {
        lemma_pow256_large((k - 1) as nat);
    }
}

/// The server reads back the resume id that the token carries.
pub proof fn law_token_carries_resume_id(id: u64)
    ensures
        le_value(le_bytes(id as nat, 8)) == id,
{
    lemma_le_value(id as nat, 8);
    lemma_pow256_large(8);
    vstd::arithmetic::div_mod::lemma_small_mod(id as nat, pow256(8));
}

/// How a peer is named.
#[derive(Clone, Copy, Debug, PartialEq, Eq, Structural)]
pub enum PeerId {
    Netcode(u64),
    Other,
}

/// Our own id, while connected as a netcode peer.
pub fn my_netcode_id(local: Option<PeerId>) -> (id: Option<u64>)
    ensures
        id == (match local {
            Some(PeerId::Netcode(n)) => Some(n),
            _ => None,
        }),
{
    match local {
        Some(PeerId::Netcode(n)) => Some(n),
        _ => None,
    }
}

/// The address of a server on the local network.
pub fn socket_url(server: &str) -> (url: String)
    ensures
        url@ == "ws://"@ + server@,
{
    let mut url: String = String::from_str("ws://");
    url.append(server);
    url
}

/// What a connection is asked for with.
#[derive(Debug)]
pub struct ConnectRequest {
    /// Who we are during the handshake: another number each time.
    pub client_id: u64,
    /// Seconds after which the server counts as gone, and after which the token does.
    pub timeout_seconds: i32,
    pub expire_seconds: i32,
    /// The key of a server that is not in public use: zeros.
    pub key: [u8; 32],
    pub user_data: Vec<u8>,
}

/// The request of a player who is remembered by `resume_id`.
pub fn build_netcode_client(resume_id: u64) -> (r: ConnectRequest)
    ensures
        r.timeout_seconds == 3,
        r.expire_seconds == 30,
        forall|i: int| 0 <= i < 32 ==> #[trigger] r.key@[i] == 0,
        r.user_data@.len() == USER_DATA_LEN,
        r.user_data@.take(8) == le_bytes(resume_id as nat, 8),
        forall|i: int| 8 <= i < USER_DATA_LEN ==> #[trigger] r.user_data@[i] == 0,
{
    ConnectRequest {
        client_id: random_number(),
        timeout_seconds: 3,
        expire_seconds: 30,
        key: [0u8; 32],
        user_data: connect_user_data(resume_id),
    }
}

/// The address to connect to. A browser goes to its target as it stands; on a desktop the
/// target has to be a host and a port, which `server` then holds. There is none without a
/// target or without a token.
pub fn spawn_client(
    web: bool,
    target: Option<String>,
    server: &Option<String>,
    token_built: bool,
) -> (url: Option<String>)
    ensures
        match url {
            Some(url) => {
                &&& target is Some && token_built
                &&& web ==> url@ == target->0@
                &&& !web ==> server is Some && url@ == "ws://"@ + server->0@
            },
            None => target is None || !token_built || (!web && server is None),
        },
{
    match target {
        None => None,
        Some(target) => if !token_built {
            None
        } else if web {
            Some(target)
        } else {
            match server {
                Some(server) => Some(socket_url(server.as_str())),
                None => None,
            }
        },
    }
}

/// Where the camera looked before the page was loaded anew, in microradians.
#[derive(Clone, Copy, Debug, PartialEq, Eq, Structural)]
pub struct ResumeLook {
    pub yaw: i64,
    pub pitch: i64,
    /// Whether anything was saved.
    pub restored: bool,
}

/// The pieces that are numbers, in their order.
pub open spec fn numbers(pieces: Seq<Option<i64>>) -> Seq<i64> {
    pick(pieces, |p: Option<i64>| p is Some, |p: Option<i64>| p->0)
}

/// The look that was saved, from the pieces between the commas, of which those that are no
/// numbers are passed over: the first two numbers. Without two there is none.
pub fn read_resume_look(pieces: &[Option<i64>]) -> (look: ResumeLook)
    ensures
        look == (if numbers(pieces@).len() >= 2 {
            ResumeLook {
                yaw: numbers(pieces@)[0],
                pitch: numbers(pieces@)[1],
                restored: true,
            }
        } else {
            ResumeLook { yaw: 0, pitch: 0, restored: false }
        }),
{
    let ghost p = |p: Option<i64>| p is Some;
    let ghost f = |p: Option<i64>| p->0;
    let mut found: Vec<i64> = Vec::new();
    let mut i: usize = 0;
    proof {
        lemma_pick_none(pieces@, p, f);
    }
    while i < pieces.len()
        invariant
            i <= pieces.len(),
            p == (|p: Option<i64>| p is Some),
            f == (|p: Option<i64>| p->0),
            found@ == pick(pieces@.take(i as int), p, f),
        decreases pieces.len() - i,
    {
        proof {
            lemma_pick_step(pieces@, i as int, p, f);
        }
        if let Some(n) = pieces[i] {
            found.push(n);
        }
        i = i + 1;
    }
    assert(pieces@.take(i as int) =~= pieces@);
    if found.len() >= 2 {
        ResumeLook { yaw: found[0], pitch: found[1], restored: true }
    } else {
        ResumeLook { yaw: 0, pitch: 0, restored: false }
    }
}

// ---- Our avatar ----------------------------------------------------------------------

/// A predicted avatar that is no character yet.
#[derive(Clone, Copy, Debug, PartialEq, Eq, Structural)]
pub struct NewAvatar {
    pub entity: u64,
    pub client_id: u64,
}

/// An avatar to make our character of; `look` says to restore the saved view on it.
#[derive(Clone, Copy, Debug, PartialEq, Eq, Structural)]
pub struct Adoption {
    pub entity: u64,
    pub look: bool,
}

/// The adoptions among the first `n` avatars: those that are ours. The saved view goes to
/// the first of them, once.
pub open spec fn adoptions(
    avatars: Seq<NewAvatar>,
    me: u64,
    restore: bool,
    n: int,
) -> Seq<Adoption>
    decreases n,
{
    if n <= 0 {
        Seq::empty()
    } else {
        let before = adoptions(avatars, me, restore, n - 1);
        if avatars[n - 1].client_id == me {
            before.push(
                Adoption { entity: avatars[n - 1].entity, look: restore && before.len() == 0 },
            )
        } else {
            before
        }
    }
}

/// The avatars to make our character of. Copies of other players' avatars are left alone.
pub fn setup_predicted_avatar(
    avatars: &[NewAvatar],
    my_id: Option<u64>,
    configured: bool,
    saved_look: bool,
    look_applied: &mut bool,
) -> (adopted: Vec<Adoption>)
    ensures
        adopted@ == (if configured && my_id is Some {
            adoptions(
                avatars@,
                my_id->0,
                saved_look && !*old(look_applied),
                avatars@.len() as int,
            )
        } else {
            Seq::empty()
        }),
        *final(look_applied) == (*old(look_applied) || (saved_look && adopted@.len() > 0)),
{
    let mut adopted: Vec<Adoption> = Vec::new();
    if !configured {
        return adopted;
    }
    let me: u64 = match my_id {
        Some(id) => id,
        None => {
            return adopted;
        },
    };
    let ghost restore = saved_look && !*look_applied;
    let mut i: usize = 0;
    while i < avatars.len()
        invariant
            i <= avatars.len(),
            restore == (saved_look && !*old(look_applied)),
            adopted@ == adoptions(avatars@, me, restore, i as int),
            *look_applied == (*old(look_applied) || (saved_look && adopted@.len() > 0)),
        decreases avatars.len() - i,
    {
        if avatars[i].client_id == me {
            let look: bool = saved_look && !*look_applied;
            adopted.push(Adoption { entity: avatars[i].entity, look });
            if look {
                *look_applied = true;
            }
        }
        i = i + 1;
    }
    adopted
}

/// Only our own avatar becomes our character.
pub proof fn law_only_our_avatar_is_adopted(
    avatars: Seq<NewAvatar>,
    me: u64,
    restore: bool,
    n: int,
    k: int,
)
    requires
        0 <= n <= avatars.len(),
        0 <= k < adoptions(avatars, me, restore, n).len(),
    ensures
        exists|i: int|
            0 <= i < n && (#[trigger] avatars[i]).client_id == me && avatars[i].entity == adoptions(
                avatars,
                me,
                restore,
                n,
            )[k].entity,
    decreases n,
{
    let before = adoptions(avatars, me, restore, n - 1);
    if avatars[n - 1].client_id == me && k == before.len() {
        assert(avatars[n - 1].client_id == me);
    } else {
        law_only_our_avatar_is_adopted(avatars, me, restore, n - 1, k);
        let i = choose|i: int|
            0 <= i < n - 1 && (#[trigger] avatars[i]).client_id == me && avatars[i].entity
                == before[k].entity;
        assert(avatars[i].client_id == me);
    }
}

// ---- What we send --------------------------------------------------------------------

/// An orientation, in millionths.
#[derive(Clone, Copy, Debug, PartialEq, Eq, Structural)]
pub struct Orientation {
    pub x: i64,
    pub y: i64,
    pub z: i64,
    pub w: i64,
}

/// Our intent of a tick, as the server gets it.
#[derive(Clone, Copy, Debug, PartialEq, Eq)]
pub struct NetInput {
    pub move_x: i64,
    pub move_z: i64,
    pub jump: bool,
    pub yaw: i64,
    pub pitch: i64,
    pub grab: bool,
    pub attach: bool,
    pub delete: bool,
    pub room: [u8; 6],
    pub resume_id: u64,
    pub grab_origin: Point,
    pub hold_target: Point,
    pub hold_rotation: Orientation,
}

/// What the local character wants.
#[derive(Clone, Copy, Debug, PartialEq, Eq, Structural)]
pub struct Intent {
    pub direction: Point,
    pub yaw: i64,
    pub pitch: i64,
    pub holding: bool,
}

/// Ticks for which a press is still asserted.
#[derive(Clone, Copy, Debug, PartialEq, Eq, Structural)]
pub struct Latch(pub u32);

impl Latch {
    /// The latch a tick later.
    pub open spec fn lapsed(self) -> Latch {
        if self.0 > 0 {
            Latch((self.0 - 1) as u32)
        } else {
            self
        }
    }
}

/// What is constant or tracked besides the intent.
#[derive(Clone, Copy, Debug, PartialEq, Eq)]
pub struct Session {
    pub room: [u8; 6],
    pub resume_id: u64,
    pub held_rotation: Orientation,
}

/// The input of a tick.
pub open spec fn input_of(
    before: NetInput,
    intent: Intent,
    attach: Latch,
    delete: Latch,
    origin: Option<Point>,
    hold: Option<Point>,
    session: Session,
) -> NetInput {
    let common = NetInput {
        move_x: intent.direction.x,
        move_z: intent.direction.z,
        jump: intent.direction.y != 0,
        yaw: intent.yaw,
        pitch: intent.pitch,
        attach: attach.0 > 0,
        delete: delete.0 > 0,
        room: session.room,
        resume_id: session.resume_id,
        ..before
    };
    match (origin, hold) {
        (Some(o), Some(h)) => NetInput {
            grab_origin: o,
            hold_target: h,
            hold_rotation: session.held_rotation,
            grab: intent.holding,
            ..common
        },
        _ => NetInput { grab: false, ..common },
    }
}

/// Writes our intent into every input that we control, and lets the presses lapse by one
/// tick. Without a character nothing is written and nothing lapses; without a hold point
/// nothing is grabbed.
pub fn write_input(
    character: Option<Intent>,
    origin: Option<Point>,
    hold: Option<Point>,
    want_attach: &mut Latch,
    want_delete: &mut Latch,
    session: &Session,
    controlled: &mut Vec<NetInput>,
)
    ensures
        match character {
            None => *final(want_attach) == *old(want_attach) && *final(want_delete) == *old(
                want_delete,
            ) && final(controlled)@ == old(controlled)@,
            Some(intent) => {
                &&& *final(want_attach) == old(want_attach).lapsed()
                &&& *final(want_delete) == old(want_delete).lapsed()
                &&& final(controlled)@ == old(controlled)@.map_values(
                    |before: NetInput|
                        input_of(
                            before,
                            intent,
                            *old(want_attach),
                            *old(want_delete),
                            origin,
                            hold,
                            *session,
                        ),
                )
            },
        },
        character matches Some(intent) ==> final(controlled)@.len() == old(controlled)@.len()
            && forall|k: int|
            0 <= k < final(controlled)@.len() ==> {
                let sent = #[trigger] final(controlled)@[k];
                &&& sent.move_x == intent.direction.x
                &&& sent.move_z == intent.direction.z
                &&& sent.jump == (intent.direction.y != 0)
                &&& sent.yaw == intent.yaw
                &&& sent.pitch == intent.pitch
                &&& sent.attach == (old(want_attach).0 > 0)
                &&& sent.delete == (old(want_delete).0 > 0)
                &&& sent.room == session.room
                &&& sent.resume_id == session.resume_id
                &&& sent.grab == (intent.holding && origin is Some && hold is Some)
                &&& origin is Some && hold is Some ==> sent.grab_origin == origin->0
                    && sent.hold_target == hold->0 && sent.hold_rotation == session.held_rotation
                &&& !(origin is Some && hold is Some) ==> {
                    let before = old(controlled)@[k];
                    sent.grab_origin == before.grab_origin && sent.hold_target == before.hold_target
                        && sent.hold_rotation == before.hold_rotation
                }
            },
{
    let intent: Intent = match character {
        Some(c) => c,
        None => {
            return;
        },
    };
    let attach: bool = want_attach.0 > 0;
    let delete: bool = want_delete.0 > 0;
    let ghost f = |before: NetInput|
        input_of(before, intent, *old(want_attach), *old(want_delete), origin, hold, *session);
    let mut i: usize = 0;
    while i < controlled.len()
        invariant
            i <= controlled.len() == old(controlled).len(),
            attach == (old(want_attach).0 > 0),
            delete == (old(want_delete).0 > 0),
            f == (|before: NetInput|
                input_of(
                    before,
                    intent,
                    *old(want_attach),
                    *old(want_delete),
                    origin,
                    hold,
                    *session,
                )),
            forall|k: int| 0 <= k < i ==> #[trigger] controlled@[k] == f(old(controlled)@[k]),
            forall|k: int| i <= k < controlled@.len() ==> #[trigger] controlled@[k] == old(controlled)@[k],
        decreases controlled.len() - i,
    {
        let mut state: NetInput = controlled[i];
        state.move_x = intent.direction.x;
        state.move_z = intent.direction.z;
        state.jump = intent.direction.y != 0;
        state.yaw = intent.yaw;
        state.pitch = intent.pitch;
        state.attach = attach;
        state.delete = delete;
        state.room = session.room;
        state.resume_id = session.resume_id;
        match (origin, hold) {
            (Some(o), Some(h)) => {
                state.grab_origin = o;
                state.hold_target = h;
                state.hold_rotation = session.held_rotation;
                state.grab = intent.holding;
            },
            _ => {
                state.grab = false;
            },
        }
        controlled.set(i, state);
        i = i + 1;
    }
    assert(controlled@ =~= old(controlled)@.map_values(f));
    want_attach.0 = want_attach.0.saturating_sub(1);
    want_delete.0 = want_delete.0.saturating_sub(1);
}

/// The server gets what the player wants: the walk and the jump, which way they look, and what
/// they grab, join and delete, each in its own place.
pub proof fn law_the_server_gets_the_intent(
    before: NetInput,
    intent: Intent,
    attach: Latch,
    delete: Latch,
    origin: Option<Point>,
    hold: Option<Point>,
    session: Session,
)
    ensures
        ({
            let sent = input_of(before, intent, attach, delete, origin, hold, session);
            &&& sent.yaw == intent.yaw && sent.pitch == intent.pitch
            &&& sent.move_x == intent.direction.x && sent.move_z == intent.direction.z
            &&& sent.jump <==> intent.direction.y != 0
            &&& sent.attach <==> attach.0 > 0
            &&& sent.delete <==> delete.0 > 0
            &&& sent.grab <==> intent.holding && origin is Some && hold is Some
            &&& sent.grab ==> Some(sent.grab_origin) == origin && Some(sent.hold_target) == hold
                && sent.hold_rotation == session.held_rotation
            &&& sent.room == session.room && sent.resume_id == session.resume_id
        }),
{
}

/// A latch after `n` ticks.
pub open spec fn lapsed_by(latch: Latch, n: nat) -> Latch
    decreases n,
{
    if n == 0 {
        latch
    } else {
        lapsed_by(latch, (n - 1) as nat).lapsed()
    }
}

/// A press is asserted on exactly the first [`ATTACH_SEND_TICKS`] ticks after it.
pub proof fn law_press_is_asserted_for_a_while(n: nat)
    ensures
        lapsed_by(Latch(ATTACH_SEND_TICKS), n).0 > 0 <==> n < ATTACH_SEND_TICKS,
        n <= ATTACH_SEND_TICKS ==> lapsed_by(Latch(ATTACH_SEND_TICKS), n).0 == ATTACH_SEND_TICKS - n,
    decreases n,
{
    if n > 0 {
        law_press_is_asserted_for_a_while((n - 1) as nat);
    }
}

// ---- Grabbing ------------------------------------------------------------------------

/// What clicks change.
#[derive(Clone, Copy, Debug, PartialEq, Eq, Structural)]
pub struct Grab {
    pub holding: bool,
    pub want_attach: Latch,
    pub want_delete: Latch,
}

/// A click. With the modifier it joins what is held, or deletes a joint; without it, it
/// drops what is held, or grabs what is looked at. With nothing to look at it does nothing.
pub open spec fn clicked(g: Grab, modifying: bool, looking_at_part: bool) -> Grab {
    if modifying {
        if g.holding {
            Grab { want_attach: Latch(ATTACH_SEND_TICKS), ..g }
        } else {
            Grab { want_delete: Latch(ATTACH_SEND_TICKS), ..g }
        }
    } else if g.holding {
        Grab { holding: false, ..g }
    } else if looking_at_part {
        Grab { holding: true, ..g }
    } else {
        g
    }
}

/// `n` clicks.
pub open spec fn clicked_times(g: Grab, modifying: bool, looking_at_part: bool, n: nat) -> Grab
    decreases n,
{
    if n == 0 {
        g
    } else {
        clicked(
            clicked_times(g, modifying, looking_at_part, (n - 1) as nat),
            modifying,
            looking_at_part,
        )
    }
}

/// Takes in the clicks of a frame.
pub fn read_grab_intent(g: &mut Grab, clicks: usize, modifying: bool, looking_at_part: bool)
    ensures
        *final(g) == clicked_times(*old(g), modifying, looking_at_part, clicks as nat),
{
    let mut i: usize = 0;
    while i < clicks
        invariant
            i <= clicks,
            *g == clicked_times(*old(g), modifying, looking_at_part, i as nat),
        decreases clicks - i,
    {
        if modifying {
            if g.holding {
                g.want_attach = Latch(ATTACH_SEND_TICKS);
            } else {
                g.want_delete = Latch(ATTACH_SEND_TICKS);
            }
        } else if g.holding {
            g.holding = false;
        } else if looking_at_part {
            g.holding = true;
        }
        i = i + 1;
    }
}

/// A press with nothing in view grabs nothing, now or later.
pub proof fn law_no_blind_grab(g: Grab, n: nat)
    requires
        !g.holding,
    ensures
        clicked_times(g, false, false, n) == g,
    decreases n,
{
    if n > 0 {
        law_no_blind_grab(g, (n - 1) as nat);
    }
}

/// Tracks what an empty-handed player looks at. While holding, the held part stays in
/// focus; without a view (`aimed` is `None`) nothing changes.
pub fn update_focus(focused: &mut Option<u64>, holding: bool, aimed: Option<Option<u64>>)
    ensures
        *final(focused) == (if holding || aimed is None {
            *old(focused)
        } else {
            aimed->0
        }),
{
    if holding {
        return;
    }
    if let Some(part) = aimed {
        *focused = part;
    }
}

/// What happens to the target orientation of the held part.
#[derive(Clone, Copy, Debug, PartialEq, Eq, Structural)]
pub enum HoldTurn {
    Keep,
    /// Take over the part's own orientation.
    Seed,
    /// Turn it on by the rotate gesture.
    Turn,
}

/// Follows the hold: the pickup seeds the orientation, later frames turn it.
pub fn track_hold_rotation(was_holding: &mut bool, holding: bool) -> (turn: HoldTurn)
    ensures
        *final(was_holding) == holding,
        turn == (if !holding {
            HoldTurn::Keep
        } else if !*old(was_holding) {
            HoldTurn::Seed
        } else {
            HoldTurn::Turn
        }),
{
    let just_grabbed: bool = holding && !*was_holding;
    *was_holding = holding;
    if !holding {
        HoldTurn::Keep
    } else if just_grabbed {
        HoldTurn::Seed
    } else {
        HoldTurn::Turn
    }
}

/// The part that our own hold springs, if any.
pub fn predict_hold(holding: bool, focused: Option<u64>, has_hold_point: bool) -> (part: Option<u64>)
    ensures
        part == (if holding && has_hold_point {
            focused
        } else {
            None
        }),
{
    if holding && has_hold_point {
        focused
    } else {
        None
    }
}

/// A part that somebody holds.
#[derive(Clone, Copy, Debug, PartialEq, Eq, Structural)]
pub struct HeldPart {
    pub entity: u64,
    pub holder: u64,
}

/// The parts among the first `n` that others hold.
pub open spec fn held_by_others(parts: Seq<HeldPart>, me: u64, n: int) -> Seq<u64>
    decreases n,
{
    if n <= 0 {
        Seq::empty()
    } else if parts[n - 1].holder == me {
        held_by_others(parts, me, n - 1)
    } else {
        held_by_others(parts, me, n - 1).push(parts[n - 1].entity)
    }
}

/// The parts that others' holds spring here. Our own is left to [`predict_hold`].
pub fn predict_remote_hold(parts: &[HeldPart], my_id: Option<u64>) -> (sprung: Vec<u64>)
    ensures
        sprung@ == (match my_id {
            Some(me) => held_by_others(parts@, me, parts@.len() as int),
            None => Seq::empty(),
        }),
{
    let mut sprung: Vec<u64> = Vec::new();
    let me: u64 = match my_id {
        Some(id) => id,
        None => {
            return sprung;
        },
    };
    let mut i: usize = 0;
    while i < parts.len()
        invariant
            i <= parts.len(),
            sprung@ == held_by_others(parts@, me, i as int),
        decreases parts.len() - i,
    {
        if parts[i].holder != me {
            sprung.push(parts[i].entity);
        }
        i = i + 1;
    }
    sprung
}

/// What to recolour when the focus has moved: the part that lost it and the part that got
/// it.
#[derive(Clone, Copy, Debug, PartialEq, Eq, Structural)]
pub struct Relight {
    pub dim: Option<u64>,
    pub light: Option<u64>,
}

/// Follows the focus with the highlight; nothing is touched while it stays.
pub fn highlight_grabbable(lit: &mut Option<u64>, focused: Option<u64>) -> (change: Relight)
    ensures
        *final(lit) == focused,
        change == (if *old(lit) == focused {
            Relight { dim: None, light: None }
        } else {
            Relight { dim: *old(lit), light: focused }
        }),
{
    let same: bool = match (*lit, focused) {
        (Some(a), Some(b)) => a == b,
        (None, None) => true,
        _ => false,
    };
    if same {
        return Relight { dim: None, light: None };
    }
    let dim: Option<u64> = *lit;
    *lit = focused;
    Relight { dim, light: focused }
}

// ---- Joints --------------------------------------------------------------------------

/// A part as it is replicated.
#[derive(Clone, Copy, Debug, PartialEq, Eq, Structural)]
pub struct ReplicatedPart {
    pub entity: u64,
    pub id: u64,
}

/// A replicated joint with the bodies that it holds here.
#[derive(Clone, Copy, Debug, PartialEq, Eq, Structural)]
pub struct BoundJoint {
    pub joint: u64,
    pub body1: u64,
    pub body2: u64,
}

/// The body of part `id`: the first that has it.
pub open spec fn body_of(parts: Seq<ReplicatedPart>, id: u64) -> Option<u64>
    decreases parts.len(),
{
    if parts.len() == 0 {
        None
    } else if parts[0].id == id {
        Some(parts[0].entity)
    } else {
        body_of(parts.skip(1), id)
    }
}

/// The joints among the first `n` that can be bound: both of their parts are here.
pub open spec fn bindable(joints: Seq<Joint>, parts: Seq<ReplicatedPart>, n: int) -> Seq<BoundJoint>
    decreases n,
{
    if n <= 0 {
        Seq::empty()
    } else {
        let before = bindable(joints, parts, n - 1);
        let joint = joints[n - 1];
        match (body_of(parts, joint.body1), body_of(parts, joint.body2)) {
            (Some(body1), Some(body2)) => before.push(
                BoundJoint { joint: joint.entity, body1, body2 },
            ),
            _ => before,
        }
    }
}

fn find_body(parts: &[ReplicatedPart], id: u64) -> (body: Option<u64>)
    ensures
        body == body_of(parts@, id),
{
    let mut i: usize = 0;
    assert(parts@.skip(0) =~= parts@);
    while i < parts.len()
        invariant
            i <= parts.len(),
            body_of(parts@, id) == body_of(parts@.skip(i as int), id),
        decreases parts.len() - i,
    {
        assert(parts@.skip(i as int)[0] == parts@[i as int]);
        assert(parts@.skip(i as int).skip(1) =~= parts@.skip(i + 1));
        if parts[i].id == id {
            return Some(parts[i].entity);
        }
        i = i + 1;
    }
    None
}

/// The new joints that can be made real here. The others are tried again later. Nothing is
/// bound before the joints have a look.
pub fn bind_replicated_joints(joints: &[Joint], parts: &[ReplicatedPart], has_look: bool) -> (bound:
    Vec<BoundJoint>)
    ensures
        bound@ == (if has_look {
            bindable(joints@, parts@, joints@.len() as int)
        } else {
            Seq::empty()
        }),
{
    let mut bound: Vec<BoundJoint> = Vec::new();
    if !has_look {
        return bound;
    }
    let mut i: usize = 0;
    while i < joints.len()
        invariant
            i <= joints.len(),
            bound@ == bindable(joints@, parts@, i as int),
        decreases joints.len() - i,
    {
        let body1: Option<u64> = find_body(parts, joints[i].body1);
        let body2: Option<u64> = find_body(parts, joints[i].body2);
        if let (Some(b1), Some(b2)) = (body1, body2) {
            bound.push(BoundJoint { joint: joints[i].entity, body1: b1, body2: b2 });
        }
        i = i + 1;
    }
    bound
}

// ---- Keeping in touch ----------------------------------------------------------------

/// Whether to connect afresh: the link has dropped, nothing is under way, and the last
/// attempt was a while ago.
pub fn reconnect_dropped(cooldown: &mut u64, dt: u64, pending: bool, dropped: bool) -> (reconnect:
    bool)
    ensures
        reconnect == (!pending && dropped && *old(cooldown) <= dt),
        *final(cooldown) == (if reconnect {
            RECONNECT_COOLDOWN
        } else if *old(cooldown) >= dt {
            (*old(cooldown) - dt) as u64
        } else {
            0
        }),
{
    *cooldown = cooldown.saturating_sub(dt);
    if pending || *cooldown > 0 {
        return false;
    }
    if !dropped {
        return false;
    }
    *cooldown = RECONNECT_COOLDOWN;
    true
}

/// Whether to report our prediction load now. The clock starts over at each due time,
/// whether or not there is anything to report or anybody to tell.
pub fn report_rollbacks(acc: &mut u64, dt: u64, has_metrics: bool, linked: bool) -> (send: bool)
    ensures
        ({
            let due = *old(acc) + dt >= ROLLBACK_REPORT_EVERY;
            &&& send == (due && has_metrics && linked)
            &&& *final(acc) == if due {
                0
            } else {
                *old(acc) + dt
            }
        }),
{
    let now: u64 = acc.saturating_add(dt);
    if now < ROLLBACK_REPORT_EVERY {
        *acc = now;
        return false;
    }
    *acc = 0;
    has_metrics && linked
}

/// Whether to report the delete zone now. The clock runs on while the zone is off, so the
/// first report comes as soon as it is on.
pub fn report_delete_zone(acc: &mut u64, dt: u64, active: bool, linked: bool) -> (send: bool)
    ensures
        ({
            let now = if *old(acc) + dt <= u64::MAX {
                *old(acc) + dt
            } else {
                u64::MAX as int
            };
            let due = now >= DELETE_ZONE_REPORT_EVERY && active;
            &&& send == (due && linked)
            &&& *final(acc) == if due {
                0
            } else {
                now
            }
        }),
{
    *acc = acc.saturating_add(dt);
    if *acc < DELETE_ZONE_REPORT_EVERY || !active {
        return false;
    }
    *acc = 0;
    linked
}

/// A distance in whole millimetres, and the largest number for none.
pub fn report_millimetres(distance: Option<u64>) -> (mm: u32)
    ensures
        mm == (match distance {
            Some(um) => if um / 1_000 > u32::MAX {
                u32::MAX as int
            } else {
                um as int / 1_000
            },
            None => u32::MAX as int,
        }),
{
    match distance {
        Some(um) => {
            let mm: u64 = um / 1_000;
            if mm > u32::MAX as u64 {
                u32::MAX
            } else {
                mm as u32
            }
        },
        None => u32::MAX,
    }
}

// ---- What clicks, holds and joints promise -------------------------------------------

/// Small letters of a room's code count as capital ones, by their distance to them, and nothing
/// else of it changes; behind the code are zeros.
pub proof fn law_a_room_code_is_in_capitals(code: Seq<u8>, i: int)
    requires
        0 <= i,
    ensures
        i < code.len() && 97 <= code[i] <= 122 ==> room_byte(code, i) + 32 == code[i],
        i < code.len() && !(97 <= code[i] <= 122) ==> room_byte(code, i) == code[i],
        i >= code.len() ==> room_byte(code, i) == 0,
{
}

/// A stored text is an id if it spells a number other than zero, and then it is that number.
pub proof fn law_a_stored_id_is_a_number(s: Seq<char>)
    ensures
        stored_id(None) is None,
        parsed(s) is None ==> stored_id(Some(s)) is None,
        parsed(s) == Some(0u64) ==> stored_id(Some(s)) is None,
        parsed(s) is Some && parsed(s)->0 != 0 ==> stored_id(Some(s)) == parsed(s),
{
}

/// A number is carried with its lowest byte first, and what is left of it behind.
pub proof fn law_the_lowest_byte_comes_first(n: nat, k: nat)
    ensures
        le_bytes(n, k + 1).len() == k + 1,
        le_bytes(n, k + 1)[0] as nat == n % 256,
        le_bytes(n, k + 1).skip(1) == le_bytes(n / 256, k),
    decreases k,
{
    if k > 0 {
        law_the_lowest_byte_comes_first(n / 256, (k - 1) as nat);
    }
    assert(le_bytes(n, k + 1).skip(1) =~= le_bytes(n / 256, k));
}

/// The saved look is read number by number, in turn; what is no number is passed over.
pub proof fn law_numbers_come_in_turn(pieces: Seq<Option<i64>>, v: i64)
    ensures
        numbers(pieces.push(Some(v))) == numbers(pieces).push(v),
        numbers(pieces.push(None)) == numbers(pieces),
        numbers(Seq::empty()) == Seq::<i64>::empty(),
{
    let n = pieces.len() as int;
    let (p, f) = (|p: Option<i64>| p is Some, |p: Option<i64>| p->0);
    let (more, gap) = (pieces.push(Some(v)), pieces.push(None));
    let none = Seq::<Option<i64>>::empty();
    assert(more.take(n) == pieces && more.take(n + 1) == more);
    assert(gap.take(n) == pieces && gap.take(n + 1) == gap && none.take(0) == none);
    lemma_pick_step(more, n, p, f);
    lemma_pick_step(gap, n, p, f);
    lemma_pick_none(none, p, f);
}

/// Every avatar of ours becomes our character, in turn, and another player's none. The saved view
/// goes to the first of ours, where it is to be restored, and to no other.
pub proof fn law_our_avatar_is_adopted(avatars: Seq<NewAvatar>, me: u64, restore: bool, n: int)
    requires
        0 <= n < avatars.len(),
    ensures
        ({
            let (before, after) = (
                adoptions(avatars, me, restore, n),
                adoptions(avatars, me, restore, n + 1),
            );
            &&& avatars[n].client_id != me ==> after == before
            &&& avatars[n].client_id == me ==> {
                &&& after.len() == before.len() + 1
                &&& after.drop_last() == before
                &&& after.last().entity == avatars[n].entity
                &&& after.last().look <==> restore && before.len() == 0
            }
        }),
        adoptions(avatars, me, restore, 0).len() == 0,
{
    let before = adoptions(avatars, me, restore, n);
    let after = adoptions(avatars, me, restore, n + 1);
    if avatars[n].client_id == me {
        assert(after.drop_last() =~= before);
    }
}

/// A click grabs what is looked at with empty hands, and drops what is held; with the modifier
/// it joins what is held, or deletes a joint with empty hands. Nothing else changes.
pub proof fn law_what_a_click_does(g: Grab, looking: bool)
    ensures
        ({
            let plain = clicked(g, false, looking);
            let with = clicked(g, true, looking);
            &&& plain.holding <==> !g.holding && looking
            &&& plain.want_attach == g.want_attach && plain.want_delete == g.want_delete
            &&& with.holding == g.holding
            &&& g.holding ==> with.want_attach.0 == 6 && with.want_delete == g.want_delete
            &&& !g.holding ==> with.want_delete.0 == 6 && with.want_attach == g.want_attach
        }),
{
}

/// Two clicks on a part grab it and drop it again.
pub proof fn law_a_second_click_drops(g: Grab)
    requires
        !g.holding,
    ensures
        clicked_times(g, false, true, 1).holding,
        clicked_times(g, false, true, 2) == g,
{
    reveal_with_fuel(clicked_times, 3);
}

/// A part that another player holds is sprung here, in turn, and our own is not.
pub proof fn law_others_holds_are_sprung(parts: Seq<HeldPart>, me: u64, n: int)
    requires
        0 <= n < parts.len(),
    ensures
        parts[n].holder != me ==> held_by_others(parts, me, n + 1) == held_by_others(
            parts,
            me,
            n,
        ).push(parts[n].entity),
        parts[n].holder == me ==> held_by_others(parts, me, n + 1) == held_by_others(parts, me, n),
        held_by_others(parts, me, 0).len() == 0,
{
}

/// The body of a part is that of the first replica of its id; a part that is not here has none.
pub proof fn law_a_part_has_its_body(parts: Seq<ReplicatedPart>, id: u64, k: int)
    requires
        0 <= k <= parts.len(),
        forall|i: int| 0 <= i < k ==> (#[trigger] parts[i]).id != id,
        k < parts.len() ==> parts[k].id == id,
    ensures
        k < parts.len() ==> body_of(parts, id) == Some(parts[k].entity),
        k == parts.len() ==> body_of(parts, id) is None,
    decreases parts.len(),
{
    if k > 0 {
        let rest = parts.skip(1);
        assert forall|i: int| 0 <= i < k - 1 implies (#[trigger] rest[i]).id != id by {
            assert(rest[i] == parts[i + 1]);
        }
        if k < parts.len() {
            assert(rest[k - 1] == parts[k]);
        }
        assert(parts[0].id != id);
        law_a_part_has_its_body(rest, id, k - 1);
    }
}

/// A joint is bound once both of its parts are here: the first to the body of its first part, the
/// second to that of its second. Until then it waits, and no other joint waits for it.
pub proof fn law_a_joint_waits_for_both_parts(
    joints: Seq<Joint>,
    parts: Seq<ReplicatedPart>,
    n: int,
    a: u64,
    b: u64,
)
    requires
        0 <= n < joints.len(),
    ensures
        body_of(parts, joints[n].body1) == Some(a) && body_of(parts, joints[n].body2) == Some(b)
            ==> bindable(joints, parts, n + 1) == bindable(joints, parts, n).push(
            (BoundJoint { joint: joints[n].entity, body1: a, body2: b }),
        ),
        body_of(parts, joints[n].body1) is None || body_of(parts, joints[n].body2) is None
            ==> bindable(joints, parts, n + 1) == bindable(joints, parts, n),
        bindable(joints, parts, 0).len() == 0,
{
}

/// A press lapses by a tick at a time, and one that has lapsed stays so.
pub proof fn law_a_press_lapses(latch: Latch)
    ensures
        latch.0 > 0 ==> latch.lapsed().0 + 1 == latch.0,
        latch.0 == 0 ==> latch.lapsed().0 == 0,
{
}

} // verus!
