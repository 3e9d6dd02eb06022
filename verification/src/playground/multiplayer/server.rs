//! The server: it keeps what each client last said, and says it to all.

use super::types::{Matrix, NetworkBroadcast, SerializablePlayer};
use vstd::prelude::*;

verus! {

/// The first player, in the middle.
pub fn spawn() -> (player: SerializablePlayer)
    ensures
        player == (SerializablePlayer { id: 0, transform: Matrix::unit() }),
{
    SerializablePlayer { id: 0, transform: Matrix::identity() }
}

/// The first player of a number, if there is one.
pub open spec fn position_of(players: Seq<SerializablePlayer>, id: u32) -> Option<int>
    decreases players.len(),
{
    if players.len() == 0 {
        None
    } else {
        match position_of(players.drop_last(), id) {
            Some(i) => Some(i),
            None => if players.last().id == id {
                Some(players.len() - 1)
            } else {
                None
            },
        }
    }
}

/// The players after a message on the connection `handle`: the player of that number is
/// replaced by what was sent, number included, or there is one more.
pub open spec fn after_message(
    players: Seq<SerializablePlayer>,
    handle: u32,
    sent: SerializablePlayer,
) -> Seq<SerializablePlayer> {
    match position_of(players, handle) {
        Some(i) => players.update(i, sent),
        None => players.push(SerializablePlayer { id: handle, transform: sent.transform }),
    }
}

/// A message, and the connection that brought it.
#[derive(Clone, Copy, Debug, PartialEq, Eq, Structural)]
pub struct Received {
    pub handle: u32,
    pub player: SerializablePlayer,
}

/// The players after all the messages.
pub open spec fn after_messages(
    players: Seq<SerializablePlayer>,
    received: Seq<Received>,
) -> Seq<SerializablePlayer>
    decreases received.len(),
{
    if received.len() == 0 {
        players
    } else {
        after_message(
            after_messages(players, received.drop_last()),
            received.last().handle,
            received.last().player,
        )
    }
}

fn find(players: &Vec<SerializablePlayer>, id: u32) -> (at: Option<usize>)
    ensures
        match at {
            Some(i) => i < players@.len() && position_of(players@, id) == Some(i as int),
            None => position_of(players@, id) is None,
        },
{
    let mut i: usize = 0;
    assert(players@.take(0) =~= Seq::<SerializablePlayer>::empty());
    while i < players.len()
        invariant
            i <= players@.len(),
            position_of(players@.take(i as int), id) is None,
        decreases players@.len() - i,
    {
        assert(players@.take(i + 1).drop_last() =~= players@.take(i as int));
        if players[i].id == id {
            proof {
                lemma_position_stays(players@, i + 1, id);
            }
            return Some(i);
        }
        i = i + 1;
    }
    assert(players@.take(i as int) =~= players@);
    None
}

/// A player found among the first `n` is the one found among all.
proof fn lemma_position_stays(players: Seq<SerializablePlayer>, n: int, id: u32)
    requires
        0 <= n <= players.len(),
        position_of(players.take(n), id) is Some,
    ensures
        position_of(players, id) == position_of(players.take(n), id),
    decreases players.len(),
{
    if n == players.len() {
        assert(players.take(n) =~= players);
    } else {
        assert(players.drop_last().take(n) =~= players.take(n));
        lemma_position_stays(players.drop_last(), n, id);
    }
}

/// Keeps what the clients sent.
pub fn handle_messages(players: &mut Vec<SerializablePlayer>, received: &[Received])
    ensures
        final(players)@ == after_messages(old(players)@, received@),
{
    let ghost before = players@;
    let mut i: usize = 0;
    assert(received@.take(0) =~= Seq::<Received>::empty());
    while i < received.len()
        invariant
            i <= received.len(),
            players@ == after_messages(before, received@.take(i as int)),
        decreases received.len() - i,
    {
        assert(received@.take(i + 1).drop_last() =~= received@.take(i as int));
        let m: Received = received[i];
        match find(players, m.handle) {
            Some(at) => {
                players.set(at, m.player);
            },
            None => {
                players.push(SerializablePlayer { id: m.handle, transform: m.player.transform });
            },
        }
        i = i + 1;
    }
    assert(received@.take(i as int) =~= received@);
}

/// The players as a message says them, and the message's number.
#[derive(Debug)]
pub struct Broadcast {
    pub frame: u32,
    pub players: Vec<SerializablePlayer>,
}

/// What the server says to all.
pub fn broadcast_game_state(
    state: &mut NetworkBroadcast,
    players: &Vec<SerializablePlayer>,
) -> (m: Broadcast)
    requires
        old(state).frame < u32::MAX,
    ensures
        m.frame == old(state).frame,
        m.players@ == players@,
        final(state).frame == old(state).frame + 1,
{
    let mut copy: Vec<SerializablePlayer> = Vec::new();
    let mut i: usize = 0;
    while i < players.len()
        invariant
            i <= players@.len(),
            copy@ == players@.take(i as int),
        decreases players@.len() - i,
    {
        copy.push(players[i]);
        assert(players@.take(i as int).push(players@[i as int]) =~= players@.take(i + 1));
        i = i + 1;
    }
    assert(players@.take(i as int) =~= players@);
    let m = Broadcast { frame: state.frame, players: copy };
    state.frame = state.frame + 1;
    m
}

/// The law of the first message: a connection that nobody is known by becomes a player of
/// its own, in the place that it says, whatever number it gives.
pub proof fn law_a_new_connection_is_a_new_player(
    players: Seq<SerializablePlayer>,
    handle: u32,
    sent: SerializablePlayer,
)
    requires
        position_of(players, handle) is None,
    ensures
        after_message(players, handle, sent).len() == players.len() + 1,
        position_of(after_message(players, handle, sent), handle) == Some(players.len() as int),
        after_message(players, handle, sent).last().transform == sent.transform,
{
    assert(after_message(players, handle, sent).drop_last() =~= players);
}

/// A player is found at the first place that has its number, and nowhere if none has.
pub proof fn law_a_player_is_found(players: Seq<SerializablePlayer>, id: u32, k: int)
    requires
        0 <= k <= players.len(),
        forall|i: int| 0 <= i < k ==> (#[trigger] players[i]).id != id,
        k < players.len() ==> players[k].id == id,
    ensures
        k < players.len() ==> position_of(players, id) == Some(k),
        k == players.len() ==> position_of(players, id) is None,
    decreases players.len(),
{
    if players.len() > 0 {
        let front = players.drop_last();
        let last = players.len() - 1;
        assert(players.last() == players[last]);
        if k <= last {
            assert forall|i: int| 0 <= i < k implies (#[trigger] front[i]).id != id by {
                assert(front[i] == players[i]);
            }
            if k < last {
                assert(front[k] == players[k]);
            }
            law_a_player_is_found(front, id, k);
        } else {
            assert forall|i: int| 0 <= i < front.len() implies (#[trigger] front[i]).id != id by {
                assert(front[i] == players[i]);
            }
            law_a_player_is_found(front, id, front.len() as int);
            assert(players[last].id != id);
        }
    }
}

/// A message replaces the player of its connection by what was sent, in that player's place, and
/// leaves every other player alone.
pub proof fn law_a_message_moves_its_player(
    players: Seq<SerializablePlayer>,
    handle: u32,
    sent: SerializablePlayer,
    k: int,
    other: int,
)
    requires
        0 <= k < players.len(),
        players[k].id == handle,
        forall|i: int| 0 <= i < k ==> (#[trigger] players[i]).id != handle,
        0 <= other < players.len(),
        other != k,
    ensures
        after_message(players, handle, sent).len() == players.len(),
        after_message(players, handle, sent)[k] == sent,
        after_message(players, handle, sent)[other] == players[other],
{
    law_a_player_is_found(players, handle, k);
}

/// Messages count in the order in which they came.
pub proof fn law_messages_count_in_turn(
    players: Seq<SerializablePlayer>,
    received: Seq<Received>,
    next: Received,
)
    ensures
        after_messages(players, received.push(next)) == after_message(
            after_messages(players, received),
            next.handle,
            next.player,
        ),
        after_messages(players, Seq::empty()) == players,
{
    assert(received.push(next).drop_last() == received);
}

} // verus!
