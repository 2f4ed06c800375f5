//! Peer bookkeeping for a two-player session: the order in which players
//! take their handles, and the plan for starting the session.

use vstd::prelude::*;
use vstd::relations::{sorted_by, total_ordering};
use vstd::utf8::{decode_utf8, encode_utf8, valid_utf8};

use crate::game_logic::{GameState, RollbackState, SeedHandle, Seeds};
use crate::text::{
    chars_of, decimal, decimal_string, is_digit, lemma_decimal, lemma_parse_decimal, parse_unsigned,
    spec_parse_unsigned,
};

verus! {

broadcast use vstd::seq_lib::group_to_multiset_ensures;

/// The number of players in a session.
pub const PLAYER_COUNT: usize = 2;

/// Who a player slot belongs to: this peer, another peer (by its peer id),
/// or a spectator.
#[derive(Clone, Copy, Debug, PartialEq, Eq)]
pub enum PlayerType {
    Local,
    Remote(u128),
    Spectator(u128),
}

/// The order on peer ids in which players are numbered.
pub open spec fn id_leq() -> spec_fn(u128, u128) -> bool {
    |a: u128, b: u128| a <= b
}

/// The peer ids in ascending order.
pub open spec fn player_order(ids: Seq<u128>) -> Seq<u128> {
    ids.sort_by(id_leq())
}

pub open spec fn player_type_of(id: u128, our_id: u128) -> PlayerType {
    if id == our_id {
        PlayerType::Local
    } else {
        PlayerType::Remote(id)
    }
}

/// The players of a session as this peer sees them: before the signalling
/// server has given us an id we are alone; afterwards every connected peer
/// and we ourselves, ordered by id, so that all peers agree on the order.
pub open spec fn spec_players(our_id: Option<u128>, connected_peers: Seq<u128>) -> Seq<PlayerType> {
    match our_id {
        None => seq![PlayerType::Local],
        Some(our) => player_order(connected_peers.push(our)).map_values(
            |id: u128| player_type_of(id, our),
        ),
    }
}

proof fn lemma_id_leq_total()
    ensures
        total_ordering(id_leq()),
{
    let leq = id_leq();
    assert(vstd::relations::reflexive(leq));
    assert(vstd::relations::antisymmetric(leq));
    assert(vstd::relations::transitive(leq));
    assert(vstd::relations::strongly_connected(leq));
}

/// Sequences with the same ids in ascending order are the ascending order.
proof fn lemma_player_order_unique(s: Seq<u128>, ids: Seq<u128>)
    requires
        sorted_by(s, id_leq()),
        s.to_multiset() == ids.to_multiset(),
    ensures
        s == player_order(ids),
{
    lemma_id_leq_total();
    ids.lemma_sort_by_ensures(id_leq());
    vstd::seq_lib::lemma_sorted_unique(s, player_order(ids), id_leq());
}

/// Sorts peer ids in ascending order (insertion sort).
fn sort_peer_ids(ids: &Vec<u128>) -> (r: Vec<u128>)
    ensures
        r@ == player_order(ids@),
{
    let mut sorted: Vec<u128> = Vec::new();
    let mut i: usize = 0;
    while i < ids.len()
        invariant
            i <= ids@.len(),
            sorted_by(sorted@, id_leq()),
            sorted@.to_multiset() == ids@.take(i as int).to_multiset(),
        decreases ids@.len() - i,
    {
        let x = ids[i];
        let mut pos: usize = 0;
        while pos < sorted.len() && sorted[pos] <= x
            invariant
                pos <= sorted@.len(),
                forall|k: int| 0 <= k < pos ==> sorted@[k] <= x,
            decreases sorted@.len() - pos,
        {
            pos = pos + 1;
        }
        let ghost before = sorted@;
        proof {
            assert forall|k: int| pos <= k < before.len() implies x < before[k] by {
                assert(id_leq()(before[pos as int], before[k]));
            }
        }
        sorted.insert(pos, x);
        proof {
            before.insert_ensures(pos as int, x);
            assert forall|a: int, b: int| 0 <= a < b < sorted@.len() implies #[trigger] id_leq()(
                sorted@[a],
                sorted@[b],
            ) by {
                if b < pos {
                    assert(id_leq()(before[a], before[b]));
                } else if b == pos {
                } else if a < pos {
                    assert(sorted@[b] == before[b - 1]);
                } else if a == pos {
                    assert(sorted@[b] == before[b - 1]);
                } else {
                    assert(id_leq()(before[a - 1], before[b - 1]));
                }
            }
            assert(ids@.take(i + 1) == ids@.take(i as int).push(x));
        }
        i = i + 1;
    }
    proof {
        assert(ids@.take(ids@.len() as int) == ids@);
        lemma_player_order_unique(sorted@, ids@);
    }
    sorted
}

/// The players of the session in handle order (see `spec_players`).
pub fn players(our_id: Option<u128>, connected_peers: &Vec<u128>) -> (r: Vec<PlayerType>)
    ensures
        r@ == spec_players(our_id, connected_peers@),
{
    match our_id {
        None => {
            let mut r: Vec<PlayerType> = Vec::new();
            r.push(PlayerType::Local);
            assert(r@ == seq![PlayerType::Local]);
            r
        },
        Some(our) => {
            let mut ids: Vec<u128> = Vec::new();
            let mut i: usize = 0;
            while i < connected_peers.len()
                invariant
                    i <= connected_peers@.len(),
                    ids@ == connected_peers@.take(i as int),
                decreases connected_peers@.len() - i,
            {
                ids.push(connected_peers[i]);
                assert(connected_peers@.take(i + 1) == connected_peers@.take(i as int).push(
                    connected_peers@[i as int],
                ));
                i = i + 1;
            }
            assert(connected_peers@.take(connected_peers@.len() as int) == connected_peers@);
            ids.push(our);
            let sorted = sort_peer_ids(&ids);
            let ghost target = spec_players(our_id, connected_peers@);
            let mut r: Vec<PlayerType> = Vec::new();
            let mut j: usize = 0;
            while j < sorted.len()
                invariant
                    j <= sorted@.len(),
                    sorted@ == player_order(connected_peers@.push(our)),
                    target == sorted@.map_values(|id: u128| player_type_of(id, our)),
                    r@ == target.take(j as int),
                decreases sorted@.len() - j,
            {
                let id = sorted[j];
                let p = if id == our {
                    PlayerType::Local
                } else {
                    PlayerType::Remote(id)
                };
                r.push(p);
                assert(target.take(j + 1) == target.take(j as int).push(target[j as int]));
                j = j + 1;
            }
            assert(target.take(j as int) == target);
            r
        },
    }
}

/// All peers agree on who is who: when two distinct peers `a` and `b` see
/// the same set of ids (each counting itself), then at every handle `a`
/// sees itself exactly where `b` sees `a`, and vice versa.
pub proof fn lemma_players_agree(a: u128, b: u128, peers_of_a: Seq<u128>, peers_of_b: Seq<u128>)
    requires
        a != b,
        peers_of_a.push(a).to_multiset() == peers_of_b.push(b).to_multiset(),
    ensures
        spec_players(Some(a), peers_of_a).len() == spec_players(Some(b), peers_of_b).len(),
        forall|i: int|
            0 <= i < spec_players(Some(a), peers_of_a).len() ==> ((spec_players(
                Some(a),
                peers_of_a,
            )[i] == PlayerType::Local) <==> (spec_players(Some(b), peers_of_b)[i]
                == PlayerType::Remote(a))),
        forall|i: int|
            0 <= i < spec_players(Some(a), peers_of_a).len() ==> ((spec_players(
                Some(a),
                peers_of_a,
            )[i] == PlayerType::Remote(b)) <==> (spec_players(Some(b), peers_of_b)[i]
                == PlayerType::Local)),
{
    lemma_id_leq_total();
    let ids_a = peers_of_a.push(a);
    let ids_b = peers_of_b.push(b);
    ids_a.lemma_sort_by_ensures(id_leq());
    ids_b.lemma_sort_by_ensures(id_leq());
    vstd::seq_lib::lemma_sorted_unique(player_order(ids_a), player_order(ids_b), id_leq());
}


/// The peer ids of the remote players, in player order.
pub open spec fn remote_peers(players: Seq<PlayerType>) -> Seq<u128>
    decreases players.len(),
{
    if players.len() == 0 {
        seq![]
    } else {
        let prev = remote_peers(players.drop_last());
        match players.last() {
            PlayerType::Remote(peer) => prev.push(peer),
            _ => prev,
        }
    }
}

/// The handle of the local player: the last local slot, if any.
pub open spec fn local_handle(players: Seq<PlayerType>) -> Option<usize>
    decreases players.len(),
{
    if players.len() == 0 {
        None
    } else if players.last() == PlayerType::Local {
        Some((players.len() - 1) as usize)
    } else {
        local_handle(players.drop_last())
    }
}

/// How far the seed exchange has come: the session is up, we have the
/// peer's seed, and the peer has ours.
#[derive(Clone, Copy, Debug, PartialEq, Eq)]
pub struct Ready {
    pub connection_ready: bool,
    pub local_ready: bool,
    pub remote_ready: bool,
}

impl Ready {
    pub fn new() -> (r: Ready)
        ensures
            r == (Ready { connection_ready: false, local_ready: false, remote_ready: false }),
    {
        Ready { connection_ready: false, local_ready: false, remote_ready: false }
    }
}

impl Default for Ready {
    fn default() -> (r: Ready)
        ensures
            r == (Ready { connection_ready: false, local_ready: false, remote_ready: false }),
    {
        Ready::new()
    }
}

/// What to do once the peers have been counted.
#[derive(Debug)]
pub enum SessionStart {
    /// Fewer players than a session needs: keep waiting.
    Waiting,
    /// More players than a session takes: this game is already full.
    GameFull,
    /// Start the session with the players in order: we play with
    /// `local_handle`, and each remote player is sent our seed.
    Start { local_handle: Option<usize>, seed_messages: Vec<(u128, String)> },
}

/// Decides whether the session can start with the given players (in handle
/// order). When exactly two players are there, it starts: every remote
/// player is sent the decimal text of our seed (the first proposal), and
/// the connection counts as ready.
pub fn wait_for_players(players: &Vec<PlayerType>, seeds: &Seeds, ready: &mut Ready) -> (r:
    SessionStart)
    requires
        players@.len() == PLAYER_COUNT && remote_peers(players@).len() > 0 ==> seeds.0@.len() > 0,
    ensures
        players@.len() < PLAYER_COUNT ==> r is Waiting && *final(ready) == *old(ready),
        players@.len() > PLAYER_COUNT ==> r is GameFull && *final(ready) == *old(ready),
        players@.len() == PLAYER_COUNT ==> *final(ready) == (Ready {
            connection_ready: true,
            ..*old(ready)
        }),
        r matches SessionStart::Start { local_handle: h, seed_messages: m } ==> {
            &&& players@.len() == PLAYER_COUNT
            &&& h == local_handle(players@)
            &&& m@.len() == remote_peers(players@).len()
            &&& forall|i: int|
                0 <= i < m@.len() ==> (#[trigger] m@[i]).0 == remote_peers(players@)[i]
                    && m@[i].1@ == decimal(seeds.0@[0].seed as nat)
        },
        players@.len() == PLAYER_COUNT ==> r is Start,
{
    if players.len() < PLAYER_COUNT {
        return SessionStart::Waiting;
    }
    if players.len() > PLAYER_COUNT {
        return SessionStart::GameFull;
    }
    let mut handle: Option<usize> = None;
    let mut messages: Vec<(u128, String)> = Vec::new();
    let mut i: usize = 0;
    while i < players.len()
        invariant
            i <= players@.len(),
            players@.len() == PLAYER_COUNT,
            remote_peers(players@).len() > 0 ==> seeds.0@.len() > 0,
            handle == local_handle(players@.take(i as int)),
            messages@.len() == remote_peers(players@.take(i as int)).len(),
            forall|k: int|
                0 <= k < messages@.len() ==> (#[trigger] messages@[k]).0 == remote_peers(
                    players@.take(i as int),
                )[k] && messages@[k].1@ == decimal(seeds.0@[0].seed as nat),
        decreases players@.len() - i,
    {
        proof {
            assert(players@.take(i + 1).drop_last() == players@.take(i as int));
            assert(players@.take(i + 1).last() == players@[i as int]);
            lemma_remote_peers_prefix(players@, i + 1);
        }
        match players[i] {
            PlayerType::Remote(peer_id) => {
                let text = decimal_string(seeds.0[0].seed as u64);
                messages.push((peer_id, text));
            },
            PlayerType::Local => {
                handle = Some(i);
            },
            PlayerType::Spectator(_) => {},
        }
        i = i + 1;
    }
    assert(players@.take(i as int) == players@);
    ready.connection_ready = true;
    SessionStart::Start { local_handle: handle, seed_messages: messages }
}

/// A prefix has no more remote peers than the whole.
pub proof fn lemma_remote_peers_prefix(players: Seq<PlayerType>, k: int)
    requires
        0 <= k <= players.len(),
    ensures
        remote_peers(players.take(k)).len() <= remote_peers(players).len(),
    decreases players.len(),
{
    if k < players.len() {
        lemma_remote_peers_prefix(players.drop_last(), k);
        assert(players.drop_last().take(k) == players.take(k));
    } else {
        assert(players.take(k) == players);
    }
}

pub open spec fn ready_word() -> Seq<char> {
    seq!['r', 'e', 'a', 'd', 'y']
}

/// The seeds proposed in received messages (all but `ready`), in order,
/// each tagged with the peer that sent it.
pub open spec fn received_seeds(messages: Seq<(u128, Seq<char>)>) -> Seq<SeedHandle>
    decreases messages.len(),
{
    if messages.len() == 0 {
        seq![]
    } else {
        let prev = received_seeds(messages.drop_last());
        let (peer, text) = messages.last();
        if text == ready_word() {
            prev
        } else {
            prev.push(
                SeedHandle {
                    handle: Some(peer),
                    seed: spec_parse_unsigned(text, u32::MAX as nat)->0 as u32,
                },
            )
        }
    }
}

/// A seed message is recorded as the number that its decimal text
/// denotes, from the peer that sent it: a message with the decimal text of
/// any `u32` value `n` adds the seed `n` of that peer after the seeds
/// received before it, and a `ready` message adds none.
pub proof fn lemma_seed_message_recorded(messages: Seq<(u128, Seq<char>)>, peer: u128, n: u32)
    ensures
        received_seeds(messages.push((peer, decimal(n as nat)))) == received_seeds(messages).push(
            SeedHandle { handle: Some(peer), seed: n },
        ),
        received_seeds(messages.push((peer, ready_word()))) == received_seeds(messages),
{
    lemma_decimal(n as nat);
    lemma_parse_decimal(n as nat, u32::MAX as nat);
    assert(is_digit(decimal(n as nat)[0]));
    assert(decimal(n as nat) != ready_word()) by {
        if decimal(n as nat) == ready_word() {
            assert(decimal(n as nat)[0] == 'r');
        }
    }
    assert(messages.push((peer, decimal(n as nat))).drop_last() == messages);
    assert(messages.push((peer, ready_word())).drop_last() == messages);
}

/// The peers to send `ready` to: all remote players, once per received
/// seed.
pub open spec fn ready_recipients(messages: Seq<(u128, Seq<char>)>, players: Seq<PlayerType>) -> Seq<u128>
    decreases messages.len(),
{
    if messages.len() == 0 {
        seq![]
    } else {
        let prev = ready_recipients(messages.drop_last(), players);
        if messages.last().1 == ready_word() {
            prev
        } else {
            prev + remote_peers(players)
        }
    }
}

pub open spec fn has_ready_message(messages: Seq<(u128, Seq<char>)>) -> bool {
    exists|i: int| 0 <= i < messages.len() && #[trigger] messages[i].1 == ready_word()
}

pub open spec fn has_seed_message(messages: Seq<(u128, Seq<char>)>) -> bool {
    exists|i: int| 0 <= i < messages.len() && #[trigger] messages[i].1 != ready_word()
}

pub open spec fn message_views(messages: Seq<(u128, String)>) -> Seq<(u128, Seq<char>)> {
    messages.map_values(|m: (u128, String)| (m.0, m.1@))
}

/// Handles the messages received during the seed exchange (only once the
/// connection is ready; before that nothing happens). A `ready` message
/// means the peer has our seed; any other message is the peer's seed,
/// which is recorded, makes us ready, and is acknowledged with `ready` to
/// every remote player. Returns the peers to send `ready` to.
pub fn wait_for_seed(
    seeds: &mut Seeds,
    ready: &mut Ready,
    messages: &Vec<(u128, String)>,
    players: &Vec<PlayerType>,
) -> (ready_to: Vec<u128>)
    requires
        forall|i: int|
            0 <= i < messages@.len() && #[trigger] messages@[i].1@ != ready_word() ==> spec_parse_unsigned(
                messages@[i].1@,
                u32::MAX as nat,
            ) is Some,
    ensures
        !old(ready).connection_ready ==> *final(ready) == *old(ready) && final(seeds).0@ == old(
            seeds,
        ).0@ && ready_to@.len() == 0,
        old(ready).connection_ready ==> {
            &&& final(seeds).0@ == old(seeds).0@ + received_seeds(message_views(messages@))
            &&& final(ready).connection_ready
            &&& final(ready).remote_ready == (old(ready).remote_ready || has_ready_message(
                message_views(messages@),
            ))
            &&& final(ready).local_ready == (old(ready).local_ready || has_seed_message(
                message_views(messages@),
            ))
            &&& ready_to@ == ready_recipients(message_views(messages@), players@)
        },
{
    let mut ready_to: Vec<u128> = Vec::new();
    if !ready.connection_ready {
        return ready_to;
    }
    let ghost views = message_views(messages@);
    let ghost s0 = seeds.0@;
    let ghost r0 = *ready;
    let remotes = remote_peer_ids(players);
    let mut i: usize = 0;
    proof {
        assert(s0 + Seq::<SeedHandle>::empty() == s0);
        assert(views.take(0) == Seq::<(u128, Seq<char>)>::empty());
    }
    while i < messages.len()
        invariant
            i <= messages@.len(),
            views == message_views(messages@),
            remotes@ == remote_peers(players@),
            forall|k: int|
                0 <= k < messages@.len() && #[trigger] messages@[k].1@ != ready_word() ==> spec_parse_unsigned(
                    messages@[k].1@,
                    u32::MAX as nat,
                ) is Some,
            seeds.0@ == s0 + received_seeds(views.take(i as int)),
            ready.connection_ready,
            ready.remote_ready == (r0.remote_ready || has_ready_message(views.take(i as int))),
            ready.local_ready == (r0.local_ready || has_seed_message(views.take(i as int))),
            ready_to@ == ready_recipients(views.take(i as int), players@),
        decreases messages@.len() - i,
    {
        let ghost prefix = views.take(i as int);
        let ghost next = views.take(i + 1);
        proof {
            assert(next.drop_last() == prefix);
            assert(next.last() == views[i as int]);
            assert(views[i as int] == (messages@[i as int].0, messages@[i as int].1@));
        }
        let peer = messages[i].0;
        let text = chars_of(messages[i].1.as_str());
        let is_ready = text.len() == 5 && text[0] == 'r' && text[1] == 'e' && text[2] == 'a'
            && text[3] == 'd' && text[4] == 'y';
        proof {
            if text@ == ready_word() {
                assert(text@[0] == 'r' && text@[1] == 'e' && text@[2] == 'a' && text@[3] == 'd'
                    && text@[4] == 'y');
            }
            if is_ready {
                assert(text@ == ready_word());
            }
        }
        if is_ready {
            ready.remote_ready = true;
            proof {
                assert(next[i as int].1 == ready_word());
                if has_ready_message(prefix) {
                    let k = choose|k: int| 0 <= k < prefix.len() && #[trigger] prefix[k].1 == ready_word();
                    assert(next[k] == prefix[k]);
                }
                assert(has_ready_message(next));
                assert(has_seed_message(next) == has_seed_message(prefix)) by {
                    if has_seed_message(next) {
                        let k = choose|k: int| 0 <= k < next.len() && #[trigger] next[k].1 != ready_word();
                        assert(k < prefix.len());
                        assert(prefix[k] == next[k]);
                    }
                    if has_seed_message(prefix) {
                        let k = choose|k: int| 0 <= k < prefix.len() && #[trigger] prefix[k].1 != ready_word();
                        assert(next[k] == prefix[k]);
                    }
                }
            }
        } else {
            let seed = match parse_unsigned(&text, 0xffff_ffff) {
                Some(v) => v as u32,
                None => 0,
            };
            seeds.0.push(SeedHandle { handle: Some(peer), seed });
            ready.local_ready = true;
            let mut j: usize = 0;
            let ghost before = ready_to@;
            while j < remotes.len()
                invariant
                    j <= remotes@.len(),
                    ready_to@ == before + remotes@.take(j as int),
                decreases remotes@.len() - j,
            {
                ready_to.push(remotes[j]);
                assert(remotes@.take(j + 1) == remotes@.take(j as int).push(remotes@[j as int]));
                j = j + 1;
            }
            proof {
                assert(remotes@.take(j as int) == remotes@);
                assert(next[i as int].1 != ready_word());
                assert(seeds.0@ == s0 + received_seeds(next));
                if has_seed_message(prefix) {
                    let k = choose|k: int| 0 <= k < prefix.len() && #[trigger] prefix[k].1 != ready_word();
                    assert(next[k] == prefix[k]);
                }
                assert(has_seed_message(next));
                assert(has_ready_message(next) == has_ready_message(prefix)) by {
                    if has_ready_message(next) {
                        let k = choose|k: int| 0 <= k < next.len() && #[trigger] next[k].1 == ready_word();
                        assert(k < prefix.len());
                        assert(prefix[k] == next[k]);
                    }
                    if has_ready_message(prefix) {
                        let k = choose|k: int| 0 <= k < prefix.len() && #[trigger] prefix[k].1 == ready_word();
                        assert(next[k] == prefix[k]);
                    }
                }
            }
        }
        i = i + 1;
    }
    assert(views.take(i as int) == views);
    ready_to
}

/// The peer ids of the remote players, in player order.
pub fn remote_peer_ids(players: &Vec<PlayerType>) -> (r: Vec<u128>)
    ensures
        r@ == remote_peers(players@),
{
    let mut r: Vec<u128> = Vec::new();
    let mut i: usize = 0;
    while i < players.len()
        invariant
            i <= players@.len(),
            r@ == remote_peers(players@.take(i as int)),
        decreases players@.len() - i,
    {
        assert(players@.take(i + 1).drop_last() == players@.take(i as int));
        assert(players@.take(i + 1).last() == players@[i as int]);
        match players[i] {
            PlayerType::Remote(peer) => r.push(peer),
            _ => {},
        }
        i = i + 1;
    }
    assert(players@.take(i as int) == players@);
    r
}

/// Whether the match can start: both seeds have been exchanged.
pub fn check_ready_state(ready: &Ready) -> (start: bool)
    requires
        ready.local_ready && ready.remote_ready ==> ready.connection_ready,
    ensures
        start == (ready.local_ready && ready.remote_ready),
{
    ready.local_ready && ready.remote_ready
}

/// The connection state of a peer as the signalling server reports it.
#[derive(Clone, Copy, Debug, PartialEq, Eq)]
pub enum PeerState {
    Connected,
    Disconnected,
}

/// When some peer has just connected, our seed (the first proposal) is
/// broadcast to the peers.
pub fn handle_seed_broadcast(events: &Vec<PeerState>, seeds: &Seeds) -> (broadcast: Option<u32>)
    requires
        (exists|i: int| 0 <= i < events@.len() && events@[i] == PeerState::Connected) ==> seeds.0@.len()
            > 0,
    ensures
        broadcast == (if exists|i: int| 0 <= i < events@.len() && events@[i] == PeerState::Connected {
            Some(seeds.0@[0].seed)
        } else {
            None
        }),
{
    let mut i: usize = 0;
    while i < events.len()
        invariant
            i <= events@.len(),
            forall|k: int| 0 <= k < i ==> events@[k] != PeerState::Connected,
            (exists|k: int| 0 <= k < events@.len() && events@[k] == PeerState::Connected)
                ==> seeds.0@.len() > 0,
        decreases events@.len() - i,
    {
        match events[i] {
            PeerState::Connected => {
                assert(events@[i as int] == PeerState::Connected);
                return Some(seeds.0[0].seed);
            },
            PeerState::Disconnected => {},
        }
        i = i + 1;
    }
    None
}

/// What the session reports to the game.
#[derive(Clone, Copy, Debug, PartialEq, Eq)]
pub enum GgrsEventKind {
    Synchronizing,
    Synchronized,
    Disconnected,
    NetworkInterrupted,
    NetworkResumed,
    WaitRecommendation,
    DesyncDetected,
}

/// A request from the session to the game.
#[derive(Clone, Copy, Debug, PartialEq, Eq)]
pub struct SessionEvent {
    pub main_menu: bool,
}

/// A peer disconnecting sends the game back to the main menu; the other
/// session events ask nothing of it.
pub fn handle_session_event(event: GgrsEventKind) -> (r: Option<SessionEvent>)
    ensures
        r == (if event == GgrsEventKind::Disconnected {
            Some(SessionEvent { main_menu: true })
        } else {
            None
        }),
{
    match event {
        GgrsEventKind::Disconnected => Some(SessionEvent { main_menu: true }),
        _ => None,
    }
}

pub open spec fn wants_main_menu(events: Seq<SessionEvent>) -> bool {
    exists|i: int| 0 <= i < events.len() && (#[trigger] events[i]).main_menu
}

fn any_main_menu(events: &Vec<SessionEvent>) -> (r: bool)
    ensures
        r == wants_main_menu(events@),
{
    let mut i: usize = 0;
    while i < events.len()
        invariant
            i <= events@.len(),
            forall|k: int| 0 <= k < i ==> !(#[trigger] events@[k]).main_menu,
        decreases events@.len() - i,
    {
        if events[i].main_menu {
            return true;
        }
        i = i + 1;
    }
    false
}

/// The application state to go to after the session's events: the main
/// menu when asked for.
pub fn change_game_state(events: &Vec<SessionEvent>) -> (next: Option<GameState>)
    ensures
        next == (if wants_main_menu(events@) {
            Some(GameState::MainMenu)
        } else {
            None
        }),
{
    if any_main_menu(events) {
        Some(GameState::MainMenu)
    } else {
        None
    }
}

/// The match state to go to after the session's events: back to setup
/// when the game returns to the main menu.
pub fn change_rollback_state(events: &Vec<SessionEvent>) -> (next: Option<RollbackState>)
    ensures
        next == (if wants_main_menu(events@) {
            Some(RollbackState::Setup)
        } else {
            None
        }),
{
    if any_main_menu(events) {
        Some(RollbackState::Setup)
    } else {
        None
    }
}


/// The handle that the local player plays with.
#[derive(Clone, Copy, Debug, PartialEq, Eq)]
pub struct LocalPlayerHandle(pub usize);

/// Credentials for the TURN relay server, read from the game's assets.
#[derive(Clone, Debug)]
pub struct TurnCredentials {
    pub username: String,
    pub credential: String,
}

/// The ICE (STUN and TURN) servers through which peers find each other.
#[derive(Debug)]
pub struct IceServerConfig {
    pub urls: Vec<String>,
    pub username: Option<String>,
    pub credential: Option<String>,
}

/// The STUN and TURN servers the game uses.
pub open spec fn ice_server_urls() -> Seq<Seq<char>> {
    seq![
        "stun:stun.l.google.com:19302"@,
        "stun:stun1.l.google.com:19302"@,
        "stun:fr-turn3.xirsys.com"@,
        "turn:fr-turn3.xirsys.com:80?transport=udp"@,
        "turn:fr-turn3.xirsys.com:3478?transport=udp"@,
        "turn:fr-turn3.xirsys.com:80?transport=tcp"@,
        "turn:fr-turn3.xirsys.com:3478?transport=tcp"@,
        "turns:fr-turn3.xirsys.com:443?transport=tcp"@,
        "turns:fr-turn3.xirsys.com:5349?transport=tcp"@,
    ]
}

/// The ICE servers to connect through: with TURN credentials, the game's
/// servers with those credentials; without them, `None`, and the socket's
/// default servers are used (online play may then fail).
pub fn get_rtc_ice_server_config(turn_credentials: Option<&TurnCredentials>) -> (r: Option<IceServerConfig>)
    ensures
        r is None <==> turn_credentials is None,
        r matches Some(config) ==> {
            &&& config.urls@.map_values(|u: String| u@) == ice_server_urls()
            &&& config.username matches Some(u) && u@ == turn_credentials->0.username@
            &&& config.credential matches Some(c) && c@ == turn_credentials->0.credential@
        },
{
    let turn_credentials = match turn_credentials {
        Some(tc) => tc,
        None => {
            return None;
        },
    };
    let mut urls: Vec<String> = Vec::new();
    urls.push(String::from_str("stun:stun.l.google.com:19302"));
    urls.push(String::from_str("stun:stun1.l.google.com:19302"));
    urls.push(String::from_str("stun:fr-turn3.xirsys.com"));
    urls.push(String::from_str("turn:fr-turn3.xirsys.com:80?transport=udp"));
    urls.push(String::from_str("turn:fr-turn3.xirsys.com:3478?transport=udp"));
    urls.push(String::from_str("turn:fr-turn3.xirsys.com:80?transport=tcp"));
    urls.push(String::from_str("turn:fr-turn3.xirsys.com:3478?transport=tcp"));
    urls.push(String::from_str("turns:fr-turn3.xirsys.com:443?transport=tcp"));
    urls.push(String::from_str("turns:fr-turn3.xirsys.com:5349?transport=tcp"));
    assert(urls@.map_values(|u: String| u@) == ice_server_urls());
    Some(
        IceServerConfig {
            urls,
            username: Some(turn_credentials.username.clone()),
            credential: Some(turn_credentials.credential.clone()),
        },
    )
}

/// The address of the signalling server's room for a session of
/// `player_count` players.
pub fn matchmaking_room_url(player_count: usize) -> (url: String)
    ensures
        url@ == "wss://rancic.org/matchmaking?next="@ + decimal(player_count as nat),
{
    let mut url = String::from_str("wss://rancic.org/matchmaking?next=");
    let count = decimal_string(player_count as u64);
    url.append(count.as_str());
    url
}

} // verus!

verus! {

/// The eight little-endian bytes of `n` (below 2^64).
pub open spec fn le_u64_bytes(n: nat) -> Seq<u8> {
    seq![
        (n % 0x100) as u8,
        (n / 0x100 % 0x100) as u8,
        (n / 0x1_0000 % 0x100) as u8,
        (n / 0x100_0000 % 0x100) as u8,
        (n / 0x1_0000_0000 % 0x100) as u8,
        (n / 0x100_0000_0000 % 0x100) as u8,
        (n / 0x1_0000_0000_0000 % 0x100) as u8,
        (n / 0x100_0000_0000_0000 % 0x100) as u8,
    ]
}

/// The number that the first eight bytes of `b` stand for, little-endian.
pub open spec fn le_u64_value(b: Seq<u8>) -> nat {
    b[0] as nat + b[1] as nat * 0x100 + b[2] as nat * 0x1_0000 + b[3] as nat * 0x100_0000
        + b[4] as nat * 0x1_0000_0000 + b[5] as nat * 0x100_0000_0000 + b[6] as nat
        * 0x1_0000_0000_0000 + b[7] as nat * 0x100_0000_0000_0000
}

/// A text message as bincode writes it: the length of its UTF-8 form as a
/// little-endian `u64`, then its UTF-8 bytes.
pub open spec fn bincode_text(text: Seq<char>) -> Seq<u8> {
    le_u64_bytes(encode_utf8(text).len()) + encode_utf8(text)
}

/// A text message as bincode reads it from a packet: a little-endian `u64`
/// length `n`, then `n` bytes of valid UTF-8 (later bytes are ignored);
/// `None` when the packet is shorter or the bytes are not UTF-8.
pub open spec fn bincode_read_text(packet: Seq<u8>) -> Option<Seq<char>> {
    if packet.len() < 8 {
        None
    } else {
        let n = le_u64_value(packet);
        if packet.len() < 8 + n {
            None
        } else if valid_utf8(packet.subrange(8, 8 + n as int)) {
            Some(decode_utf8(packet.subrange(8, 8 + n as int)))
        } else {
            None
        }
    }
}

/// `bincode::serialize` of a text. With bincode's default options it has no
/// size limit and writes into a `Vec`, so it does not fail; the bytes are
/// the length of the text's UTF-8 form as a little-endian `u64`, then that
/// UTF-8 form.
#[verifier::external_body]
fn bincode_serialize_text(message: &str) -> (written: Option<Vec<u8>>)
    ensures
        written is Some,
        written->0@ == bincode_text(message@),
{
    bincode::serialize(message).ok()
}

/// `bincode::deserialize::<String>` of a packet: it reads a little-endian
/// `u64` length and that many bytes, which must be UTF-8, and allows bytes
/// after them; it fails (`None`) otherwise.
#[verifier::external_body]
fn bincode_deserialize_text(packet: &Vec<u8>) -> (text: Option<String>)
    ensures
        text is None <==> bincode_read_text(packet@) is None,
        text matches Some(s) ==> bincode_read_text(packet@) == Some(s@),
{
    bincode::deserialize::<String>(packet.as_slice()).ok()
}

/// The packet that carries a text message to a peer on the reliable
/// channel (see `bincode_text`).
pub fn encode_message(message: &str) -> (bytes: Vec<u8>)
    ensures
        bytes@ == bincode_text(message@),
{
    bincode_serialize_text(message).unwrap()
}

/// The text messages in packets received on the reliable channel, each
/// with the peer that sent it (see `bincode_read_text`); `None` when some
/// packet holds no text message.
pub fn receive_messages(packets: &Vec<(u128, Vec<u8>)>) -> (r: Option<Vec<(u128, String)>>)
    ensures
        r is None <==> exists|i: int|
            0 <= i < packets@.len() && bincode_read_text((#[trigger] packets@[i]).1@) is None,
        r matches Some(messages) ==> {
            &&& messages@.len() == packets@.len()
            &&& forall|i: int|
                0 <= i < packets@.len() ==> (#[trigger] messages@[i]).0 == packets@[i].0
                    && bincode_read_text(packets@[i].1@) == Some(messages@[i].1@)
        },
{
    let mut messages: Vec<(u128, String)> = Vec::new();
    let mut i: usize = 0;
    while i < packets.len()
        invariant
            i <= packets@.len(),
            messages@.len() == i,
            forall|k: int|
                0 <= k < i ==> (#[trigger] messages@[k]).0 == packets@[k].0 && bincode_read_text(
                    packets@[k].1@,
                ) == Some(messages@[k].1@),
        decreases packets@.len() - i,
    {
        match bincode_deserialize_text(&packets[i].1) {
            Some(text) => {
                messages.push((packets[i].0, text));
            },
            None => {
                return None;
            },
        }
        i = i + 1;
    }
    proof {
        assert forall|k: int|
            0 <= k < packets@.len() implies bincode_read_text((#[trigger] packets@[k]).1@) is Some by {
            assert(messages@[k].0 == packets@[k].0);
        }
    }
    Some(messages)
}

/// Reading back the eight little-endian bytes of a `u64` gives the number.
proof fn lemma_le_u64_roundtrip(n: u64)
    ensures
        le_u64_value(le_u64_bytes(n as nat)) == n,
{
    let b = le_u64_bytes(n as nat);
    assert(b[0] == n % 0x100);
    assert(n as int == (n % 0x100) + (n / 0x100 % 0x100) * 0x100 + (n / 0x1_0000 % 0x100)
        * 0x1_0000 + (n / 0x100_0000 % 0x100) * 0x100_0000 + (n / 0x1_0000_0000 % 0x100)
        * 0x1_0000_0000 + (n / 0x100_0000_0000 % 0x100) * 0x100_0000_0000 + (n
        / 0x1_0000_0000_0000 % 0x100) * 0x1_0000_0000_0000 + (n / 0x100_0000_0000_0000 % 0x100)
        * 0x100_0000_0000_0000) by (bit_vector);
}

/// A peer reads back exactly the text that the other peer sent: decoding
/// the packet of a message gives the message (for any text whose UTF-8
/// form is shorter than 2^64 bytes, which every text in memory is).
pub proof fn lemma_message_roundtrip(text: Seq<char>)
    requires
        encode_utf8(text).len() <= u64::MAX,
    ensures
        bincode_read_text(bincode_text(text)) == Some(text),
{
    let e = encode_utf8(text);
    let n = e.len() as u64;
    let p = bincode_text(text);
    lemma_le_u64_roundtrip(n);
    assert(p.take(8) == le_u64_bytes(e.len()));
    assert(le_u64_value(p) == le_u64_value(le_u64_bytes(e.len())));
    assert(p.subrange(8, 8 + e.len() as int) == e);
    vstd::utf8::encode_utf8_valid_utf8(text);
    vstd::utf8::encode_utf8_decode_utf8(text);
}

} // verus!
