//! Console commands that change a player's stats: their text form, which
//! peers exchange over the reliable channel, and the queue that holds them
//! until enough time has passed for both peers to have them.

use vstd::prelude::*;

use crate::network::{lemma_remote_peers_prefix, remote_peers, PlayerType, PLAYER_COUNT};
use crate::text::{
    lemma_decimal, lemma_parse_decimal, lemma_parse_signed_decimal, lemma_words_from_space,
    lemma_words_from_word,
    chars_of, decimal, parse_i64, parse_unsigned, push_decimal, push_signed_decimal,
    signed_decimal, spec_parse_i64, spec_parse_unsigned, split_whitespace, string_from_chars,
    words,
};

verus! {

/// Milliseconds that must have passed since a command was issued before it
/// is applied, so that both peers apply it in the same round.
pub const MIN_TIME_THRESHOLD: i64 = 1500;

/// The highest nerf level; levels run from 0 (no nerf) to 9.
pub const MAX_NERF_LEVEL: usize = 9;

#[derive(Clone, Copy, Debug, PartialEq, Eq)]
pub enum AceCommands {
    /// Set the nerf level of the player with the given handle; the last field
    /// is the time (in milliseconds since the epoch) at which it was issued.
    Nerf(usize, usize, i64),
}

/// The commands waiting to be applied, oldest first.
#[derive(Debug)]
pub struct CommandQueue {
    pub queue: Vec<AceCommands>,
}

impl CommandQueue {
    pub fn new() -> (r: CommandQueue)
        ensures
            r.queue@ == Seq::<AceCommands>::empty(),
    {
        CommandQueue { queue: Vec::new() }
    }
}

impl Default for CommandQueue {
    fn default() -> (r: CommandQueue)
        ensures
            r.queue@ == Seq::<AceCommands>::empty(),
    {
        CommandQueue::new()
    }
}

pub open spec fn nerf_word() -> Seq<char> {
    seq!['n', 'e', 'r', 'f']
}

/// The text form of a command: `nerf <handle> <level> <timestamp>`.
pub open spec fn command_text(c: AceCommands) -> Seq<char> {
    match c {
        AceCommands::Nerf(handle, level, timestamp) => nerf_word() + seq![' '] + decimal(
            handle as nat,
        ) + seq![' '] + decimal(level as nat) + seq![' '] + signed_decimal(timestamp as int),
    }
}

/// The command that a text denotes: its first word is `nerf`, followed by a
/// handle, a level and a timestamp; further words are ignored.
pub open spec fn spec_from_str(s: Seq<char>) -> Option<AceCommands> {
    let parts = words(s);
    if parts.len() < 2 || parts[0] != nerf_word() {
        None
    } else {
        match spec_parse_unsigned(parts[1], usize::MAX as nat) {
            None => None,
            Some(handle) => match spec_parse_unsigned(parts[2], usize::MAX as nat) {
                None => None,
                Some(level) => match spec_parse_i64(parts[3]) {
                    None => None,
                    Some(timestamp) => Some(
                        AceCommands::Nerf(handle as usize, level as usize, timestamp as i64),
                    ),
                },
            },
        }
    }
}

/// The texts on which reading a command runs past its last word: `nerf`
/// and a valid handle, then nothing more, or a valid level and nothing more.
pub open spec fn from_str_panics(s: Seq<char>) -> bool {
    let parts = words(s);
    &&& parts.len() >= 2
    &&& parts[0] == nerf_word()
    &&& spec_parse_unsigned(parts[1], usize::MAX as nat) is Some
    &&& (parts.len() == 2 || (parts.len() == 3 && spec_parse_unsigned(
        parts[2],
        usize::MAX as nat,
    ) is Some))
}

impl AceCommands {
    /// The text form of the command (see `command_text`).
    pub fn to_string(&self) -> (s: String)
        ensures
            s@ == command_text(*self),
    {
        match *self {
            AceCommands::Nerf(handle, level, timestamp) => {
                let mut chars: Vec<char> = Vec::new();
                chars.push('n');
                chars.push('e');
                chars.push('r');
                chars.push('f');
                chars.push(' ');
                push_decimal(&mut chars, handle as u64);
                chars.push(' ');
                push_decimal(&mut chars, level as u64);
                chars.push(' ');
                push_signed_decimal(&mut chars, timestamp);
                assert(chars@ == command_text(*self));
                string_from_chars(&chars)
            },
        }
    }

    /// Reads a command from its text form (see `spec_from_str`).
    pub fn from_str(s: &str) -> (r: Option<AceCommands>)
        requires
            !from_str_panics(s@),
        ensures
            r == spec_from_str(s@),
    {
        let chars = chars_of(s);
        let parts = split_whitespace(&chars);
        let ghost views = parts@.map_values(|w: Vec<char>| w@);
        assert(views == words(s@));
        if parts.len() < 2 {
            return None;
        }
        assert(views[0] == parts@[0]@);
        assert(views[1] == parts@[1]@);
        let first = &parts[0];
        let is_nerf = first.len() == 4 && first[0] == 'n' && first[1] == 'e' && first[2] == 'r'
            && first[3] == 'f';
        if !is_nerf {
            proof {
                if first@ == nerf_word() {
                    assert(first@[0] == 'n' && first@[1] == 'e' && first@[2] == 'r' && first@[3]
                        == 'f');
                }
            }
            return None;
        }
        assert(first@ == nerf_word());
        match parse_unsigned(&parts[1], usize::MAX as u64) {
            None => None,
            Some(handle) => {
                assert(views[2] == parts@[2]@);
                match parse_unsigned(&parts[2], usize::MAX as u64) {
                    None => None,
                    Some(level) => {
                        assert(views[3] == parts@[3]@);
                        match parse_i64(&parts[3]) {
                            None => None,
                            Some(timestamp) => Some(
                                AceCommands::Nerf(handle as usize, level as usize, timestamp),
                            ),
                        }
                    },
                }
            },
        }
    }
}

/// Whether reading a command from `s` would run past its last word (see
/// `from_str_panics`).
pub fn command_text_cut_short(s: &str) -> (r: bool)
    ensures
        r == from_str_panics(s@),
{
    let chars = chars_of(s);
    let parts = split_whitespace(&chars);
    let ghost views = parts@.map_values(|w: Vec<char>| w@);
    assert(views == words(s@));
    if parts.len() < 2 || parts.len() > 3 {
        return false;
    }
    assert(views[0] == parts@[0]@);
    assert(views[1] == parts@[1]@);
    let first = &parts[0];
    let is_nerf = first.len() == 4 && first[0] == 'n' && first[1] == 'e' && first[2] == 'r'
        && first[3] == 'f';
    if !is_nerf {
        proof {
            if first@ == nerf_word() {
                assert(first@[0] == 'n' && first@[1] == 'e' && first@[2] == 'r' && first@[3]
                    == 'f');
            }
        }
        return false;
    }
    assert(first@ == nerf_word());
    if parse_unsigned(&parts[1], usize::MAX as u64).is_none() {
        return false;
    }
    if parts.len() == 2 {
        return true;
    }
    assert(views[2] == parts@[2]@);
    parse_unsigned(&parts[2], usize::MAX as u64).is_some()
}

/// Reading back the text of a command gives the command: the message a
/// peer sends is the command the other peer queues.
pub proof fn lemma_command_roundtrip(c: AceCommands)
    ensures
        spec_from_str(command_text(c)) == Some(c),
        !from_str_panics(command_text(c)),
{
    match c {
        AceCommands::Nerf(handle, level, timestamp) => {
            let dh = decimal(handle as nat);
            let dl = decimal(level as nat);
            let st = signed_decimal(timestamp as int);
            let sp = seq![' '];
            lemma_decimal(handle as nat);
            lemma_decimal(level as nat);
            lemma_parse_decimal(handle as nat, usize::MAX as nat);
            lemma_parse_decimal(level as nat, usize::MAX as nat);
            lemma_parse_signed_decimal(timestamp);
            let e = Seq::<char>::empty();
            let r3 = sp + st;
            let r2 = dl + r3;
            let r1 = sp + r2;
            let r0 = dh + r1;
            let text = nerf_word() + (sp + r0);
            assert(command_text(c) == text);
            assert(crate::text::no_whitespace(nerf_word()));
            lemma_words_from_word(nerf_word(), sp + r0, e);
            assert(e + nerf_word() == nerf_word());
            lemma_words_from_space(r0, nerf_word());
            lemma_words_from_word(dh, r1, e);
            assert(e + dh == dh);
            lemma_words_from_space(r2, dh);
            lemma_words_from_word(dl, r3, e);
            assert(e + dl == dl);
            lemma_words_from_space(st, dl);
            lemma_words_from_word(st, e, e);
            assert(st + e == st);
            assert(e + st == st);
            assert(crate::text::words_from(e, st) == seq![st]);
            let w = words(text);
            assert(w == seq![nerf_word(), dh, dl, st]);
        },
    }
}

/// Whether a command issued at `timestamp` is old enough at `now`.
pub open spec fn is_due(now: int, timestamp: int) -> bool {
    now - timestamp >= MIN_TIME_THRESHOLD
}

/// The (handle, level) nerfs of the commands in `q` that are due, in queue
/// order, when command `i` is examined at time `times[i]`.
pub open spec fn due_nerfs(q: Seq<AceCommands>, times: Seq<i64>) -> Seq<(usize, usize)>
    decreases q.len(),
{
    if q.len() == 0 {
        seq![]
    } else {
        let prev = due_nerfs(q.drop_last(), times.drop_last());
        match q.last() {
            AceCommands::Nerf(handle, level, timestamp) => if is_due(
                times.last() as int,
                timestamp as int,
            ) {
                prev.push((handle, level))
            } else {
                prev
            },
        }
    }
}

/// The commands in `q` that are not yet due, in queue order, when command
/// `i` is examined at time `times[i]`.
pub open spec fn pending_commands(q: Seq<AceCommands>, times: Seq<i64>) -> Seq<AceCommands>
    decreases q.len(),
{
    if q.len() == 0 {
        seq![]
    } else {
        let prev = pending_commands(q.drop_last(), times.drop_last());
        match q.last() {
            AceCommands::Nerf(_, _, timestamp) => if is_due(times.last() as int, timestamp as int) {
                prev
            } else {
                prev.push(q.last())
            },
        }
    }
}

/// Takes the due commands out of the queue, examining command `i` at time
/// `times[i]` (the clock's reading when it is examined), and returns their
/// (handle, level) nerfs in queue order; the rest stay queued.
pub fn apply_commands(command_queue: &mut CommandQueue, times: &Vec<i64>) -> (applied: Vec<
    (usize, usize),
>)
    requires
        times@.len() == old(command_queue).queue@.len(),
    ensures
        applied@ == due_nerfs(old(command_queue).queue@, times@),
        final(command_queue).queue@ == pending_commands(old(command_queue).queue@, times@),
{
    let ghost q = command_queue.queue@;
    let mut applied: Vec<(usize, usize)> = Vec::new();
    let mut skipped: Vec<AceCommands> = Vec::new();
    let mut i: usize = 0;
    while i < command_queue.queue.len()
        invariant
            command_queue.queue@ == q,
            times@.len() == q.len(),
            i <= q.len(),
            applied@ == due_nerfs(q.take(i as int), times@.take(i as int)),
            skipped@ == pending_commands(q.take(i as int), times@.take(i as int)),
        decreases q.len() - i,
    {
        let command = command_queue.queue[i];
        let now = times[i];
        proof {
            assert(q.take(i + 1).drop_last() == q.take(i as int));
            assert(q.take(i + 1).last() == command);
            assert(times@.take(i + 1).drop_last() == times@.take(i as int));
            assert(times@.take(i + 1).last() == now);
        }
        match command {
            AceCommands::Nerf(handle, level, timestamp) => {
                if (now as i128) - (timestamp as i128) < MIN_TIME_THRESHOLD as i128 {
                    skipped.push(command);
                } else {
                    applied.push((handle, level));
                }
            },
        }
        i = i + 1;
    }
    assert(q.take(q.len() as int) == q);
    assert(times@.take(q.len() as int) == times@);
    command_queue.queue = skipped;
    applied
}

/// Applying commands splits the queue: every command is either applied or
/// stays queued, and each one that stays was not due when it was examined.
pub proof fn lemma_apply_commands_partition(q: Seq<AceCommands>, times: Seq<i64>)
    requires
        times.len() == q.len(),
    ensures
        due_nerfs(q, times).len() + pending_commands(q, times).len() == q.len(),
        forall|i: int|
            0 <= i < pending_commands(q, times).len() ==> exists|j: int|
                0 <= j < q.len() && q[j] == #[trigger] pending_commands(q, times)[i] && match q[j] {
                    AceCommands::Nerf(_, _, timestamp) => !is_due(times[j] as int, timestamp as int),
                },
    decreases q.len(),
{
    if q.len() > 0 {
        lemma_apply_commands_partition(q.drop_last(), times.drop_last());
        let prev = pending_commands(q.drop_last(), times.drop_last());
        let cur = pending_commands(q, times);
        assert forall|i: int| 0 <= i < cur.len() implies exists|j: int|
            0 <= j < q.len() && q[j] == #[trigger] cur[i] && match q[j] {
                AceCommands::Nerf(_, _, timestamp) => !is_due(times[j] as int, timestamp as int),
            } by {
            if i < prev.len() {
                assert(cur[i] == prev[i]);
                let j = choose|j: int|
                    0 <= j < q.drop_last().len() && q.drop_last()[j] == prev[i] && match q.drop_last()[j] {
                        AceCommands::Nerf(_, _, timestamp) => !is_due(
                            times.drop_last()[j] as int,
                            timestamp as int,
                        ),
                    };
                assert(q[j] == q.drop_last()[j]);
                assert(times[j] == times.drop_last()[j]);
            } else {
                let j = q.len() - 1;
                assert(q[j] == cur[i]);
            }
        }
    }
}

/// The commands that the received messages denote, in order, skipping
/// those that denote none.
pub open spec fn parsed_commands(messages: Seq<Seq<char>>) -> Seq<AceCommands>
    decreases messages.len(),
{
    if messages.len() == 0 {
        seq![]
    } else {
        let prev = parsed_commands(messages.drop_last());
        match spec_from_str(messages.last()) {
            Some(c) => prev.push(c),
            None => prev,
        }
    }
}

/// Queues the commands in the received messages; returns how many messages
/// denoted no command.
pub fn receive_commands(command_queue: &mut CommandQueue, messages: &Vec<String>) -> (failed:
    usize)
    requires
        forall|i: int| 0 <= i < messages@.len() ==> !from_str_panics(#[trigger] messages@[i]@),
    ensures
        final(command_queue).queue@ == old(command_queue).queue@ + parsed_commands(
            messages@.map_values(|m: String| m@),
        ),
        failed == messages@.len() - parsed_commands(messages@.map_values(|m: String| m@)).len(),
{
    let ghost q0 = command_queue.queue@;
    let ghost views = messages@.map_values(|m: String| m@);
    let mut failed: usize = 0;
    let mut i: usize = 0;
    proof {
        assert(views.take(0) == Seq::<Seq<char>>::empty());
        assert(q0 + Seq::<AceCommands>::empty() == q0);
    }
    while i < messages.len()
        invariant
            i <= messages@.len(),
            views == messages@.map_values(|m: String| m@),
            forall|k: int| 0 <= k < messages@.len() ==> !from_str_panics(#[trigger] messages@[k]@),
            command_queue.queue@ == q0 + parsed_commands(views.take(i as int)),
            failed == i - parsed_commands(views.take(i as int)).len(),
            parsed_commands(views.take(i as int)).len() <= i,
        decreases messages@.len() - i,
    {
        proof {
            assert(views.take(i + 1).drop_last() == views.take(i as int));
            assert(views.take(i + 1).last() == messages@[i as int]@);
        }
        match AceCommands::from_str(messages[i].as_str()) {
            Some(c) => {
                command_queue.queue.push(c);
                assert(q0 + parsed_commands(views.take(i as int)).push(c) == (q0
                    + parsed_commands(views.take(i as int))).push(c));
            },
            None => {
                failed = failed + 1;
            },
        }
        i = i + 1;
    }
    assert(views.take(i as int) == views);
    failed
}

/// The `nerf <handle> <level>` console command. It fails, changing nothing,
/// unless the handle names a player and the level is at most 9. Otherwise,
/// for every remote player (the `i`th one with the clock reading
/// `timestamps[i]`) it queues a nerf issued at that time and returns the
/// message to send to that player: the command's text.
pub fn nerf_command(
    command_queue: &mut CommandQueue,
    handle: usize,
    level: usize,
    players: &Vec<PlayerType>,
    timestamps: &Vec<i64>,
) -> (r: Option<Vec<(u128, String)>>)
    requires
        handle < PLAYER_COUNT && level <= MAX_NERF_LEVEL ==> timestamps@.len() == remote_peers(
            players@,
        ).len(),
    ensures
        r is None <==> (handle >= PLAYER_COUNT || level > MAX_NERF_LEVEL),
        r is None ==> final(command_queue).queue@ == old(command_queue).queue@,
        r matches Some(messages) ==> {
            &&& final(command_queue).queue@ == old(command_queue).queue@ + Seq::new(
                messages@.len(),
                |i: int| AceCommands::Nerf(handle, level, timestamps@[i]),
            )
            &&& messages@.len() == remote_peers(players@).len()
            &&& forall|i: int|
                0 <= i < messages@.len() ==> {
                    &&& (#[trigger] messages@[i]).0 == remote_peers(players@)[i]
                    &&& messages@[i].1@ == command_text(
                        AceCommands::Nerf(handle, level, timestamps@[i]),
                    )
                }
        },
{
    if handle >= PLAYER_COUNT || level > MAX_NERF_LEVEL {
        return None;
    }
    let ghost q0 = command_queue.queue@;
    let mut messages: Vec<(u128, String)> = Vec::new();
    let mut i: usize = 0;
    while i < players.len()
        invariant
            i <= players@.len(),
            timestamps@.len() == remote_peers(players@).len(),
            command_queue.queue@ == q0 + Seq::new(
                messages@.len(),
                |k: int| AceCommands::Nerf(handle, level, timestamps@[k]),
            ),
            messages@.len() == remote_peers(players@.take(i as int)).len(),
            forall|k: int|
                0 <= k < messages@.len() ==> {
                    &&& (#[trigger] messages@[k]).0 == remote_peers(players@.take(i as int))[k]
                    &&& messages@[k].1@ == command_text(
                        AceCommands::Nerf(handle, level, timestamps@[k]),
                    )
                },
        decreases players@.len() - i,
    {
        proof {
            assert(players@.take(i + 1).drop_last() == players@.take(i as int));
            assert(players@.take(i + 1).last() == players@[i as int]);
            lemma_remote_peers_prefix(players@, i + 1);
        }
        match players[i] {
            PlayerType::Remote(peer_id) => {
                let n = messages.len();
                let push_cmd = AceCommands::Nerf(handle, level, timestamps[n]);
                let text = push_cmd.to_string();
                let ghost q1 = command_queue.queue@;
                messages.push((peer_id, text));
                command_queue.queue.push(push_cmd);
                proof {
                    assert(command_queue.queue@ == q0 + Seq::new(
                        messages@.len(),
                        |k: int| AceCommands::Nerf(handle, level, timestamps@[k]),
                    ));
                }
            },
            _ => {},
        }
        i = i + 1;
    }
    assert(players@.take(players@.len() as int) == players@);
    Some(messages)
}

/// The `reset` console command: for every remote player (the `j`th one
/// with the clock reading `timestamps[j]`), nerfs of level 0 (the default
/// stats) for both players, issued at that time, queued and returned as
/// messages.
pub fn reset_command(
    command_queue: &mut CommandQueue,
    players: &Vec<PlayerType>,
    timestamps: &Vec<i64>,
) -> (messages: Vec<(u128, String)>)
    requires
        timestamps@.len() == remote_peers(players@).len(),
    ensures
        final(command_queue).queue@ == old(command_queue).queue@ + Seq::new(
            messages@.len(),
            |i: int| AceCommands::Nerf((i % 2) as usize, 0, timestamps@[i / 2]),
        ),
        messages@.len() == 2 * remote_peers(players@).len(),
        forall|i: int|
            0 <= i < messages@.len() ==> {
                &&& (#[trigger] messages@[i]).0 == remote_peers(players@)[i / 2]
                &&& messages@[i].1@ == command_text(
                    AceCommands::Nerf((i % 2) as usize, 0, timestamps@[i / 2]),
                )
            },
{
    let ghost q0 = command_queue.queue@;
    let mut messages: Vec<(u128, String)> = Vec::new();
    let mut i: usize = 0;
    while i < players.len()
        invariant
            i <= players@.len(),
            timestamps@.len() == remote_peers(players@).len(),
            command_queue.queue@ == q0 + Seq::new(
                messages@.len(),
                |k: int| AceCommands::Nerf((k % 2) as usize, 0, timestamps@[k / 2]),
            ),
            messages@.len() == 2 * remote_peers(players@.take(i as int)).len(),
            forall|k: int|
                0 <= k < messages@.len() ==> {
                    &&& (#[trigger] messages@[k]).0 == remote_peers(players@.take(i as int))[k / 2]
                    &&& messages@[k].1@ == command_text(
                        AceCommands::Nerf((k % 2) as usize, 0, timestamps@[k / 2]),
                    )
                },
        decreases players@.len() - i,
    {
        proof {
            assert(players@.take(i + 1).drop_last() == players@.take(i as int));
            assert(players@.take(i + 1).last() == players@[i as int]);
            lemma_remote_peers_prefix(players@, i + 1);
        }
        match players[i] {
            PlayerType::Remote(peer_id) => {
                let j = messages.len() / 2;
                let timestamp = timestamps[j];
                let mut h: usize = 0;
                while h < 2
                    invariant
                        h <= 2,
                        j == remote_peers(players@.take(i as int)).len(),
                        j < timestamps@.len(),
                        timestamp == timestamps@[j as int],
                        command_queue.queue@ == q0 + Seq::new(
                            messages@.len(),
                            |k: int| AceCommands::Nerf((k % 2) as usize, 0, timestamps@[k / 2]),
                        ),
                        messages@.len() == 2 * j + h,
                        players@[i as int] == PlayerType::Remote(peer_id),
                        remote_peers(players@.take(i + 1)) == remote_peers(
                            players@.take(i as int),
                        ).push(peer_id),
                        forall|k: int|
                            0 <= k < messages@.len() ==> {
                                &&& (#[trigger] messages@[k]).0 == remote_peers(
                                    players@.take(i + 1),
                                )[k / 2]
                                &&& messages@[k].1@ == command_text(
                                    AceCommands::Nerf((k % 2) as usize, 0, timestamps@[k / 2]),
                                )
                            },
                    decreases 2 - h,
                {
                    let push_cmd = AceCommands::Nerf(h, 0, timestamp);
                    let text = push_cmd.to_string();
                    let ghost m0 = messages@;
                    let ghost q1 = command_queue.queue@;
                    messages.push((peer_id, text));
                    command_queue.queue.push(push_cmd);
                    proof {
                        let k_new = m0.len() as int;
                        assert(k_new / 2 == j && k_new % 2 == h as int) by (nonlinear_arith)
                            requires
                                k_new == 2 * j + h,
                                0 <= h < 2,
                        ;
                        assert(command_queue.queue@ == q0 + Seq::new(
                            messages@.len(),
                            |k: int| AceCommands::Nerf((k % 2) as usize, 0, timestamps@[k / 2]),
                        ));
                        assert forall|k: int| 0 <= k < messages@.len() implies {
                            &&& (#[trigger] messages@[k]).0 == remote_peers(players@.take(i + 1))[k
                                / 2]
                            &&& messages@[k].1@ == command_text(
                                AceCommands::Nerf((k % 2) as usize, 0, timestamps@[k / 2]),
                            )
                        } by {
                            if k < k_new {
                                assert(messages@[k] == m0[k]);
                            }
                        }
                    }
                    h = h + 1;
                }
            },
            _ => {},
        }
        i = i + 1;
    }
    assert(players@.take(players@.len() as int) == players@);
    messages
}

/// Empties the queue when a new game starts.
pub fn reset_commands(command_queue: &mut CommandQueue)
    ensures
        final(command_queue).queue@ == Seq::<AceCommands>::empty(),
{
    command_queue.queue = Vec::new();
}

} // verus!
