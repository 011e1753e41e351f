//! Properties of the game that hold across every input and every run,
//! proved from the contracts of the operations they speak of.
use vstd::prelude::*;
use crate::clock::extended;
use crate::replica::{client_buf_set, lemma_without, without};
use crate::roster::lemma_kept_one;
use crate::room::{Room, buf_set, lemma_joined_wf, lives_set};
use crate::state::{
    ClientPlayer, Seat, ServerPlayer, State, StateChange, has_id, ids_unique, is_first_seat, same_ids,
    seat_of, lemma_same_ids_seat, lemma_seat_of_absent, lemma_seat_of_unique,
};
use crate::turn::{
    any_eligible, cyc, eligible, holds_turn, lemma_cyc_covers, lemma_eligible_from,
    lemma_next_holds_turn, lemma_next_seated, lemma_same_shape, next_id, next_seat, same_shape,
    start_seat,
};

verus! {

proof fn lemma_join_chain<C>(
    rooms: Seq<Room<C>>,
    names: Seq<String>,
    streams: Seq<C>,
    results: Seq<Option<(usize, ClientPlayer)>>,
    n: int,
)
    requires
        rooms.len() == results.len() + 1,
        names.len() == results.len(),
        streams.len() == results.len(),
        rooms[0].wf(),
        forall|k: int|
            #![trigger results[k]]
            0 <= k < results.len() ==> rooms[k].joined(rooms[k + 1], names[k], streams[k], results[k]),
        0 <= n < rooms.len(),
    ensures
        forall|k: int| 0 <= k <= n ==> #[trigger] rooms[k].wf(),
        forall|a: int, b: int| 0 <= a <= b <= n ==> rooms[a].next_id <= rooms[b].next_id,
    decreases n,
{
    if n > 0 {
        lemma_join_chain(rooms, names, streams, results, n - 1);
        assert(rooms[n - 1].joined(rooms[n], names[n - 1], streams[n - 1], results[n - 1]));
        lemma_joined_wf(rooms[n - 1], rooms[n], names[n - 1], streams[n - 1], results[n - 1]);
        assert forall|a: int, b: int| 0 <= a <= b <= n implies rooms[a].next_id
            <= rooms[b].next_id by {
            if b == n && a < n {
                assert(rooms[a].next_id <= rooms[n - 1].next_id);
            }
        }
    }
}

/// However many players join, one after another: every room along the way
/// is well formed, so the roster never holds more than `max_players` and its
/// ids are unique; and no id is handed out twice.
pub proof fn law_joins_keep_roster<C>(
    rooms: Seq<Room<C>>,
    names: Seq<String>,
    streams: Seq<C>,
    results: Seq<Option<(usize, ClientPlayer)>>,
)
    requires
        rooms.len() == results.len() + 1,
        names.len() == results.len(),
        streams.len() == results.len(),
        rooms[0].wf(),
        forall|k: int|
            #![trigger results[k]]
            0 <= k < results.len() ==> rooms[k].joined(rooms[k + 1], names[k], streams[k], results[k]),
    ensures
        forall|k: int|
            0 <= k < rooms.len() ==> {
                &&& #[trigger] rooms[k].wf()
                &&& rooms[k].state.players@.len() <= rooms[k].state.max_players
                &&& ids_unique(rooms[k].state.players@)
            },
        forall|a: int, b: int|
            0 <= a < b < results.len() && results[a] is Some && results[b] is Some
                ==> results[a]->Some_0.0 != results[b]->Some_0.0,
{
    lemma_join_chain(rooms, names, streams, results, results.len() as int);
    assert forall|k: int| 0 <= k < rooms.len() implies {
        &&& #[trigger] rooms[k].wf()
        &&& rooms[k].state.players@.len() <= rooms[k].state.max_players
        &&& ids_unique(rooms[k].state.players@)
    } by {
        assert(rooms[k].wf());
    }
    assert forall|a: int, b: int|
        0 <= a < b < results.len() && results[a] is Some && results[b] is Some implies results[a]->Some_0.0
        != results[b]->Some_0.0 by {
        assert(rooms[a].joined(rooms[a + 1], names[a], streams[a], results[a]));
        assert(rooms[b].joined(rooms[b + 1], names[b], streams[b], results[b]));
        assert(rooms[a + 1].next_id <= rooms[b].next_id);
    }
}

/// A letter, a deletion or a submission from anyone but the player whose
/// turn it is changes nothing and sends nothing.
pub proof fn law_off_turn_is_noop<C>(
    room: Room<C>,
    after: Room<C>,
    id: usize,
    change: StateChange,
    r: Option<StateChange>,
)
    requires
        room.wf(),
        id != room.state.current_player,
        change is AddLetter || change is PopLetter || change is Submit,
        room.acted(after, id, change, r),
    ensures
        after == room,
        r is None,
{
    if change is Submit {
        let phrase = choose|phrase: String|
            crate::words::listed(room.dict.phrases@, phrase@) && room.submitted(after, id, phrase, r);
    }
}

/// Where some seat other than `k` holds a player with lives left, rotation
/// from seat `k` leaves it.
pub proof fn lemma_next_moves_on<C>(players: Seq<(usize, ServerPlayer<C>)>, cur: usize, j: int)
    requires
        ids_unique(players),
        seat_of(players, cur) >= 0,
        0 <= j < players.len(),
        j != seat_of(players, cur),
        eligible(players, j),
    ensures
        next_id(players, cur) != cur,
{
    let n = players.len() as int;
    let k = seat_of(players, cur);
    assert(is_first_seat(players, cur, k));
    assert(start_seat(players, cur) == k);
    lemma_eligible_from(players, k, 1);
    lemma_cyc_covers(k, n, j);
    let ej = choose|e: int| 1 <= e <= n && #[trigger] cyc(k, e, n) == j;
    assert(ej < n);
    let ns = next_seat(players, cur);
    let e = choose|e: int|
        1 <= e <= n && ns == cyc(k, e, n) && 0 <= cyc(k, e, n) < n && eligible(players, cyc(k, e, n))
            && (forall|f: int| 1 <= f < e ==> !eligible(players, #[trigger] cyc(k, f, n)));
    if e > ej {
        assert(!eligible(players, cyc(k, ej, n)));
    }
    assert(ns != k);
    assert(players[ns].0 != players[k].0);
}

/// A word that counts passes the turn on: to a player with lives left
/// whenever anyone has lives left, away from the submitter whenever another
/// player has lives left; and the turn timer gains exactly `time_increase`
/// seconds, short of the ends of the timestamp range.
pub proof fn law_good_word_passes_turn<C>(
    room: Room<C>,
    after: Room<C>,
    id: usize,
    phrase: String,
    r: Option<StateChange>,
)
    requires
        room.wf(),
        room.may_act(id),
        room.word_ok(id),
        room.submitted(after, id, phrase, r),
    ensures
        r == Some(StateChange::NextPlayer(after.state.current_player, phrase)),
        after.state.current_player == next_id(room.state.players@, id),
        any_eligible(room.state.players@) ==> holds_turn(
            after.state.players@,
            after.state.current_player,
        ),
        (exists|j: int|
            0 <= j < room.state.players@.len() && j != seat_of(room.state.players@, id) && eligible(
                room.state.players@,
                j,
            )) ==> after.state.current_player != id,
        after.state.timer == extended(room.state.timer, room.state.time_increase),
        i64::MIN <= room.state.timer + room.state.time_increase * 1000 <= i64::MAX
            ==> after.state.timer == room.state.timer + room.state.time_increase * 1000,
{
    let a = room.state.players@;
    let b = after.state.players@;
    let next = next_id(a, id);
    lemma_next_holds_turn(a, id);
    assert(same_ids(a, b));
    lemma_same_ids_seat(a, b, next);
    if any_eligible(a) {
        let s = seat_of(a, next);
        assert(a[s].1.lives == b[s].1.lives);
    }
    if exists|j: int| 0 <= j < a.len() && j != seat_of(a, id) && eligible(a, j) {
        let j = choose|j: int| 0 <= j < a.len() && j != seat_of(a, id) && eligible(a, j);
        lemma_next_moves_on(a, id, j);
    }
}

/// A timer check takes at most one life from any player, and only a life the
/// player has; a timeout takes exactly one from the player whose turn it was.
pub proof fn law_timeout_costs_one_life<C>(room: Room<C>, after: Room<C>, now: i64, r: StateChange)
    requires
        room.wf(),
        room.ticked(after, now, r),
    ensures
        after.state.players@.len() == room.state.players@.len(),
        forall|j: int|
            0 <= j < room.state.players@.len() ==> {
                let before = room.state.players@[j].1.lives;
                let later = #[trigger] after.state.players@[j].1.lives;
                later == before || (before > 0 && later == before - 1)
            },
        r is Fail ==> {
            let s = seat_of(room.state.players@, room.state.current_player);
            &&& 0 <= s < room.state.players@.len()
            &&& room.state.players@[s].1.lives > 0
            &&& after.state.players@[s].1.lives == room.state.players@[s].1.lives - 1
        },
{
}

/// Folding `PlayerLeave(id)` into a client's copy twice leaves what folding
/// it once does: after the first the player is gone, and the second changes
/// nothing.
pub proof fn law_leave_twice(
    s0: State<ClientPlayer>,
    s1: State<ClientPlayer>,
    s2: State<ClientPlayer>,
    id: usize,
    t1: i64,
    t2: i64,
)
    requires
        ids_unique(s0.players@),
        s0.applied(s1, StateChange::PlayerLeave(id), t1),
        s1.applied(s2, StateChange::PlayerLeave(id), t2),
    ensures
        s2 == s1,
        !has_id(s1.players@, id),
{
    lemma_without(s0.players@, id);
    if !has_id(s0.players@, id) {
        assert(s1 == s0);
    }
}

/// A client's roster shows the server's: the same seats in the same order,
/// with the same ids, names, buffers and lives.
pub open spec fn roster_mirrors<C>(a: Seq<(usize, ClientPlayer)>, b: Seq<(usize, ServerPlayer<C>)>) -> bool {
    &&& same_shape(a, b)
    &&& forall|j: int| #![trigger a[j]] 0 <= j < a.len() ==> a[j].1.name@ == b[j].1.name@
    &&& forall|j: int| #![trigger a[j]] 0 <= j < a.len() ==> a[j].1.buf@ == b[j].1.buf@
}

/// A client's copy shows the room: its roster, whose turn it is, and the phrase.
pub open spec fn mirrors<C>(copy: State<ClientPlayer>, room: Room<C>) -> bool {
    &&& roster_mirrors(copy.players@, room.state.players@)
    &&& copy.current_player == room.state.current_player
    &&& copy.current_phrase@ == room.state.current_phrase@
}

/// The same buffer change at the same seat on both sides keeps the rosters alike.
proof fn lemma_mirror_buf<C>(
    a: Seq<(usize, ClientPlayer)>,
    b: Seq<(usize, ServerPlayer<C>)>,
    a2: Seq<(usize, ClientPlayer)>,
    b2: Seq<(usize, ServerPlayer<C>)>,
    k: int,
    buf: Seq<char>,
)
    requires
        roster_mirrors(a, b),
        buf_set(b, b2, k, buf),
        client_buf_set(a, a2, k, buf),
    ensures
        roster_mirrors(a2, b2),
{
    assert forall|j: int| #![trigger a2[j]] 0 <= j < a2.len() implies a2[j].0 == b2[j].0 && a2[j].1.lives_of()
        == b2[j].1.lives_of() && a2[j].1.name@ == b2[j].1.name@ && a2[j].1.buf@ == b2[j].1.buf@ by {
        assert(a[j].0 == b[j].0 && a[j].1.lives_of() == b[j].1.lives_of());
        assert(a[j].1.name@ == b[j].1.name@ && a[j].1.buf@ == b[j].1.buf@);
    }
}

/// Whatever a player's message makes the room send, folding it into a copy
/// that showed the room leaves a copy that shows the room as it now is.
pub proof fn law_mirror_after_act<C>(
    room: Room<C>,
    after: Room<C>,
    id: usize,
    change: StateChange,
    ev: StateChange,
    copy: State<ClientPlayer>,
    copy2: State<ClientPlayer>,
    now: i64,
)
    requires
        room.wf(),
        mirrors(copy, room),
        room.acted(after, id, change, Some(ev)),
        copy.applied(copy2, ev, now),
    ensures
        mirrors(copy2, after),
{
    let a = copy.players@;
    let b = room.state.players@;
    let cur = room.state.current_player;
    lemma_same_shape(a, b, cur);
    match change {
        StateChange::ChatSend(msg) => {
            lemma_same_shape(a, b, id);
        },
        StateChange::AddLetter(c) => {
            let k = seat_of(b, id);
            lemma_mirror_buf(a, b, copy2.players@, after.state.players@, k, b[k].1.buf@.push(c));
        },
        StateChange::PopLetter => {
            let k = seat_of(b, id);
            let old_buf = b[k].1.buf@;
            lemma_mirror_buf(
                a,
                b,
                copy2.players@,
                after.state.players@,
                k,
                if old_buf.len() == 0 {
                    old_buf
                } else {
                    old_buf.drop_last()
                },
            );
        },
        StateChange::Submit => {
            let phrase = choose|phrase: String|
                crate::words::listed(room.dict.phrases@, phrase@) && room.submitted(
                    after,
                    id,
                    phrase,
                    Some(ev),
                );
            if room.word_ok(id) {
                let next = next_id(b, id);
                lemma_next_seated(b, id);
                lemma_same_shape(a, b, next);
                lemma_mirror_buf(
                    a,
                    b,
                    copy2.players@,
                    after.state.players@,
                    seat_of(b, next),
                    Seq::empty(),
                );
            } else {
                lemma_mirror_buf(
                    a,
                    b,
                    copy2.players@,
                    after.state.players@,
                    seat_of(b, id),
                    Seq::empty(),
                );
            }
        },
        _ => {},
    }
}

/// Whatever the timer check makes the room send, folding it into a copy that
/// showed the room leaves a copy that shows the room as it now is.
pub proof fn law_mirror_after_tick<C>(
    room: Room<C>,
    after: Room<C>,
    now: i64,
    ev: StateChange,
    copy: State<ClientPlayer>,
    copy2: State<ClientPlayer>,
    t: i64,
)
    requires
        room.wf(),
        mirrors(copy, room),
        room.ticked(after, now, ev),
        copy.applied(copy2, ev, t),
    ensures
        mirrors(copy2, after),
{
    let a = copy.players@;
    let b = room.state.players@;
    let cur = room.state.current_player;
    lemma_same_shape(a, b, cur);
    if ev is Fail {
        let k = seat_of(b, cur);
        let a2 = copy2.players@;
        let b2 = after.state.players@;
        assert(lives_set(b, b2, k, (b[k].1.lives - 1) as u8));
        assert forall|j: int| #![trigger a2[j]] 0 <= j < a2.len() implies a2[j].0 == b2[j].0
            && a2[j].1.lives_of() == b2[j].1.lives_of() && a2[j].1.name@ == b2[j].1.name@
            && a2[j].1.buf@ == b2[j].1.buf@ by {
            assert(a[j].0 == b[j].0 && a[j].1.lives_of() == b[j].1.lives_of());
            assert(a[j].1.name@ == b[j].1.name@ && a[j].1.buf@ == b[j].1.buf@);
        }
        assert(roster_mirrors(a2, b2));
    }
}

/// Seating a player and folding the `PlayerJoin` that announces it into a
/// copy that showed the room leaves a copy that shows the room as it now is,
/// turn included.
pub proof fn law_mirror_after_join<C>(
    room: Room<C>,
    after: Room<C>,
    name: String,
    stream: C,
    id: usize,
    cp: ClientPlayer,
    copy: State<ClientPlayer>,
    copy2: State<ClientPlayer>,
    t: i64,
)
    requires
        room.wf(),
        mirrors(copy, room),
        room.joined(after, name, stream, Some((id, cp))),
        copy.applied(copy2, StateChange::PlayerJoin(id, cp), t),
    ensures
        mirrors(copy2, after),
{
    let a = copy.players@;
    let b = room.state.players@;
    let n = b.len() as int;
    lemma_joined_wf(room, after, name, stream, Some((id, cp)));
    lemma_same_shape(a, b, id);
    lemma_same_shape(a, b, room.state.current_player);
    lemma_seat_of_absent(a, id);
    let a2 = copy2.players@;
    let b2 = after.state.players@;
    assert(a2 == a.push((id, cp)));
    assert forall|j: int| #![trigger a2[j]] 0 <= j < a2.len() implies a2[j].0 == b2[j].0
        && a2[j].1.lives_of() == b2[j].1.lives_of() && a2[j].1.name@ == b2[j].1.name@
        && a2[j].1.buf@ == b2[j].1.buf@ by {
        if j < n {
            assert(b2[j] == b2.subrange(0, n)[j]);
            assert(a[j].0 == b[j].0 && a[j].1.lives_of() == b[j].1.lives_of());
            assert(a[j].1.name@ == b[j].1.name@ && a[j].1.buf@ == b[j].1.buf@);
        } else {
            assert(a2[j].1.buf@ =~= b2[j].1.buf@);
        }
    }
}

/// When one player's connection fails during a broadcast, the room prunes
/// that player alone, and folding the `PlayerLeave` it then sends into a copy
/// that showed the room leaves a copy that shows the room as it now is, turn
/// included, also where the player who left held the turn.
pub proof fn law_mirror_after_lone_prune<C>(
    room: Room<C>,
    after: Room<C>,
    delivered: Seq<bool>,
    gone: Seq<(String, usize)>,
    g: int,
    copy: State<ClientPlayer>,
    copy2: State<ClientPlayer>,
    t: i64,
)
    requires
        room.wf(),
        mirrors(copy, room),
        delivered.len() == room.state.players@.len(),
        0 <= g < delivered.len(),
        !delivered[g],
        forall|j: int| 0 <= j < delivered.len() && j != g ==> delivered[j],
        room.pruned(after, delivered, gone),
        copy.applied(copy2, StateChange::PlayerLeave(room.state.players@[g].0), t),
    ensures
        gone.len() == 1,
        gone[0].1 == room.state.players@[g].0,
        mirrors(copy2, after),
{
    let a = copy.players@;
    let b = room.state.players@;
    let n = b.len() as int;
    let id = b[g].0;
    let cur = room.state.current_player;
    lemma_kept_one(b, delivered, g, n);
    assert(b.subrange(0, n) =~= b);
    let dropped_seq = crate::roster::dropped(b, delivered, n);
    assert(dropped_seq[0] == b[g]);
    lemma_seat_of_unique(b, id, g);
    lemma_same_shape(a, b, id);
    assert(copy2.players@ == without(a, id));
    let a2 = a.remove(g);
    let b2 = b.remove(g);
    assert(after.state.players@ == b2);
    assert forall|j: int| #![trigger a2[j]] 0 <= j < a2.len() implies a2[j].0 == b2[j].0
        && a2[j].1.lives_of() == b2[j].1.lives_of() && a2[j].1.name@ == b2[j].1.name@
        && a2[j].1.buf@ == b2[j].1.buf@ by {
        let i = if j < g { j } else { j + 1 };
        assert(a2[j] == a[i] && b2[j] == b[i]);
        assert(a[i].0 == b[i].0 && a[i].1.lives_of() == b[i].1.lives_of());
        assert(a[i].1.name@ == b[i].1.name@ && a[i].1.buf@ == b[i].1.buf@);
    }
    assert(roster_mirrors(a2, b2));
    lemma_same_shape(a2, b2, cur);
}

/// One operation hands out `next_id` when it seats someone and raises it by
/// one; otherwise it leaves `next_id` alone.
proof fn lemma_step_next_id<C>(r0: Room<C>, r1: Room<C>, handed: Option<usize>)
    requires
        r0.stepped(r1, handed),
    ensures
        handed is Some ==> handed->Some_0 == r0.next_id && r1.next_id == r0.next_id + 1,
        handed is None ==> r1.next_id == r0.next_id || r1.next_id == r0.next_id + 1,
        r0.next_id <= r1.next_id,
{
    if exists|id: usize, change: StateChange, r: Option<StateChange>| r0.acted(r1, id, change, r) {
        let (id, change, r) = choose|id: usize, change: StateChange, r: Option<StateChange>|
            r0.acted(r1, id, change, r);
        if change is Submit {
            let phrase = choose|phrase: String|
                crate::words::listed(r0.dict.phrases@, phrase@) && r0.submitted(r1, id, phrase, r);
        }
    }
}

proof fn lemma_step_chain<C>(rooms: Seq<Room<C>>, handed: Seq<Option<usize>>, n: int)
    requires
        rooms.len() == handed.len() + 1,
        forall|k: int|
            #![trigger handed[k]]
            0 <= k < handed.len() ==> rooms[k].stepped(rooms[k + 1], handed[k]),
        0 <= n < rooms.len(),
    ensures
        forall|a: int, b: int| 0 <= a <= b <= n ==> rooms[a].next_id <= rooms[b].next_id,
    decreases n,
{
    if n > 0 {
        lemma_step_chain(rooms, handed, n - 1);
        assert(rooms[n - 1].stepped(rooms[n], handed[n - 1]));
        lemma_step_next_id(rooms[n - 1], rooms[n], handed[n - 1]);
        assert forall|a: int, b: int| 0 <= a <= b <= n implies rooms[a].next_id
            <= rooms[b].next_id by {
            if b == n && a < n {
                assert(rooms[a].next_id <= rooms[n - 1].next_id);
            }
        }
    }
}

/// Across any run of the room, whatever mix of joins, player messages, timer
/// checks and prunes it holds, the ids that joins hand out strictly increase:
/// no id is handed out twice, also after its player has left.
pub proof fn law_ids_never_reused<C>(rooms: Seq<Room<C>>, handed: Seq<Option<usize>>)
    requires
        rooms.len() == handed.len() + 1,
        forall|k: int|
            #![trigger handed[k]]
            0 <= k < handed.len() ==> rooms[k].stepped(rooms[k + 1], handed[k]),
    ensures
        forall|a: int, b: int|
            0 <= a < b < handed.len() && handed[a] is Some && handed[b] is Some
                ==> handed[a]->Some_0 < handed[b]->Some_0,
{
    lemma_step_chain(rooms, handed, handed.len() as int);
    assert forall|a: int, b: int|
        0 <= a < b < handed.len() && handed[a] is Some && handed[b] is Some implies handed[a]->Some_0
        < handed[b]->Some_0 by {
        lemma_step_next_id(rooms[a], rooms[a + 1], handed[a]);
        lemma_step_next_id(rooms[b], rooms[b + 1], handed[b]);
        assert(rooms[a + 1].next_id <= rooms[b].next_id);
    }
}

} // verus!
