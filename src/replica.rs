//! The client's copy of the game: the snapshot it receives on joining, then
//! every event the server sends, folded in order.
use vstd::prelude::*;
use vstd::string::*;
use crate::clock::{extend, extended};
use crate::state::{
    ClientPlayer, State, StateChange, find_seat, has_id, ids_unique, seat_of,
    lemma_seat_of_unique,
};
use crate::text::{pop_char, push_char};
use crate::turn::{any_eligible, anyone_alive, has_turn, holds_turn, next_id, next_player};

verus! {

/// `new` is `old` with one more line, `line`, at the end.
pub open spec fn line_added(old: Seq<String>, new: Seq<String>, line: Seq<char>) -> bool {
    &&& new.len() == old.len() + 1
    &&& new.subrange(0, old.len() as int) == old
    &&& new[old.len() as int]@ == line
}

/// Every seat but `s` is untouched; seat `s` keeps its id, name and lives,
/// and its guess buffer is now `buf`.
pub open spec fn client_buf_set(
    old: Seq<(usize, ClientPlayer)>,
    new: Seq<(usize, ClientPlayer)>,
    s: int,
    buf: Seq<char>,
) -> bool {
    &&& 0 <= s < old.len()
    &&& new.len() == old.len()
    &&& forall|j: int| 0 <= j < old.len() && j != s ==> new[j] == old[j]
    &&& new[s].0 == old[s].0
    &&& new[s].1.name == old[s].1.name
    &&& new[s].1.lives == old[s].1.lives
    &&& new[s].1.buf@ == buf
}

/// The roster once the player `id` has left: without that player's seat.
pub open spec fn without(players: Seq<(usize, ClientPlayer)>, id: usize) -> Seq<(usize, ClientPlayer)> {
    if seat_of(players, id) >= 0 {
        players.remove(seat_of(players, id))
    } else {
        players
    }
}

/// Removing a seat keeps ids unique, and the id removed is gone.
pub proof fn lemma_without(players: Seq<(usize, ClientPlayer)>, id: usize)
    requires
        ids_unique(players),
    ensures
        ids_unique(without(players, id)),
        !has_id(without(players, id), id),
{
    let k = seat_of(players, id);
    if k >= 0 {
        assert(crate::state::is_first_seat(players, id, k));
        let r = players.remove(k);
        assert forall|i: int, j: int|
            0 <= i < r.len() && 0 <= j < r.len() && i != j implies r[i].0 != r[j].0 by {
            let a = if i < k { i } else { i + 1 };
            let b = if j < k { j } else { j + 1 };
            assert(r[i] == players[a] && r[j] == players[b]);
        }
        assert forall|i: int| 0 <= i < r.len() implies r[i].0 != id by {
            let a = if i < k { i } else { i + 1 };
            assert(r[i] == players[a]);
            assert(players[a].0 != players[k].0);
        }
    } else {
        if has_id(players, id) {
            let i = choose|i: int| 0 <= i < players.len() && players[i].0 == id;
            lemma_seat_of_unique(players, id, i);
        }
    }
}

impl State<ClientPlayer> {
    /// Everything but the chat log agrees.
    pub open spec fn same_but_chat(&self, o: Self) -> bool {
        &&& self.players == o.players
        &&& self.current_phrase == o.current_phrase
        &&& self.current_player == o.current_player
        &&& self.timer == o.timer
        &&& self.max_players == o.max_players
        &&& self.timer_length == o.timer_length
        &&& self.time_increase == o.time_increase
        &&& self.lives == o.lives
    }

    /// Everything but the roster agrees.
    pub open spec fn same_but_roster(&self, o: Self) -> bool {
        &&& self.chat == o.chat
        &&& self.current_phrase == o.current_phrase
        &&& self.current_player == o.current_player
        &&& self.timer == o.timer
        &&& self.max_players == o.max_players
        &&& self.timer_length == o.timer_length
        &&& self.time_increase == o.time_increase
        &&& self.lives == o.lives
    }

    /// What folding `change` in at time `now` leaves. An event about a
    /// player this copy does not hold changes nothing. Seating and leaving
    /// move the turn by the server's own rule: a newcomer takes the turn when
    /// nobody else has lives left, and when the player whose turn it was is
    /// gone (or has no lives), the turn passes on by rotation.
    pub open spec fn applied(&self, after: Self, change: StateChange, now: i64) -> bool {
        let players = self.players@;
        let cur = seat_of(players, self.current_player);
        match change {
            StateChange::PlayerJoin(i, p) => {
                let k = seat_of(players, i);
                &&& line_added(self.chat@, after.chat@, p.name@ + " connected"@)
                &&& after.players@ == (if k >= 0 {
                    players.update(k, (i, p))
                } else {
                    players.push((i, p))
                })
                &&& after.current_player == (if any_eligible(players) || p.lives == 0 {
                    self.current_player
                } else {
                    i
                })
                &&& after.same_but_roster(
                    State {
                        chat: after.chat,
                        players: after.players,
                        current_player: after.current_player,
                        ..*self
                    },
                )
            },
            StateChange::PlayerLeave(i) => if has_id(players, i) {
                &&& line_added(
                    self.chat@,
                    after.chat@,
                    players[seat_of(players, i)].1.name@ + " disconnected"@,
                )
                &&& after.players@ == without(players, i)
                &&& after.current_player == (if holds_turn(without(players, i), self.current_player) {
                    self.current_player
                } else {
                    next_id(without(players, i), self.current_player)
                })
                &&& after.same_but_roster(
                    State {
                        chat: after.chat,
                        players: after.players,
                        current_player: after.current_player,
                        ..*self
                    },
                )
            } else {
                after == *self
            },
            StateChange::Chat(i, msg) => if has_id(players, i) {
                &&& line_added(
                    self.chat@,
                    after.chat@,
                    players[seat_of(players, i)].1.name@ + ": "@ + msg@,
                )
                &&& after.same_but_chat(*self)
            } else {
                after == *self
            },
            StateChange::AddLetter(c) => if cur >= 0 {
                &&& client_buf_set(players, after.players@, cur, players[cur].1.buf@.push(c))
                &&& after.same_but_roster(*self)
            } else {
                after == *self
            },
            StateChange::PopLetter => if cur >= 0 {
                let b = players[cur].1.buf@;
                &&& client_buf_set(
                    players,
                    after.players@,
                    cur,
                    if b.len() == 0 {
                        b
                    } else {
                        b.drop_last()
                    },
                )
                &&& after.same_but_roster(*self)
            } else {
                after == *self
            },
            StateChange::NextPlayer(i, phrase) => {
                let k = seat_of(players, i);
                &&& after.current_player == i
                &&& after.current_phrase == phrase
                &&& after.timer == extended(self.timer, self.time_increase)
                &&& if k >= 0 {
                    client_buf_set(players, after.players@, k, Seq::empty())
                } else {
                    after.players == self.players
                }
                &&& after.chat == self.chat
                &&& after.max_players == self.max_players
                &&& after.timer_length == self.timer_length
                &&& after.time_increase == self.time_increase
                &&& after.lives == self.lives
            },
            StateChange::Incorrect => if cur >= 0 {
                &&& client_buf_set(players, after.players@, cur, Seq::empty())
                &&& after.same_but_roster(*self)
            } else {
                after == *self
            },
            StateChange::Fail(next) => {
                &&& after.current_player == next
                &&& after.timer == now
                &&& if cur >= 0 && players[cur].1.lives > 0 {
                    &&& after.players@.len() == players.len()
                    &&& forall|j: int| 0 <= j < players.len() && j != cur ==> after.players@[j] == players[j]
                    &&& after.players@[cur].0 == players[cur].0
                    &&& after.players@[cur].1.name == players[cur].1.name
                    &&& after.players@[cur].1.buf == players[cur].1.buf
                    &&& after.players@[cur].1.lives == players[cur].1.lives - 1
                } else {
                    after.players == self.players
                }
                &&& after.chat == self.chat
                &&& after.current_phrase == self.current_phrase
                &&& after.max_players == self.max_players
                &&& after.timer_length == self.timer_length
                &&& after.time_increase == self.time_increase
                &&& after.lives == self.lives
            },
            _ => after == *self,
        }
    }

    /// Folds one event from the server into this copy, at time `now`
    /// (milliseconds since the Unix epoch), which restarts the turn timer
    /// on `Fail`.
    pub fn apply(&mut self, change: StateChange, now: i64)
        ensures
            old(self).applied(*final(self), change, now),
            ids_unique(old(self).players@) ==> ids_unique(final(self).players@),
    {
        let ghost before = *self;
        match change {
            StateChange::PlayerJoin(i, p) => {
                let line = p.name.clone().concat(" connected");
                self.chat.push(line);
                if !anyone_alive(&self.players) && p.lives > 0 {
                    self.current_player = i;
                }
                match find_seat(&self.players, i) {
                    Some(k) => {
                        self.players[k] = (i, p);
                        proof {
                            let a = before.players@;
                            let b = self.players@;
                            assert forall|x: int, y: int|
                                ids_unique(a) && 0 <= x < b.len() && 0 <= y < b.len() && x != y
                                implies b[x].0 != b[y].0 by {
                                assert(b[x].0 == a[x].0 && b[y].0 == a[y].0);
                            }
                        }
                    },
                    None => {
                        self.players.push((i, p));
                        proof {
                            let a = before.players@;
                            let b = self.players@;
                            assert forall|x: int, y: int|
                                ids_unique(a) && 0 <= x < b.len() && 0 <= y < b.len() && x != y
                                implies b[x].0 != b[y].0 by {
                                if x < a.len() && y < a.len() {
                                    assert(b[x] == a[x] && b[y] == a[y]);
                                } else if x < a.len() {
                                    assert(b[x] == a[x]);
                                } else {
                                    assert(b[y] == a[y]);
                                }
                            }
                        }
                    },
                }
                proof {
                    assert(self.chat@.subrange(0, before.chat@.len() as int) =~= before.chat@);
                }
            },
            StateChange::PlayerLeave(i) => {
                if let Some(k) = find_seat(&self.players, i) {
                    let (_, gone) = self.players.remove(k);
                    let line = gone.name.concat(" disconnected");
                    self.chat.push(line);
                    if !has_turn(&self.players, self.current_player) {
                        self.current_player = next_player(&self.players, self.current_player);
                    }
                    proof {
                        assert(self.chat@.subrange(0, before.chat@.len() as int) =~= before.chat@);
                        if ids_unique(before.players@) {
                            lemma_without(before.players@, i);
                        }
                    }
                }
            },
            StateChange::Chat(i, msg) => {
                if let Some(k) = find_seat(&self.players, i) {
                    let line = self.players[k].1.name.clone().concat(": ").concat(msg.as_str());
                    self.chat.push(line);
                    proof {
                        assert(self.chat@.subrange(0, before.chat@.len() as int) =~= before.chat@);
                    }
                }
            },
            StateChange::AddLetter(c) => {
                if let Some(k) = find_seat(&self.players, self.current_player) {
                    push_char(&mut self.players[k].1.buf, c);
                    proof {
                        lemma_same_ids_unique(before.players@, self.players@);
                    }
                }
            },
            StateChange::PopLetter => {
                if let Some(k) = find_seat(&self.players, self.current_player) {
                    pop_char(&mut self.players[k].1.buf);
                    proof {
                        lemma_same_ids_unique(before.players@, self.players@);
                    }
                }
            },
            StateChange::NextPlayer(i, phrase) => {
                self.current_player = i;
                self.current_phrase = phrase;
                self.timer = extend(self.timer, self.time_increase);
                if let Some(k) = find_seat(&self.players, i) {
                    self.players[k].1.buf = String::new();
                    proof {
                        lemma_same_ids_unique(before.players@, self.players@);
                    }
                }
            },
            StateChange::Incorrect => {
                if let Some(k) = find_seat(&self.players, self.current_player) {
                    self.players[k].1.buf = String::new();
                    proof {
                        lemma_same_ids_unique(before.players@, self.players@);
                    }
                }
            },
            StateChange::Fail(next) => {
                if let Some(k) = find_seat(&self.players, self.current_player) {
                    if self.players[k].1.lives > 0 {
                        self.players[k].1.lives = self.players[k].1.lives - 1;
                        proof {
                            lemma_same_ids_unique(before.players@, self.players@);
                        }
                    }
                }
                self.timer = now;
                self.current_player = next;
            },
            _ => {},
        }
    }
}

/// Seats that keep their ids keep them unique.
pub proof fn lemma_same_ids_unique(a: Seq<(usize, ClientPlayer)>, b: Seq<(usize, ClientPlayer)>)
    requires
        a.len() == b.len(),
        forall|j: int| 0 <= j < a.len() ==> #[trigger] a[j].0 == b[j].0,
    ensures
        ids_unique(a) ==> ids_unique(b),
{
    assert forall|x: int, y: int|
        ids_unique(a) && 0 <= x < b.len() && 0 <= y < b.len() && x != y implies b[x].0 != b[y].0 by {
        assert(a[x].0 == b[x].0 && a[y].0 == b[y].0);
    }
}

} // verus!
