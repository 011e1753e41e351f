//! The authoritative game: roster admission, player actions, the turn timer,
//! and the pruning of players whose connection failed during a broadcast.
use vstd::prelude::*;
use crate::clock::{expired, extended, extend, has_expired, now_millis};
use crate::roster::{among, dropped, kept, lemma_kept, split_seats};
use crate::state::{
    MAX_PLAYERS, STARTING_LIVES, TIMER_LENGTH, TIME_INCREASE, ClientPlayer, ServerPlayer, State, StateChange, find_seat, has_id, ids_unique, same_ids,
    seat_of, lemma_same_ids_seat, lemma_seat_of_unique,
};
use crate::text::{
    blank, has_substring, is_alphabetic, alphabetic, pop_char, push_char, str_contains,
};
use crate::turn::{
    any_eligible, eligible, holds_turn, next_id, next_player, lemma_next_holds_turn,
    lemma_next_seated,
};
use crate::words::{Dictionary, listed, is_listed};

verus! {

/// Every seat but `s` is untouched; seat `s` keeps its id, name, lives and
/// connection, and its guess buffer is now `buf`.
pub open spec fn buf_set<C>(
    old: Seq<(usize, ServerPlayer<C>)>,
    new: Seq<(usize, ServerPlayer<C>)>,
    s: int,
    buf: Seq<char>,
) -> bool {
    &&& 0 <= s < old.len()
    &&& new.len() == old.len()
    &&& forall|j: int| 0 <= j < old.len() && j != s ==> new[j] == old[j]
    &&& new[s].0 == old[s].0
    &&& new[s].1.name == old[s].1.name
    &&& new[s].1.lives == old[s].1.lives
    &&& new[s].1.stream == old[s].1.stream
    &&& new[s].1.buf@ == buf
}

/// Every seat but `s` is untouched; seat `s` keeps its id, name, buffer and
/// connection, and its lives are now `lives`.
pub open spec fn lives_set<C>(
    old: Seq<(usize, ServerPlayer<C>)>,
    new: Seq<(usize, ServerPlayer<C>)>,
    s: int,
    lives: u8,
) -> bool {
    &&& 0 <= s < old.len()
    &&& new.len() == old.len()
    &&& forall|j: int| 0 <= j < old.len() && j != s ==> new[j] == old[j]
    &&& new[s].0 == old[s].0
    &&& new[s].1.name == old[s].1.name
    &&& new[s].1.buf == old[s].1.buf
    &&& new[s].1.stream == old[s].1.stream
    &&& new[s].1.lives == lives
}

/// The settings of two states agree.
pub open spec fn same_settings<P, Q>(a: State<P>, b: State<Q>) -> bool {
    &&& a.max_players == b.max_players
    &&& a.timer_length == b.timer_length
    &&& a.time_increase == b.time_increase
    &&& a.lives == b.lives
}

/// Two states agree on everything but the roster.
pub open spec fn same_but_players<P>(a: State<P>, b: State<P>) -> bool {
    &&& same_settings(a, b)
    &&& a.chat == b.chat
    &&& a.current_phrase == b.current_phrase
    &&& a.current_player == b.current_player
    &&& a.timer == b.timer
}

/// The broadcast that a `ChatSend(msg)` from player `id` gives: none for a
/// message of white space alone, else `Chat(id, msg)`.
pub open spec fn chat_of(id: usize, msg: String) -> Option<StateChange> {
    if blank(msg@) {
        None
    } else {
        Some(StateChange::Chat(id, msg))
    }
}

/// The broadcast for a `ChatSend(msg)` from player `id`, where `is_blank`
/// tells whether `msg` holds white space alone.
pub fn chat_message_if(id: usize, msg: String, is_blank: bool) -> (r: Option<StateChange>)
    ensures
        r == (if is_blank {
            None
        } else {
            Some(StateChange::Chat(id, msg))
        }),
{
    if is_blank {
        None
    } else {
        Some(StateChange::Chat(id, msg))
    }
}

/// The broadcast for a `ChatSend(msg)` from player `id`. Chat is not checked
/// further: any player may chat at any time.
pub fn chat_message(id: usize, msg: String) -> (r: Option<StateChange>)
    ensures
        r == chat_of(id, msg),
{
    let b = crate::text::is_blank(msg.as_str());
    chat_message_if(id, msg, b)
}

/// One game: its state, the dictionary, the words already used, and the id
/// the next player to join gets. Ids are never handed out twice.
pub struct Room<C> {
    pub state: State<ServerPlayer<C>>,
    pub dict: Dictionary,
    pub usedwords: Vec<String>,
    pub next_id: usize,
}

/// Seating a player keeps a well-formed room well formed, and the id handed
/// out was nobody's.
pub proof fn lemma_joined_wf<C>(
    r0: Room<C>,
    r1: Room<C>,
    name: String,
    stream: C,
    res: Option<(usize, ClientPlayer)>,
)
    requires
        r0.wf(),
        r0.joined(r1, name, stream, res),
    ensures
        r1.wf(),
        res is Some ==> !has_id(r0.state.players@, res->Some_0.0),
        res is Some ==> res->Some_0.0 < r1.next_id,
{
    if r0.can_join() {
        let before = r0.state.players@;
        let after = r1.state.players@;
        let n = before.len() as int;
        let id = r0.next_id;
        assert forall|i: int| 0 <= i < n implies after[i] == before[i] by {
            assert(after.subrange(0, n)[i] == after[i]);
        }
        assert forall|i: int| 0 <= i < after.len() implies #[trigger] after[i].0 < r1.next_id by {
            if i < n {
                assert(after[i] == before[i]);
            }
        }
        assert(!has_id(before, id));
        assert forall|i: int, j: int|
            0 <= i < after.len() && 0 <= j < after.len() && i != j implies after[i].0
            != after[j].0 by {
            if i < n && j < n {
                assert(after[i] == before[i] && after[j] == before[j]);
            } else if i < n {
                assert(after[i] == before[i]);
            } else {
                assert(after[j] == before[j]);
            }
        }
        if any_eligible(after) {
            if any_eligible(before) {
                let s = seat_of(before, r0.state.current_player);
                assert(after[s] == before[s]);
                lemma_seat_of_unique(after, r1.state.current_player, s);
            } else if r0.state.lives > 0 {
                lemma_seat_of_unique(after, id, n);
            } else {
                let i = choose|i: int| 0 <= i < after.len() && eligible(after, i);
                assert(after[i] == before[i]);
                assert(eligible(before, i));
            }
        }
    }
}

/// A roster whose seats keep their ids keeps a well-formed room well formed,
/// where the turn is with someone who has lives left whenever anyone has.
pub proof fn lemma_wf_same_ids<C>(r1: Room<C>, r2: Room<C>)
    requires
        r1.wf(),
        same_ids(r1.state.players@, r2.state.players@),
        r1.state.max_players == r2.state.max_players,
        r1.next_id == r2.next_id,
        r1.dict == r2.dict,
        any_eligible(r2.state.players@) ==> holds_turn(
            r2.state.players@,
            r2.state.current_player,
        ),
    ensures
        r2.wf(),
{
    let a = r1.state.players@;
    let b = r2.state.players@;
    assert forall|i: int, j: int|
        0 <= i < b.len() && 0 <= j < b.len() && i != j implies b[i].0 != b[j].0 by {
        assert(a[i].0 == b[i].0 && a[j].0 == b[j].0);
    }
    assert forall|i: int| 0 <= i < b.len() implies #[trigger] b[i].0 < r2.next_id by {
        assert(a[i].0 == b[i].0);
    }
}

/// A roster whose seats keep their ids and lives keeps a well-formed room well formed.
pub proof fn lemma_wf_same_ids_lives<C>(r1: Room<C>, r2: Room<C>)
    requires
        r1.wf(),
        same_ids(r1.state.players@, r2.state.players@),
        forall|j: int|
            0 <= j < r1.state.players@.len() ==> #[trigger] r1.state.players@[j].1.lives
                == r2.state.players@[j].1.lives,
        r1.state.max_players == r2.state.max_players,
        any_eligible(r1.state.players@) ==> holds_turn(
            r1.state.players@,
            r2.state.current_player,
        ),
        r1.next_id == r2.next_id,
        r1.dict == r2.dict,
    ensures
        r2.wf(),
{
    let a = r1.state.players@;
    let b = r2.state.players@;
    assert forall|i: int, j: int|
        0 <= i < b.len() && 0 <= j < b.len() && i != j implies b[i].0 != b[j].0 by {
        assert(a[i].0 == b[i].0 && a[j].0 == b[j].0);
    }
    assert forall|i: int| 0 <= i < b.len() implies #[trigger] b[i].0 < r2.next_id by {
        assert(a[i].0 == b[i].0);
    }
    if any_eligible(b) {
        let i = choose|i: int| 0 <= i < b.len() && eligible(b, i);
        assert(a[i].1.lives == b[i].1.lives);
        assert(eligible(a, i));
        lemma_same_ids_seat(a, b, r2.state.current_player);
        let s = seat_of(a, r2.state.current_player);
        assert(a[s].1.lives == b[s].1.lives);
    }
}

impl<C> Room<C> {
    /// Ids are unique and below `next_id`, the roster fits `max_players`, a
    /// phrase can be drawn, and while anyone has lives the turn is with one
    /// of them.
    pub open spec fn wf(&self) -> bool {
        &&& ids_unique(self.state.players@)
        &&& self.state.players@.len() <= self.state.max_players
        &&& forall|i: int|
            0 <= i < self.state.players@.len() ==> #[trigger] self.state.players@[i].0 < self.next_id
        &&& self.dict.wf()
        &&& any_eligible(self.state.players@) ==> holds_turn(
            self.state.players@,
            self.state.current_player,
        )
    }

    /// An empty room over `dict`, with a phrase drawn from its pool.
    pub fn new(dict: Dictionary) -> (r: Self)
        requires
            dict.wf(),
        ensures
            r.wf(),
            r.state.players@.len() == 0,
            r.state.chat@.len() == 0,
            r.state.current_player == 0,
            listed(dict.phrases@, r.state.current_phrase@),
            r.state.max_players == MAX_PLAYERS,
            r.state.timer_length == TIMER_LENGTH,
            r.state.time_increase == TIME_INCREASE,
            r.state.lives == STARTING_LIVES,
            r.dict == dict,
            r.usedwords@.len() == 0,
            r.next_id == 0,
    {
        let phrase = dict.random_phrase();
        Room { state: State::new(phrase), dict, usedwords: Vec::new(), next_id: 0 }
    }

    /// Whether another player can join: the roster has room and ids are left.
    pub open spec fn can_join(&self) -> bool {
        self.state.players@.len() < self.state.max_players && self.next_id < usize::MAX
    }

    /// What seating a player named `name` with connection `stream` leaves,
    /// where `r` is what `join` returns.
    pub open spec fn joined(&self, after: Self, name: String, stream: C, r: Option<(usize, ClientPlayer)>) -> bool {
        if !self.can_join() {
            r is None && after == *self
        } else {
            let id = self.next_id;
            let n = self.state.players@.len();
            let seat = after.state.players@[n as int];
            &&& r is Some
            &&& r->Some_0.0 == id
            &&& r->Some_0.1.name == name
            &&& r->Some_0.1.buf@.len() == 0
            &&& r->Some_0.1.lives == self.state.lives
            &&& after.next_id == id + 1
            &&& after.state.players@.len() == n + 1
            &&& after.state.players@.subrange(0, n as int) == self.state.players@
            &&& seat.0 == id
            &&& seat.1.name == name
            &&& seat.1.buf@.len() == 0
            &&& seat.1.lives == self.state.lives
            &&& seat.1.stream == stream
            &&& after.state.current_player == (if any_eligible(self.state.players@)
                || self.state.lives == 0 {
                self.state.current_player
            } else {
                id
            })
            &&& after.state.chat == self.state.chat
            &&& after.state.current_phrase == self.state.current_phrase
            &&& after.state.timer == self.state.timer
            &&& same_settings(after.state, self.state)
            &&& after.dict == self.dict
            &&& after.usedwords == self.usedwords
        }
    }

    /// Seats a new player named `name` with connection `stream`, with the
    /// starting lives and an empty buffer, and returns the player's fresh id
    /// and the player as peers see it. A full roster refuses the player, as
    /// does a room that has handed out every id. The new player takes the
    /// turn when nobody else has lives left.
    pub fn join(&mut self, name: String, stream: C) -> (r: Option<(usize, ClientPlayer)>)
        requires
            old(self).wf(),
        ensures
            final(self).wf(),
            old(self).joined(*final(self), name, stream, r),
            r is Some ==> !has_id(old(self).state.players@, r->Some_0.0),
    {
        if self.state.players.len() >= self.state.max_players || self.next_id == usize::MAX {
            return None;
        }
        let id = self.next_id;
        let had_turn = self.turn_seat().is_some();
        let player = ServerPlayer { name, buf: String::new(), lives: self.state.lives, stream };
        let cplayer = player.to_clientplayer();
        let ghost before = *self;
        self.state.players.push((id, player));
        self.next_id = id + 1;
        if !had_turn && self.state.lives > 0 {
            self.state.current_player = id;
        }
        let r = Some((id, cplayer));
        proof {
            assert(self.state.players@.subrange(0, before.state.players@.len() as int)
                =~= before.state.players@);
            lemma_joined_wf(before, *self, name, stream, r);
        }
        r
    }

    /// Player `id` may act: it is that player's turn and the player is seated.
    pub open spec fn may_act(&self, id: usize) -> bool {
        id == self.state.current_player && seat_of(self.state.players@, id) >= 0
    }

    /// The guess buffer of the seated player `id`.
    pub open spec fn buf_of(&self, id: usize) -> Seq<char> {
        self.state.players@[seat_of(self.state.players@, id)].1.buf@
    }

    /// Nothing but the roster differs between two rooms.
    pub open spec fn same_but_roster(&self, o: Self) -> bool {
        &&& same_but_players(self.state, o.state)
        &&& self.dict == o.dict
        &&& self.usedwords == o.usedwords
        &&& self.next_id == o.next_id
    }

    /// What an `AddLetter(c)` from player `id` leaves, where `alpha` tells
    /// whether `c` is alphabetic and `r` is what is sent.
    pub open spec fn letter_added(&self, after: Self, id: usize, c: char, alpha: bool, r: Option<StateChange>) -> bool {
        if alpha && self.may_act(id) {
            &&& r == Some(StateChange::AddLetter(c))
            &&& buf_set(
                self.state.players@,
                after.state.players@,
                seat_of(self.state.players@, id),
                self.buf_of(id).push(c),
            )
            &&& after.same_but_roster(*self)
        } else {
            r is None && after == *self
        }
    }

    /// What a `PopLetter` from player `id` leaves, where `r` is what is sent.
    pub open spec fn letter_popped(&self, after: Self, id: usize, r: Option<StateChange>) -> bool {
        if self.may_act(id) {
            &&& r == Some(StateChange::PopLetter)
            &&& buf_set(
                self.state.players@,
                after.state.players@,
                seat_of(self.state.players@, id),
                if self.buf_of(id).len() == 0 {
                    self.buf_of(id)
                } else {
                    self.buf_of(id).drop_last()
                },
            )
            &&& after.same_but_roster(*self)
        } else {
            r is None && after == *self
        }
    }

    /// Handles `AddLetter(c)` from player `id`, where `alpha` tells whether
    /// `c` is alphabetic: on the player's own turn an alphabetic letter goes
    /// to the end of the buffer and is echoed to everyone; anything else
    /// changes nothing and sends nothing.
    pub fn add_letter_if(&mut self, id: usize, c: char, alpha: bool) -> (r: Option<StateChange>)
        requires
            old(self).wf(),
        ensures
            final(self).wf(),
            old(self).letter_added(*final(self), id, c, alpha, r),
    {
        if !alpha || id != self.state.current_player {
            return None;
        }
        let s = match find_seat(&self.state.players, id) {
            Some(s) => s,
            None => return None,
        };
        let ghost before = *self;
        push_char(&mut self.state.players[s].1.buf, c);
        proof {
            lemma_wf_same_ids_lives(before, *self);
        }
        Some(StateChange::AddLetter(c))
    }

    /// Handles `AddLetter(c)` from player `id`: as `add_letter_if`, with
    /// `c` tested for the `Alphabetic` property.
    pub fn add_letter(&mut self, id: usize, c: char) -> (r: Option<StateChange>)
        requires
            old(self).wf(),
        ensures
            final(self).wf(),
            old(self).letter_added(*final(self), id, c, alphabetic(c), r),
    {
        let alpha = is_alphabetic(c);
        self.add_letter_if(id, c, alpha)
    }

    /// Handles `PopLetter` from player `id`: on the player's own turn the
    /// last letter of the buffer, if any, goes, and `PopLetter` is echoed to
    /// everyone; otherwise nothing changes and nothing is sent.
    pub fn pop_letter(&mut self, id: usize) -> (r: Option<StateChange>)
        requires
            old(self).wf(),
        ensures
            final(self).wf(),
            old(self).letter_popped(*final(self), id, r),
    {
        if id != self.state.current_player {
            return None;
        }
        let s = match find_seat(&self.state.players, id) {
            Some(s) => s,
            None => return None,
        };
        let ghost before = *self;
        pop_char(&mut self.state.players[s].1.buf);
        proof {
            lemma_wf_same_ids_lives(before, *self);
        }
        Some(StateChange::PopLetter)
    }

    /// The buffer of player `id` is a word that counts: it holds the current
    /// phrase, the dictionary has it, and nobody has used it yet this game.
    pub open spec fn word_ok(&self, id: usize) -> bool {
        &&& has_substring(self.buf_of(id), self.state.current_phrase@)
        &&& listed(self.dict.words@, self.buf_of(id))
        &&& !listed(self.usedwords@, self.buf_of(id))
    }

    /// What a `Submit` from player `id` leaves, where `phrase` is the phrase
    /// that a successful word brings, and `r` is what is sent.
    pub open spec fn submitted(&self, after: Self, id: usize, phrase: String, r: Option<StateChange>) -> bool {
        let players = self.state.players@;
        let next = next_id(players, id);
        if !self.may_act(id) {
            r is None && after == *self
        } else if self.word_ok(id) {
            &&& r == Some(StateChange::NextPlayer(next, phrase))
            &&& after.state.current_player == next
            &&& after.state.current_phrase == phrase
            &&& after.state.timer == extended(self.state.timer, self.state.time_increase)
            &&& buf_set(players, after.state.players@, seat_of(players, next), Seq::empty())
            &&& after.usedwords@.len() == self.usedwords@.len() + 1
            &&& after.usedwords@.subrange(0, self.usedwords@.len() as int) == self.usedwords@
            &&& after.usedwords@.last()@ == self.buf_of(id)
            &&& after.state.chat == self.state.chat
            &&& same_settings(after.state, self.state)
            &&& after.dict == self.dict
            &&& after.next_id == self.next_id
        } else {
            &&& r == Some(StateChange::Incorrect)
            &&& buf_set(players, after.state.players@, seat_of(players, id), Seq::empty())
            &&& after.same_but_roster(*self)
        }
    }

    /// Handles `Submit` from player `id`, with `phrase` as the phrase for the
    /// next turn. Off the player's turn nothing changes and nothing is sent.
    /// A word that counts is recorded as used, the turn passes to the next
    /// player with lives left (the same player where nobody else has any),
    /// whose buffer is cleared, the phrase becomes `phrase`, the turn timer
    /// gains `time_increase` seconds, and `NextPlayer` is sent. Any other
    /// word clears the player's buffer, keeps the turn, and sends `Incorrect`.
    pub fn submit_with(&mut self, id: usize, phrase: String) -> (r: Option<StateChange>)
        requires
            old(self).wf(),
        ensures
            final(self).wf(),
            old(self).submitted(*final(self), id, phrase, r),
    {
        if id != self.state.current_player {
            return None;
        }
        let s = match find_seat(&self.state.players, id) {
            Some(s) => s,
            None => return None,
        };
        let ghost before = *self;
        let ok = str_contains(
            self.state.players[s].1.buf.as_str(),
            self.state.current_phrase.as_str(),
        ) && self.dict.contains(&self.state.players[s].1.buf) && !is_listed(
            &self.usedwords,
            &self.state.players[s].1.buf,
        );
        if ok {
            let word = self.state.players[s].1.buf.clone();
            self.usedwords.push(word);
            let next = next_player(&self.state.players, self.state.current_player);
            proof {
                lemma_next_seated(self.state.players@, id);
            }
            let ns = match find_seat(&self.state.players, next) {
                Some(x) => x,
                None => {
                    proof {
                        assert(false);
                    }
                    return None;
                },
            };
            self.state.current_player = next;
            self.state.current_phrase = phrase.clone();
            self.state.players[ns].1.buf = String::new();
            self.state.timer = extend(self.state.timer, self.state.time_increase);
            proof {
                assert(self.usedwords@.subrange(0, before.usedwords@.len() as int) =~= before.usedwords@);
                lemma_wf_same_ids_lives(before, *self);
            }
            Some(StateChange::NextPlayer(next, phrase))
        } else {
            self.state.players[s].1.buf = String::new();
            proof {
                lemma_wf_same_ids_lives(before, *self);
            }
            Some(StateChange::Incorrect)
        }
    }

    /// Handles `Submit` from player `id`: as `submit_with`, with the next
    /// phrase drawn at random from the pool.
    pub fn submit(&mut self, id: usize) -> (r: Option<StateChange>)
        requires
            old(self).wf(),
        ensures
            final(self).wf(),
            exists|phrase: String|
                listed(old(self).dict.phrases@, phrase@) && old(self).submitted(
                    *final(self),
                    id,
                    phrase,
                    r,
                ),
    {
        let phrase = self.dict.random_phrase();
        self.submit_with(id, phrase)
    }

    /// What the timer check at `now` leaves, where `r` is what is sent. While
    /// the turn lasts, nothing changes and a `Heartbeat` goes out. Once it is
    /// over, the timer restarts at `now`; where the turn is with a player who
    /// has lives left, that player loses one, the turn passes on as after a
    /// good word (counted from that player's seat), and `Fail` names who
    /// plays next.
    pub open spec fn ticked(&self, after: Self, now: i64, r: StateChange) -> bool {
        let players = self.state.players@;
        let cur = self.state.current_player;
        if !expired(self.state.timer, now, self.state.timer_length) {
            r == StateChange::Heartbeat && after == *self
        } else {
            &&& after.state.timer == now
            &&& after.state.chat == self.state.chat
            &&& after.state.current_phrase == self.state.current_phrase
            &&& same_settings(after.state, self.state)
            &&& after.dict == self.dict
            &&& after.usedwords == self.usedwords
            &&& after.next_id == self.next_id
            &&& if holds_turn(players, cur) {
                let s = seat_of(players, cur);
                let next = next_id(after.state.players@, cur);
                &&& players[s].1.lives > 0
                &&& lives_set(players, after.state.players@, s, (players[s].1.lives - 1) as u8)
                &&& after.state.current_player == next
                &&& r == StateChange::Fail(next)
            } else {
                &&& r == StateChange::Heartbeat
                &&& after.state.players == self.state.players
                &&& after.state.current_player == cur
            }
        }
    }

    /// The timer check at time `now` (milliseconds since the Unix epoch).
    pub fn tick_at(&mut self, now: i64) -> (r: StateChange)
        requires
            old(self).wf(),
        ensures
            final(self).wf(),
            old(self).ticked(*final(self), now, r),
    {
        if !has_expired(self.state.timer, now, self.state.timer_length) {
            return StateChange::Heartbeat;
        }
        self.state.timer = now;
        let s = match self.turn_seat() {
            Some(s) => s,
            None => return StateChange::Heartbeat,
        };
        let ghost before = *self;
        let cur = self.state.current_player;
        self.state.players[s].1.lives = self.state.players[s].1.lives - 1;
        let next = next_player(&self.state.players, cur);
        self.state.current_player = next;
        proof {
            let a = before.state.players@;
            let b = self.state.players@;
            assert(same_ids(a, b));
            lemma_same_ids_seat(a, b, cur);
            assert forall|i: int, j: int|
                0 <= i < b.len() && 0 <= j < b.len() && i != j implies b[i].0 != b[j].0 by {
                assert(a[i].0 == b[i].0 && a[j].0 == b[j].0);
            }
            lemma_next_seated(b, cur);
            lemma_wf_same_ids(before, *self);
        }
        StateChange::Fail(next)
    }

    /// The timer check at the current time.
    pub fn tick(&mut self) -> (r: StateChange)
        requires
            old(self).wf(),
        ensures
            final(self).wf(),
            exists|now: i64| old(self).ticked(*final(self), now, r),
    {
        let now = now_millis();
        self.tick_at(now)
    }

    /// What removing the players whose flag in `delivered` is clear leaves,
    /// where `gone` lists the name and id of each removed player.
    pub open spec fn pruned(&self, after: Self, delivered: Seq<bool>, gone: Seq<(String, usize)>) -> bool {
        let n = delivered.len() as int;
        let old_players = self.state.players@;
        let kept_players = kept(old_players, delivered, n);
        let cur = self.state.current_player;
        &&& after.state.players@ == kept_players
        &&& after.state.current_player == (if holds_turn(kept_players, cur) {
            cur
        } else {
            next_id(kept_players, cur)
        })
        &&& gone.len() == dropped(old_players, delivered, n).len()
        &&& forall|k: int|
            0 <= k < gone.len() ==> {
                let d = #[trigger] dropped(old_players, delivered, n)[k];
                gone[k].0 == d.1.name && gone[k].1 == d.0
            }
        &&& after.state.chat == self.state.chat
        &&& after.state.current_phrase == self.state.current_phrase
        &&& after.state.timer == self.state.timer
        &&& same_settings(after.state, self.state)
        &&& after.dict == self.dict
        &&& after.usedwords == self.usedwords
        &&& after.next_id == self.next_id
    }

    /// `after` is what one operation on the room leaves: a join, a player's
    /// message, a timer check, or a prune after a broadcast. `handed` is the
    /// id that a join handed out, if it was one that seated someone.
    pub open spec fn stepped(&self, after: Self, handed: Option<usize>) -> bool {
        ||| exists|name: String, stream: C, r: Option<(usize, ClientPlayer)>|
            self.joined(after, name, stream, r) && handed == (match r {
                Some(j) => Some(j.0),
                None => None::<usize>,
            })
        ||| handed is None && exists|id: usize, change: StateChange, r: Option<StateChange>|
            self.acted(after, id, change, r)
        ||| handed is None && exists|now: i64, r: StateChange| self.ticked(after, now, r)
        ||| handed is None && exists|d: Seq<bool>, g: Seq<(String, usize)>| self.pruned(after, d, g)
    }

    /// Removes the players whose flag in `delivered` is clear (one flag per
    /// seat, in seat order: whether the last broadcast reached that player),
    /// keeps the others in order, and returns the name and id of each removed
    /// player. Where the turn was with a removed player, or with one who has
    /// no lives left, it passes on by the rotation rule.
    pub fn retain_delivered(&mut self, delivered: &Vec<bool>) -> (gone: Vec<(String, usize)>)
        requires
            old(self).wf(),
            delivered@.len() == old(self).state.players@.len(),
        ensures
            final(self).wf(),
            old(self).pruned(*final(self), delivered@, gone@),
    {
        let ghost before = *self;
        let gone = split_seats(&mut self.state.players, delivered);
        proof {
            lemma_kept(before.state.players@, delivered@, delivered@.len() as int);
            let b = self.state.players@;
            assert forall|k: int| 0 <= k < b.len() implies #[trigger] b[k].0 < self.next_id by {
                assert(among(before.state.players@, b[k], delivered@.len() as int));
                let i = choose|i: int|
                    0 <= i < delivered@.len() && before.state.players@[i] == b[k];
                assert(before.state.players@[i].0 < before.next_id);
            }
        }
        let cur = self.state.current_player;
        let stays = match find_seat(&self.state.players, cur) {
            Some(s) => self.state.players[s].1.lives > 0,
            None => false,
        };
        if !stays {
            self.state.current_player = next_player(&self.state.players, cur);
        }
        proof {
            lemma_next_holds_turn(self.state.players@, cur);
        }
        gone
    }

    /// Handles one message from player `id`: `ChatSend`, `AddLetter`,
    /// `PopLetter` and `Submit` as `chat_message`, `add_letter`, `pop_letter`
    /// and `submit` do; a message only the server sends changes nothing and
    /// is answered by nothing. The result is what to broadcast, if anything.
    pub fn act(&mut self, id: usize, change: StateChange) -> (r: Option<StateChange>)
        requires
            old(self).wf(),
        ensures
            final(self).wf(),
            old(self).acted(*final(self), id, change, r),
    {
        match change {
            StateChange::ChatSend(msg) => chat_message(id, msg),
            StateChange::AddLetter(c) => self.add_letter(id, c),
            StateChange::PopLetter => self.pop_letter(id),
            StateChange::Submit => self.submit(id),
            _ => None,
        }
    }

    /// What `act` leaves for message `change` from player `id`, where `r` is
    /// what is sent.
    pub open spec fn acted(&self, after: Self, id: usize, change: StateChange, r: Option<StateChange>) -> bool {
        match change {
            StateChange::ChatSend(msg) => after == *self && r == chat_of(id, msg),
            StateChange::AddLetter(c) => self.letter_added(after, id, c, alphabetic(c), r),
            StateChange::PopLetter => self.letter_popped(after, id, r),
            StateChange::Submit => exists|phrase: String|
                listed(self.dict.phrases@, phrase@) && self.submitted(after, id, phrase, r),
            _ => after == *self && r is None,
        }
    }

    /// The seat of the player whose turn it is, where that player has lives
    /// left. Under `wf`, there is one exactly when anyone has lives left.
    pub fn turn_seat(&self) -> (r: Option<usize>)
        requires
            self.wf(),
        ensures
            r is Some <==> any_eligible(self.state.players@),
            r is Some <==> holds_turn(self.state.players@, self.state.current_player),
            r is Some ==> r->Some_0 as int == seat_of(
                self.state.players@,
                self.state.current_player,
            ),
    {
        match find_seat(&self.state.players, self.state.current_player) {
            Some(s) => {
                if self.state.players[s].1.lives > 0 {
                    assert(eligible(self.state.players@, s as int));
                    Some(s)
                } else {
                    None
                }
            },
            None => None,
        }
    }
}

} // verus!
