//! The shared game state and the protocol events that change it.
use vstd::prelude::*;
use crate::clock::now_millis;

verus! {

/// Players a room admits at once.
pub const MAX_PLAYERS: usize = 10;

/// Seconds a turn lasts before it times out.
pub const TIMER_LENGTH: i64 = 10;

/// Seconds added to the turn timer by each accepted word.
pub const TIME_INCREASE: i64 = 1;

/// Lives each player starts with.
pub const STARTING_LIVES: u8 = 3;

/// A player as every peer sees it: no connection handle.
#[derive(Debug, Clone, PartialEq, Eq)]
pub struct ClientPlayer {
    pub name: String,
    pub buf: String,
    pub lives: u8,
}

/// A player as the server holds it, together with the connection `stream`,
/// which only the broadcaster writes to.
#[derive(Debug)]
pub struct ServerPlayer<C> {
    pub name: String,
    pub buf: String,
    pub lives: u8,
    pub stream: C,
}

/// One protocol message. `ChatSend`, `AddLetter`, `PopLetter` and `Submit`
/// come from clients; the server sends the others, and echoes the letter
/// edits it accepted. `Heartbeat` carries nothing and only tests the connection.
#[derive(Debug, Clone, PartialEq, Eq)]
pub enum StateChange {
    Heartbeat,
    PlayerJoin(usize, ClientPlayer),
    PlayerLeave(usize),
    Chat(usize, String),
    ChatSend(String),
    AddLetter(char),
    PopLetter,
    Submit,
    NextPlayer(usize, String),
    Incorrect,
    Fail(usize),
}

/// The game state: the roster in seat order, each seat keyed by a player id,
/// the chat log, the turn and its timer (milliseconds since the Unix epoch at
/// which the current turn started), and the settings.
#[derive(Debug)]
pub struct State<P> {
    pub players: Vec<(usize, P)>,
    pub chat: Vec<String>,
    pub current_phrase: String,
    pub current_player: usize,
    pub timer: i64,
    pub max_players: usize,
    pub timer_length: i64,
    pub time_increase: i64,
    pub lives: u8,
}

/// A seat's occupant, as far as turn rotation cares: how many lives it has.
pub trait Seat {
    spec fn lives_of(&self) -> u8;

    fn lives_left(&self) -> (r: u8)
        ensures
            r == self.lives_of(),
    ;
}

impl Seat for ClientPlayer {
    open spec fn lives_of(&self) -> u8 {
        self.lives
    }

    fn lives_left(&self) -> (r: u8) {
        self.lives
    }
}

impl<C> Seat for ServerPlayer<C> {
    open spec fn lives_of(&self) -> u8 {
        self.lives
    }

    fn lives_left(&self) -> (r: u8) {
        self.lives
    }
}

/// No two seats hold the same id.
pub open spec fn ids_unique<P>(players: Seq<(usize, P)>) -> bool {
    forall|i: int, j: int|
        0 <= i < players.len() && 0 <= j < players.len() && i != j ==> players[i].0 != players[j].0
}

/// Some seat holds the id `id`.
pub open spec fn has_id<P>(players: Seq<(usize, P)>, id: usize) -> bool {
    exists|i: int| 0 <= i < players.len() && players[i].0 == id
}

/// Seat `i` is the first that holds `id`.
pub open spec fn is_first_seat<P>(players: Seq<(usize, P)>, id: usize, i: int) -> bool {
    &&& 0 <= i < players.len()
    &&& players[i].0 == id
    &&& forall|j: int| 0 <= j < i ==> players[j].0 != id
}

/// The first seat that holds `id`, or -1 where none does.
pub open spec fn seat_of<P>(players: Seq<(usize, P)>, id: usize) -> int {
    if exists|i: int| is_first_seat(players, id, i) {
        choose|i: int| is_first_seat(players, id, i)
    } else {
        -1
    }
}

/// `seat_of` picks the first seat that holds `id`.
pub proof fn lemma_first_seat_unique<P>(players: Seq<(usize, P)>, id: usize, i: int)
    requires
        is_first_seat(players, id, i),
    ensures
        seat_of(players, id) == i,
{
    let k = seat_of(players, id);
    assert(is_first_seat(players, id, k));
    if k < i {
        assert(players[k].0 != id);
    } else if i < k {
        assert(players[i].0 != id);
    }
}

/// Under unique ids, the seat of an id is the one seat that holds it.
pub proof fn lemma_seat_of_unique<P>(players: Seq<(usize, P)>, id: usize, i: int)
    requires
        ids_unique(players),
        0 <= i < players.len(),
        players[i].0 == id,
    ensures
        seat_of(players, id) == i,
{
    assert forall|j: int| 0 <= j < i implies players[j].0 != id by {
        assert(players[j].0 != players[i].0);
    }
    lemma_first_seat_unique(players, id, i);
}

/// Where no seat holds `id`, `seat_of` gives -1.
pub proof fn lemma_seat_of_absent<P>(players: Seq<(usize, P)>, id: usize)
    requires
        !has_id(players, id),
    ensures
        seat_of(players, id) == -1,
{
    if exists|i: int| is_first_seat(players, id, i) {
        let i = choose|i: int| is_first_seat(players, id, i);
        assert(players[i].0 == id);
    }
}

/// The first seat that holds `id`.
pub fn find_seat<P>(players: &Vec<(usize, P)>, id: usize) -> (r: Option<usize>)
    ensures
        match r {
            Some(i) => i as int == seat_of(players@, id),
            None => seat_of(players@, id) == -1 && !has_id(players@, id),
        },
{
    let mut i: usize = 0;
    while i < players.len()
        invariant
            i <= players@.len(),
            forall|j: int| 0 <= j < i ==> players@[j].0 != id,
        decreases players@.len() - i,
    {
        if players[i].0 == id {
            proof {
                lemma_first_seat_unique(players@, id, i as int);
            }
            return Some(i);
        }
        i += 1;
    }
    proof {
        lemma_seat_of_absent(players@, id);
    }
    None
}

/// Two rosters whose seats hold the same ids in the same order.
pub open spec fn same_ids<P>(
    a: Seq<(usize, P)>,
    b: Seq<(usize, P)>,
) -> bool {
    a.len() == b.len() && forall|j: int| 0 <= j < a.len() ==> #[trigger] a[j].0 == b[j].0
}

/// Rosters with the same ids in the same order seat every id alike.
pub proof fn lemma_same_ids_seat<P>(
    a: Seq<(usize, P)>,
    b: Seq<(usize, P)>,
    id: usize,
)
    requires
        same_ids(a, b),
    ensures
        seat_of(a, id) == seat_of(b, id),
        has_id(a, id) == has_id(b, id),
{
    if has_id(a, id) {
        let i = choose|i: int| 0 <= i < a.len() && a[i].0 == id;
        lemma_first_seat_exists(a, id, i);
        let k = seat_of(a, id);
        assert(b[k].0 == a[k].0);
        assert forall|j: int| 0 <= j < k implies b[j].0 != id by {
            assert(a[j].0 == b[j].0);
        }
        lemma_first_seat_unique(b, id, k);
        assert(has_id(b, id));
    } else {
        assert forall|i: int| 0 <= i < b.len() implies b[i].0 != id by {
            assert(a[i].0 == b[i].0);
        }
        lemma_seat_of_absent(a, id);
        lemma_seat_of_absent(b, id);
    }
}

/// Where some seat holds `id`, a first such seat exists.
pub proof fn lemma_first_seat_exists<P>(a: Seq<(usize, P)>, id: usize, i: int)
    requires
        0 <= i < a.len(),
        a[i].0 == id,
    ensures
        seat_of(a, id) >= 0,
        is_first_seat(a, id, seat_of(a, id)),
    decreases i,
{
    if forall|j: int| 0 <= j < i ==> a[j].0 != id {
        lemma_first_seat_unique(a, id, i);
    } else {
        let j = choose|j: int| 0 <= j < i && a[j].0 == id;
        lemma_first_seat_exists(a, id, j);
    }
}

impl<P> State<P> {
    /// A state with no players, the given phrase, the turn timer started now,
    /// and the default settings.
    pub fn new(phrase: String) -> (r: Self)
        ensures
            r.players@.len() == 0,
            r.chat@.len() == 0,
            r.current_phrase == phrase,
            r.current_player == 0,
            r.max_players == MAX_PLAYERS,
            r.timer_length == TIMER_LENGTH,
            r.time_increase == TIME_INCREASE,
            r.lives == STARTING_LIVES,
    {
        State {
            players: Vec::new(),
            chat: Vec::new(),
            current_phrase: phrase,
            current_player: 0,
            timer: now_millis(),
            max_players: MAX_PLAYERS,
            timer_length: TIMER_LENGTH,
            time_increase: TIME_INCREASE,
            lives: STARTING_LIVES,
        }
    }
}

/// A copy of a list of texts.
pub fn clone_texts(v: &Vec<String>) -> (r: Vec<String>)
    ensures
        r@ == v@,
{
    let mut r: Vec<String> = Vec::new();
    let mut i: usize = 0;
    while i < v.len()
        invariant
            i <= v@.len(),
            r@ == v@.subrange(0, i as int),
        decreases v@.len() - i,
    {
        r.push(v[i].clone());
        i += 1;
        proof {
            assert(r@ =~= v@.subrange(0, i as int));
        }
    }
    proof {
        assert(v@.subrange(0, i as int) =~= v@);
    }
    r
}

impl<C> State<ServerPlayer<C>> {
    /// The state as a client receives it on joining: every player as peers
    /// see it, in seat order, and everything else as it stands.
    pub fn snapshot(&self) -> (r: State<ClientPlayer>)
        ensures
            r.players@.len() == self.players@.len(),
            forall|i: int|
                0 <= i < self.players@.len() ==> {
                    let (id, p) = #[trigger] r.players@[i];
                    &&& id == self.players@[i].0
                    &&& p.name == self.players@[i].1.name
                    &&& p.buf == self.players@[i].1.buf
                    &&& p.lives == self.players@[i].1.lives
                },
            r.chat@ == self.chat@,
            r.current_phrase == self.current_phrase,
            r.current_player == self.current_player,
            r.timer == self.timer,
            r.max_players == self.max_players,
            r.timer_length == self.timer_length,
            r.time_increase == self.time_increase,
            r.lives == self.lives,
    {
        let mut players: Vec<(usize, ClientPlayer)> = Vec::new();
        let mut i: usize = 0;
        while i < self.players.len()
            invariant
                i <= self.players@.len(),
                players@.len() == i,
                forall|k: int|
                    0 <= k < i ==> {
                        let (id, p) = #[trigger] players@[k];
                        &&& id == self.players@[k].0
                        &&& p.name == self.players@[k].1.name
                        &&& p.buf == self.players@[k].1.buf
                        &&& p.lives == self.players@[k].1.lives
                    },
            decreases self.players@.len() - i,
        {
            players.push((self.players[i].0, self.players[i].1.to_clientplayer()));
            i += 1;
        }
        State {
            players,
            chat: clone_texts(&self.chat),
            current_phrase: self.current_phrase.clone(),
            current_player: self.current_player,
            timer: self.timer,
            max_players: self.max_players,
            timer_length: self.timer_length,
            time_increase: self.time_increase,
            lives: self.lives,
        }
    }
}

impl<C> ServerPlayer<C> {
    /// The player as peers see it: name, guess buffer and lives, no connection.
    pub fn to_clientplayer(&self) -> (r: ClientPlayer)
        ensures
            r.name == self.name,
            r.buf == self.buf,
            r.lives == self.lives,
    {
        ClientPlayer { name: self.name.clone(), buf: self.buf.clone(), lives: self.lives }
    }
}

} // verus!
