use boom_room::room::{chat_message, Room};
use boom_room::state::{ClientPlayer, State, StateChange, MAX_PLAYERS, STARTING_LIVES};
use boom_room::words::Dictionary;

fn dict(words: &[&str], phrases: &[&str]) -> Dictionary {
    Dictionary {
        words: words.iter().map(|w| w.to_string()).collect(),
        phrases: phrases.iter().map(|p| p.to_string()).collect(),
    }
}

fn room_with(words: &[&str], phrase: &str) -> Room<()> {
    Room::new(dict(words, &[phrase]))
}

fn type_word(room: &mut Room<()>, id: usize, word: &str) {
    for c in word.chars() {
        assert_eq!(room.act(id, StateChange::AddLetter(c)), Some(StateChange::AddLetter(c)));
    }
}

fn buf(room: &Room<()>, id: usize) -> String {
    room.state.players.iter().find(|(i, _)| *i == id).unwrap().1.buf.clone()
}

fn lives(room: &Room<()>, id: usize) -> u8 {
    room.state.players.iter().find(|(i, _)| *i == id).unwrap().1.lives
}

#[test]
fn sole_player_good_word_keeps_turn() {
    let mut room = room_with(&["cat", "dog"], "at");
    assert_eq!(room.state.current_phrase, "at");
    let (a, cp) = room.join("A".to_string(), ()).unwrap();
    assert_eq!(cp, ClientPlayer { name: "A".to_string(), buf: String::new(), lives: 3 });
    assert_eq!(room.state.current_player, a);
    type_word(&mut room, a, "cat");
    assert_eq!(buf(&room, a), "cat");
    let timer = room.state.timer;
    let r = room.act(a, StateChange::Submit);
    assert_eq!(r, Some(StateChange::NextPlayer(a, "at".to_string())));
    assert_eq!(room.state.current_player, a);
    assert_eq!(buf(&room, a), "");
    assert_eq!(room.usedwords, vec!["cat".to_string()]);
    assert_eq!(room.state.timer, timer + 1000);
}

#[test]
fn word_without_phrase_is_incorrect() {
    let mut room = room_with(&["xyz", "cat"], "at");
    let (a, _) = room.join("A".to_string(), ()).unwrap();
    let (b, _) = room.join("B".to_string(), ()).unwrap();
    room.state.current_player = b;
    type_word(&mut room, b, "xyz");
    let r = room.act(b, StateChange::Submit);
    assert_eq!(r, Some(StateChange::Incorrect));
    assert_eq!(buf(&room, b), "");
    assert_eq!(room.state.current_player, b);
    assert_eq!(lives(&room, b), 3);
    assert_eq!(lives(&room, a), 3);
    assert!(room.usedwords.is_empty());
}

#[test]
fn turn_timeout_costs_a_life_and_passes_turn() {
    let mut room = room_with(&["cat"], "at");
    let (a, _) = room.join("A".to_string(), ()).unwrap();
    let (b, _) = room.join("B".to_string(), ()).unwrap();
    room.state.current_player = b;
    room.state.timer = 1_000_000;
    assert_eq!(room.tick_at(1_010_000), StateChange::Heartbeat);
    assert_eq!(lives(&room, b), 3);
    let r = room.tick_at(1_010_001);
    assert_eq!(r, StateChange::Fail(a));
    assert_eq!(lives(&room, b), 2);
    assert_eq!(lives(&room, a), 3);
    assert_eq!(room.state.current_player, a);
    assert_eq!(room.state.timer, 1_010_001);
}

#[test]
fn closed_connection_is_pruned_alone() {
    let mut room = room_with(&["cat"], "at");
    let (a, _) = room.join("A".to_string(), ()).unwrap();
    let (b, _) = room.join("B".to_string(), ()).unwrap();
    let (c, _) = room.join("C".to_string(), ()).unwrap();
    let gone = room.retain_delivered(&vec![true, false, true]);
    assert_eq!(gone, vec![("B".to_string(), b)]);
    let ids: Vec<usize> = room.state.players.iter().map(|(i, _)| *i).collect();
    assert_eq!(ids, vec![a, c]);
    assert_eq!(room.state.current_player, a);
}

#[test]
fn pruning_the_current_player_moves_the_turn() {
    let mut room = room_with(&["cat"], "at");
    let (a, _) = room.join("A".to_string(), ()).unwrap();
    let (b, _) = room.join("B".to_string(), ()).unwrap();
    assert_eq!(room.state.current_player, a);
    let gone = room.retain_delivered(&vec![false, true]);
    assert_eq!(gone, vec![("A".to_string(), a)]);
    assert_eq!(room.state.current_player, b);
}

#[test]
fn roster_is_capped_and_ids_are_fresh() {
    let mut room = room_with(&["cat"], "at");
    let mut ids = vec![];
    for k in 0..MAX_PLAYERS {
        let (id, _) = room.join(format!("P{}", k), ()).unwrap();
        ids.push(id);
    }
    assert_eq!(room.join("late".to_string(), ()), None);
    assert_eq!(room.state.players.len(), MAX_PLAYERS);
    room.retain_delivered(&vec![false; MAX_PLAYERS]);
    assert!(room.state.players.is_empty());
    let (id, _) = room.join("again".to_string(), ()).unwrap();
    assert!(!ids.contains(&id));
    assert_eq!(id, MAX_PLAYERS);
}

#[test]
fn off_turn_actions_change_nothing() {
    let mut room = room_with(&["cat"], "at");
    let (a, _) = room.join("A".to_string(), ()).unwrap();
    let (b, _) = room.join("B".to_string(), ()).unwrap();
    type_word(&mut room, a, "ca");
    assert_eq!(room.act(b, StateChange::AddLetter('x')), None);
    assert_eq!(room.act(b, StateChange::PopLetter), None);
    assert_eq!(room.act(b, StateChange::Submit), None);
    assert_eq!(buf(&room, a), "ca");
    assert_eq!(buf(&room, b), "");
    assert_eq!(room.state.current_player, a);
}

#[test]
fn only_alphabetic_letters_are_taken() {
    let mut room = room_with(&["cat"], "at");
    let (a, _) = room.join("A".to_string(), ()).unwrap();
    assert_eq!(room.act(a, StateChange::AddLetter('1')), None);
    assert_eq!(room.act(a, StateChange::AddLetter(' ')), None);
    assert_eq!(room.act(a, StateChange::AddLetter('é')), Some(StateChange::AddLetter('é')));
    assert_eq!(buf(&room, a), "é");
}

#[test]
fn pop_letter_on_empty_buffer_still_echoes() {
    let mut room = room_with(&["cat"], "at");
    let (a, _) = room.join("A".to_string(), ()).unwrap();
    assert_eq!(room.act(a, StateChange::PopLetter), Some(StateChange::PopLetter));
    assert_eq!(buf(&room, a), "");
    type_word(&mut room, a, "ab");
    assert_eq!(room.pop_letter(a), Some(StateChange::PopLetter));
    assert_eq!(buf(&room, a), "a");
}

#[test]
fn used_word_is_refused_the_second_time() {
    let mut room = room_with(&["cat"], "at");
    let (a, _) = room.join("A".to_string(), ()).unwrap();
    type_word(&mut room, a, "cat");
    assert_eq!(room.act(a, StateChange::Submit), Some(StateChange::NextPlayer(a, "at".to_string())));
    type_word(&mut room, a, "cat");
    assert_eq!(room.act(a, StateChange::Submit), Some(StateChange::Incorrect));
    assert_eq!(buf(&room, a), "");
}

#[test]
fn word_outside_dictionary_is_incorrect() {
    let mut room = room_with(&["cat"], "at");
    let (a, _) = room.join("A".to_string(), ()).unwrap();
    type_word(&mut room, a, "bat");
    assert_eq!(room.submit_with(a, "og".to_string()), Some(StateChange::Incorrect));
    type_word(&mut room, a, "Cat");
    assert_eq!(room.submit_with(a, "og".to_string()), Some(StateChange::Incorrect));
}

#[test]
fn good_word_passes_turn_to_next_living_player() {
    let mut room = room_with(&["cat"], "at");
    let (a, _) = room.join("A".to_string(), ()).unwrap();
    let (b, _) = room.join("B".to_string(), ()).unwrap();
    let (c, _) = room.join("C".to_string(), ()).unwrap();
    room.state.players[1].1.lives = 0;
    room.state.players[2].1.buf = "old".to_string();
    type_word(&mut room, a, "cat");
    let r = room.submit_with(a, "og".to_string());
    assert_eq!(r, Some(StateChange::NextPlayer(c, "og".to_string())));
    assert_eq!(room.state.current_player, c);
    assert_eq!(room.state.current_phrase, "og");
    assert_eq!(buf(&room, c), "");
    assert_eq!(buf(&room, a), "cat");
    assert_eq!(lives(&room, b), 0);
}

#[test]
fn chat_is_broadcast_unless_blank() {
    assert_eq!(chat_message(4, "hi there".to_string()), Some(StateChange::Chat(4, "hi there".to_string())));
    assert_eq!(chat_message(4, "  \t\n".to_string()), None);
    assert_eq!(chat_message(4, String::new()), None);
    let mut room = room_with(&["cat"], "at");
    let (a, _) = room.join("A".to_string(), ()).unwrap();
    assert_eq!(room.act(a, StateChange::ChatSend(" yo ".to_string())), Some(StateChange::Chat(a, " yo ".to_string())));
}

#[test]
fn server_only_messages_are_ignored() {
    let mut room = room_with(&["cat"], "at");
    let (a, _) = room.join("A".to_string(), ()).unwrap();
    assert_eq!(room.act(a, StateChange::Fail(a)), None);
    assert_eq!(room.act(a, StateChange::Heartbeat), None);
    assert_eq!(room.act(a, StateChange::PlayerLeave(a)), None);
    assert_eq!(lives(&room, a), STARTING_LIVES);
    assert_eq!(room.state.players.len(), 1);
}

#[test]
fn timeout_with_nobody_alive_only_restarts_timer() {
    let mut room = room_with(&["cat"], "at");
    room.state.timer = 0;
    assert_eq!(room.tick_at(20_000), StateChange::Heartbeat);
    assert_eq!(room.state.timer, 20_000);
    let (a, _) = room.join("A".to_string(), ()).unwrap();
    room.state.players[0].1.lives = 1;
    assert_eq!(room.tick_at(40_000), StateChange::Fail(a));
    assert_eq!(lives(&room, a), 0);
    assert_eq!(room.tick_at(60_000), StateChange::Heartbeat);
    assert_eq!(lives(&room, a), 0);
}

#[test]
fn snapshot_carries_everything_but_connections() {
    let mut room: Room<u32> = Room::new(dict(&["cat"], &["at"]));
    let (a, _) = room.join("A".to_string(), 7).unwrap();
    room.state.chat.push("hello".to_string());
    let snap = room.state.snapshot();
    assert_eq!(snap.players, vec![(a, ClientPlayer { name: "A".to_string(), buf: String::new(), lives: 3 })]);
    assert_eq!(snap.chat, vec!["hello".to_string()]);
    assert_eq!(snap.current_phrase, "at");
    assert_eq!(snap.current_player, a);
    assert_eq!(snap.timer, room.state.timer);
    assert_eq!(snap.max_players, 10);
    assert_eq!(snap.timer_length, 10);
    assert_eq!(snap.time_increase, 1);
    assert_eq!(snap.lives, 3);
}

#[test]
fn random_phrase_comes_from_pool() {
    let d = dict(&[], &["ab", "cd", "ef"]);
    for _ in 0..20 {
        let p = d.random_phrase();
        assert!(d.phrases.contains(&p));
    }
    let room: Room<()> = Room::new(dict(&[], &["ab", "cd"]));
    assert!(room.state.current_phrase == "ab" || room.state.current_phrase == "cd");
}

#[test]
fn tick_now_does_not_expire_a_fresh_turn() {
    let mut room = room_with(&["cat"], "at");
    let (a, _) = room.join("A".to_string(), ()).unwrap();
    assert_eq!(room.tick(), StateChange::Heartbeat);
    assert_eq!(lives(&room, a), 3);
    room.state.timer = 0;
    assert_eq!(room.tick(), StateChange::Fail(a));
    assert_eq!(lives(&room, a), 2);
}

type WirePlayer = (usize, (String, String, u8));
type WireSnapshot = (Vec<WirePlayer>, Vec<String>, String, usize, i64, usize, i64, i64, u8);

#[test]
fn snapshot_round_trips_through_bincode() {
    let mut room = room_with(&["cat"], "at");
    let (a, _) = room.join("A".to_string(), ()).unwrap();
    let (b, _) = room.join("B".to_string(), ()).unwrap();
    type_word(&mut room, a, "ca");
    room.state.chat.push("hi".to_string());
    let s = room.state.snapshot();
    let parts: WireSnapshot = (
        s.players.iter().map(|(i, p)| (*i, (p.name.clone(), p.buf.clone(), p.lives))).collect(),
        s.chat.clone(),
        s.current_phrase.clone(),
        s.current_player,
        s.timer,
        s.max_players,
        s.timer_length,
        s.time_increase,
        s.lives,
    );
    let bytes = bincode::serialize(&parts).unwrap();
    let back: WireSnapshot = bincode::deserialize(&bytes).unwrap();
    assert_eq!(back, parts);
    assert_eq!(back.0, vec![(a, ("A".to_string(), "ca".to_string(), 3)), (b, ("B".to_string(), String::new(), 3))]);
    assert_eq!(back.1, vec!["hi".to_string()]);
    assert_eq!((back.2.as_str(), back.3), ("at", a));
    assert_eq!((back.5, back.6, back.7, back.8), (10, 10, 1, 3));
}

#[test]
fn join_refused_when_ids_run_out() {
    let mut room = room_with(&["cat"], "at");
    room.next_id = usize::MAX - 1;
    let (id, _) = room.join("A".to_string(), ()).unwrap();
    assert_eq!(id, usize::MAX - 1);
    assert_eq!(room.join("B".to_string(), ()), None);
    assert_eq!(room.state.players.len(), 1);
    assert_eq!(room.next_id, usize::MAX);
}

fn assert_mirrors(copy: &State<ClientPlayer>, room: &Room<()>) {
    let seats: Vec<(usize, ClientPlayer)> =
        room.state.players.iter().map(|(i, p)| (*i, p.to_clientplayer())).collect();
    assert_eq!(copy.players, seats);
    assert_eq!(copy.current_player, room.state.current_player);
    assert_eq!(copy.current_phrase, room.state.current_phrase);
}

fn send_to(copy: &mut State<ClientPlayer>, room: &mut Room<()>, delivered: Vec<bool>) {
    for (_, id) in room.retain_delivered(&delivered) {
        copy.apply(StateChange::PlayerLeave(id), 0);
    }
}

#[test]
fn copy_follows_turn_when_current_players_write_fails() {
    let mut room = room_with(&["cat"], "at");
    let (a, _) = room.join("A".to_string(), ()).unwrap();
    let (b, _) = room.join("B".to_string(), ()).unwrap();
    let (c, _) = room.join("C".to_string(), ()).unwrap();
    room.state.current_player = b;
    let mut copy = room.state.snapshot();
    send_to(&mut copy, &mut room, vec![true, false, true]);
    // The seat of a player who has gone is unknown, so rotation restarts at the first seat.
    assert_eq!(room.state.current_player, a);
    assert_mirrors(&copy, &room);
    type_word(&mut room, a, "ca");
    copy.apply(StateChange::AddLetter('c'), 0);
    copy.apply(StateChange::AddLetter('a'), 0);
    assert_mirrors(&copy, &room);
    assert_eq!(copy.players[0].1.buf, "ca");
    assert_eq!(copy.players[1].0, c);
}

#[test]
fn copy_follows_turn_when_several_writes_fail() {
    let mut room = room_with(&["cat"], "at");
    let (_a, _) = room.join("A".to_string(), ()).unwrap();
    let (b, _) = room.join("B".to_string(), ()).unwrap();
    let (_c, _) = room.join("C".to_string(), ()).unwrap();
    let (d, _) = room.join("D".to_string(), ()).unwrap();
    room.state.current_player = b;
    room.state.players[0].1.lives = 0;
    let mut copy = room.state.snapshot();
    send_to(&mut copy, &mut room, vec![true, false, false, true]);
    assert_eq!(room.state.current_player, d);
    assert_mirrors(&copy, &room);
}

#[test]
fn copy_follows_turn_when_joining_a_room_with_nobody_alive() {
    let mut room = room_with(&["cat"], "at");
    room.join("A".to_string(), ()).unwrap();
    room.state.players[0].1.lives = 0;
    let mut copy = room.state.snapshot();
    let (b, cp) = room.join("B".to_string(), ()).unwrap();
    assert_eq!(room.state.current_player, b);
    copy.apply(StateChange::PlayerJoin(b, cp), 0);
    assert_mirrors(&copy, &room);
    let mut fresh = room_with(&["cat"], "at");
    let mut empty_copy = fresh.state.snapshot();
    let (x, cp) = fresh.join("X".to_string(), ()).unwrap();
    empty_copy.apply(StateChange::PlayerJoin(x, cp), 0);
    assert_mirrors(&empty_copy, &fresh);
}

#[test]
fn copy_follows_a_game_of_actions_and_timeouts() {
    let mut room = room_with(&["cat", "bat"], "at");
    let mut copy = room.state.snapshot();
    for name in ["A", "B"] {
        let (id, cp) = room.join(name.to_string(), ()).unwrap();
        copy.apply(StateChange::PlayerJoin(id, cp), 0);
    }
    let a = room.state.players[0].0;
    for msg in [
        StateChange::AddLetter('c'),
        StateChange::AddLetter('a'),
        StateChange::AddLetter('x'),
        StateChange::PopLetter,
        StateChange::AddLetter('t'),
        StateChange::Submit,
    ] {
        if let Some(ev) = room.submit_or_act(a, msg) {
            copy.apply(ev, 0);
        }
        assert_mirrors(&copy, &room);
    }
    room.state.timer = 0;
    let ev = room.tick_at(100_000);
    copy.apply(ev, 100_000);
    assert_mirrors(&copy, &room);
}

trait SubmitOrAct {
    fn submit_or_act(&mut self, id: usize, msg: StateChange) -> Option<StateChange>;
}

impl SubmitOrAct for Room<()> {
    fn submit_or_act(&mut self, id: usize, msg: StateChange) -> Option<StateChange> {
        match msg {
            StateChange::Submit => self.submit_with(id, "og".to_string()),
            other => self.act(id, other),
        }
    }
}
