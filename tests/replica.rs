use boom_room::state::{ClientPlayer, State, StateChange};

fn player(name: &str, buf: &str, lives: u8) -> ClientPlayer {
    ClientPlayer { name: name.to_string(), buf: buf.to_string(), lives }
}

fn copy_with(players: Vec<(usize, ClientPlayer)>, current: usize) -> State<ClientPlayer> {
    let mut s = State::new("at".to_string());
    s.players = players;
    s.current_player = current;
    s.timer = 50_000;
    s
}

#[test]
fn leave_twice_is_leave_once() {
    let mut s = copy_with(vec![(1, player("A", "", 3)), (2, player("B", "", 3))], 1);
    s.apply(StateChange::PlayerLeave(2), 0);
    assert_eq!(s.players, vec![(1, player("A", "", 3))]);
    assert_eq!(s.chat, vec!["B disconnected".to_string()]);
    s.apply(StateChange::PlayerLeave(2), 0);
    assert_eq!(s.players, vec![(1, player("A", "", 3))]);
    assert_eq!(s.chat, vec!["B disconnected".to_string()]);
}

#[test]
fn join_and_chat_lines() {
    let mut s = copy_with(vec![], 0);
    s.apply(StateChange::PlayerJoin(3, player("Ann", "", 3)), 0);
    s.apply(StateChange::Chat(3, "hello".to_string()), 0);
    s.apply(StateChange::Chat(9, "ghost".to_string()), 0);
    assert_eq!(s.players, vec![(3, player("Ann", "", 3))]);
    assert_eq!(s.chat, vec!["Ann connected".to_string(), "Ann: hello".to_string()]);
    s.apply(StateChange::PlayerJoin(3, player("Ann2", "x", 2)), 0);
    assert_eq!(s.players, vec![(3, player("Ann2", "x", 2))]);
}

#[test]
fn letters_follow_the_current_player() {
    let mut s = copy_with(vec![(1, player("A", "", 3)), (2, player("B", "", 3))], 2);
    s.apply(StateChange::AddLetter('c'), 0);
    s.apply(StateChange::AddLetter('a'), 0);
    s.apply(StateChange::AddLetter('x'), 0);
    s.apply(StateChange::PopLetter, 0);
    assert_eq!(s.players[1].1.buf, "ca");
    assert_eq!(s.players[0].1.buf, "");
    s.apply(StateChange::Incorrect, 0);
    assert_eq!(s.players[1].1.buf, "");
}

#[test]
fn next_player_and_fail() {
    let mut s = copy_with(vec![(1, player("A", "cat", 3)), (2, player("B", "zz", 3))], 1);
    s.apply(StateChange::NextPlayer(2, "og".to_string()), 0);
    assert_eq!(s.current_player, 2);
    assert_eq!(s.current_phrase, "og");
    assert_eq!(s.timer, 51_000);
    assert_eq!(s.players[1].1.buf, "");
    assert_eq!(s.players[0].1.buf, "cat");
    s.apply(StateChange::Fail(1), 77_000);
    assert_eq!(s.players[1].1.lives, 2);
    assert_eq!(s.current_player, 1);
    assert_eq!(s.timer, 77_000);
    s.apply(StateChange::Heartbeat, 99_000);
    assert_eq!(s.timer, 77_000);
    assert!(s.chat.is_empty());
}

#[test]
fn fail_never_takes_a_life_below_zero() {
    let mut s = copy_with(vec![(1, player("A", "", 0))], 1);
    s.apply(StateChange::Fail(1), 5);
    assert_eq!(s.players[0].1.lives, 0);
}
