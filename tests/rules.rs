use boom_room::clock::{extend, has_expired};
use boom_room::state::{ServerPlayer, State};
use boom_room::text::is_blank;
use boom_room::turn::next_player;
use boom_room::words::{Dictionary, LoadError};

fn seats(lives: &[(usize, u8)]) -> Vec<(usize, ServerPlayer<()>)> {
    lives
        .iter()
        .map(|&(id, l)| (id, ServerPlayer { name: format!("P{}", id), buf: String::new(), lives: l, stream: () }))
        .collect()
}

#[test]
fn rotation_wraps_and_skips_the_eliminated() {
    let p = seats(&[(5, 3), (8, 0), (2, 1), (9, 2)]);
    assert_eq!(next_player(&p, 5), 2);
    assert_eq!(next_player(&p, 2), 9);
    assert_eq!(next_player(&p, 9), 5);
    assert_eq!(next_player(&p, 8), 2);
}

#[test]
fn rotation_stays_with_sole_survivor() {
    let p = seats(&[(1, 0), (4, 2), (6, 0)]);
    assert_eq!(next_player(&p, 4), 4);
    assert_eq!(next_player(&p, 6), 4);
}

#[test]
fn rotation_from_absent_player_starts_at_first_seat() {
    let p = seats(&[(1, 0), (4, 2), (6, 1)]);
    assert_eq!(next_player(&p, 77), 4);
}

#[test]
fn rotation_with_nobody_alive_keeps_current() {
    let p = seats(&[(1, 0), (4, 0)]);
    assert_eq!(next_player(&p, 4), 4);
    assert_eq!(next_player(&seats(&[]), 3), 3);
}

#[test]
fn word_lists_load_from_json() {
    let d = Dictionary::from_json("[\"cat\", \"dog\"]", "[\"at\"]").unwrap();
    assert_eq!(d.words, vec!["cat".to_string(), "dog".to_string()]);
    assert_eq!(d.phrases, vec!["at".to_string()]);
    assert!(d.contains(&"dog".to_string()));
    assert!(!d.contains(&"Dog".to_string()));
}

#[test]
fn word_list_errors() {
    assert_eq!(Dictionary::from_json("{}", "[\"at\"]").err(), Some(LoadError::Words));
    assert_eq!(Dictionary::from_json("[1]", "[\"at\"]").err(), Some(LoadError::Words));
    assert_eq!(Dictionary::from_json("[]", "not json").err(), Some(LoadError::Phrases));
    assert_eq!(Dictionary::from_json("[]", "[]").err(), Some(LoadError::NoPhrases));
}

#[test]
fn deadline_arithmetic() {
    assert_eq!(extend(5_000, 1), 6_000);
    assert_eq!(extend(5_000, -2), 3_000);
    assert_eq!(extend(i64::MAX - 10, 1), i64::MAX);
    assert_eq!(extend(i64::MIN + 10, -1), i64::MIN);
    assert!(!has_expired(0, 10_000, 10));
    assert!(has_expired(0, 10_001, 10));
    assert!(has_expired(i64::MIN, i64::MAX, 10));
    assert!(!has_expired(i64::MAX, i64::MIN, 10));
}

#[test]
fn blank_text() {
    assert!(is_blank(""));
    assert!(is_blank(" \t\u{2003}\n"));
    assert!(!is_blank(" a "));
}

#[test]
fn new_state_defaults() {
    let before = chrono::Utc::now().timestamp_millis();
    let s: State<()> = State::new("ab".to_string());
    let after = chrono::Utc::now().timestamp_millis();
    assert!(s.players.is_empty());
    assert!(s.chat.is_empty());
    assert_eq!(s.current_phrase, "ab");
    assert_eq!(s.current_player, 0);
    assert!(before <= s.timer && s.timer <= after);
    assert_eq!((s.max_players, s.timer_length, s.time_increase, s.lives), (10, 10, 1, 3));
}

#[test]
fn word_lists_from_parsed_lists() {
    let w = vec!["cat".to_string()];
    let p = vec!["at".to_string()];
    assert_eq!(Dictionary::from_lists(None, Some(p.clone())).err(), Some(LoadError::Words));
    assert_eq!(Dictionary::from_lists(Some(w.clone()), None).err(), Some(LoadError::Phrases));
    assert_eq!(Dictionary::from_lists(Some(w.clone()), Some(vec![])).err(), Some(LoadError::NoPhrases));
    let d = Dictionary::from_lists(Some(w.clone()), Some(p.clone())).unwrap();
    assert_eq!((d.words, d.phrases), (w, p));
}
