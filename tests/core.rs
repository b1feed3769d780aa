use wordfight::action::Action;
use wordfight::arena::{Arena, ArenaError, Strike};
use wordfight::dictionary::{Dictionary, WordList};
use wordfight::letters::Letter;
use wordfight::message::AppMessage;
use wordfight::server::{IngestError, Server, SpawnError};
use wordfight::side::PlayerSide;
use wordfight::token::{cert_hash_token, server_cert_hash, TokenError};
use wordfight::word::Word;

fn letters(s: &str) -> Vec<Letter> {
    s.chars().map(|c| Letter::from_char(c).unwrap()).collect()
}

fn arena_with(size: usize, left: &str, right: &str) -> Arena {
    let mut arena = Arena::new(size);
    arena.set_word(PlayerSide::Left, Word::from_letters(letters(left)));
    arena.set_word(PlayerSide::Right, Word::from_letters(letters(right)));
    arena
}

#[test]
fn below_size_no_strike() {
    let mut arena = arena_with(7, "ALP", "ALP");
    let r = arena.execute_actions([None, None]);
    assert_eq!(r, Err(ArenaError::NotInRange { left: 3, right: 3, total: 7 }));
    assert_eq!(arena.word_sizes(), (3, 3));
    assert_eq!(arena.resolve([None, None]), None);
    assert_eq!(arena.word_sizes(), (3, 3));
}

#[test]
fn higher_last_letter_scores() {
    let mut arena = arena_with(7, "ALP", "ALP");
    let r = arena.resolve([Some(Action::Append(Letter::H)), None]);
    assert_eq!(r, Some(Strike::Point(PlayerSide::Right)));
    assert_eq!(arena.word_sizes(), (0, 0));
}

#[test]
fn empty_side_loses() {
    let mut arena = arena_with(7, "ALPHAB", "");
    let r = arena.resolve([Some(Action::Append(Letter::E)), None]);
    assert_eq!(r, Some(Strike::Point(PlayerSide::Left)));
    assert_eq!(arena.word_sizes(), (0, 0));
}

#[test]
fn equal_last_letters_parry() {
    let mut arena = arena_with(7, "SAS", "SAS");
    let r = arena.resolve([None, Some(Action::Append(Letter::S))]);
    assert_eq!(r, Some(Strike::Parry));
    assert_eq!(arena.word_sizes(), (0, 0));
}

#[test]
fn simultaneous_overflow_parry() {
    let mut arena = arena_with(7, "ALP", "ALP");
    let r = arena.resolve([Some(Action::Append(Letter::Z)), Some(Action::Append(Letter::A))]);
    assert_eq!(r, Some(Strike::Parry));
    assert_eq!(arena.word_sizes(), (0, 0));
}

#[test]
fn strike_without_actions_and_delete() {
    let arena = arena_with(4, "AB", "CD");
    assert_eq!(arena.strike(), Ok(Strike::Point(PlayerSide::Right)));
    let mut arena = arena_with(4, "AB", "C");
    assert_eq!(arena.remove_letter(PlayerSide::Left), Some(Letter::B));
    assert_eq!(arena.remove_letter(PlayerSide::Left), Some(Letter::A));
    assert_eq!(arena.remove_letter(PlayerSide::Left), None);
    let r = arena.execute_actions([Some(Action::Delete), Some(Action::Delete)]);
    assert_eq!(r, Err(ArenaError::NotInRange { left: 0, right: 0, total: 4 }));
    assert_eq!(arena.size(), 4);
}

#[test]
fn scores_rise_one_per_point() {
    let mut server = Server::new(2);
    let a = server.connect(10);
    let b = server.connect(11);
    server.matchmake();
    let mut last = (0usize, 0usize);
    for round in 0..5 {
        let (la, lb) = if round % 2 == 0 { (Letter::Z, Letter::A) } else { (Letter::B, Letter::B) };
        server.submit(10, Action::Append(la).made_by(a, PlayerSide::Left)).unwrap();
        server.submit(11, Action::Append(lb).made_by(b, PlayerSide::Right)).unwrap();
        let strikes = server.tick();
        let sa = server.players()[0].score;
        let sb = server.players()[1].score;
        if round % 2 == 0 {
            assert_eq!(strikes, vec![Some(Strike::Point(PlayerSide::Left))]);
            assert_eq!((sa, sb), (last.0 + 1, last.1));
        } else {
            assert_eq!(strikes, vec![Some(Strike::Parry)]);
            assert_eq!((sa, sb), last);
        }
        last = (sa, sb);
    }
    assert_eq!(last, (3, 0));
}

#[test]
fn latest_action_per_side_wins() {
    let mut server = Server::new(2);
    let a = server.connect(1);
    let b = server.connect(2);
    server.matchmake();
    server.submit(1, Action::Append(Letter::A).made_by(a, PlayerSide::Left)).unwrap();
    server.submit(1, Action::Append(Letter::Y).made_by(a, PlayerSide::Left)).unwrap();
    server.submit(2, Action::Append(Letter::X).made_by(b, PlayerSide::Right)).unwrap();
    assert_eq!(server.tick(), vec![Some(Strike::Point(PlayerSide::Left))]);
}

#[test]
fn authority_errors() {
    let mut server = Server::new(7);
    let a = server.connect(1);
    let b = server.connect(2);
    let c = server.connect(3);
    let append = Action::Append(Letter::A);
    assert_eq!(server.submit(3, append.made_by(c, PlayerSide::Left)), Err(IngestError::MatchNotFound));
    server.matchmake();
    assert_eq!(server.submit(1, append.made_by(99, PlayerSide::Left)), Err(IngestError::PlayerNotFound));
    assert_eq!(server.submit(2, append.made_by(a, PlayerSide::Left)), Err(IngestError::Unauthorized));
    assert_eq!(server.submit(1, append.made_by(a, PlayerSide::Right)), Err(IngestError::Unauthorized));
    assert_eq!(server.submit(2, append.made_by(b, PlayerSide::Right)), Ok(()));
    assert_eq!(server.submit(3, append.made_by(c, PlayerSide::Left)), Err(IngestError::MatchNotFound));
    server.tick();
    assert_eq!(server.games()[0].arena().word_sizes(), (0, 1));
}

#[test]
fn dictionary_rejects_appends() {
    let list = WordList::from_lines(&vec!["Alpha".to_string(), "beta".to_string()]);
    assert_eq!(list.len(), 2);
    let dictionary = Dictionary::new(list);
    assert!(dictionary.is_word_substring("ALP"));
    assert!(dictionary.is_word_substring("Be"));
    assert!(!dictionary.is_word_substring("alx"));
    assert!(dictionary.is_word_substring(""));
    assert!(dictionary.accepts(&letters("ALPHA")));
    assert!(!dictionary.accepts(&letters("ALPHAS")));

    let mut word = Word::from_letters(letters("AL"));
    Action::Append(Letter::X).apply(&mut word, &dictionary);
    assert_eq!(word.to_text(), "AL");
    Action::Append(Letter::P).apply(&mut word, &dictionary);
    assert_eq!(word.to_text(), "ALP");
    Action::Delete.apply(&mut word, &dictionary);
    assert_eq!(word.to_text(), "AL");

    let mut server = Server::with_dictionary(7, dictionary);
    let a = server.connect(1);
    let _b = server.connect(2);
    server.matchmake();
    assert_eq!(server.submit(1, Action::Append(Letter::Q).made_by(a, PlayerSide::Left)), Err(IngestError::InvalidAppend));
    assert_eq!(server.submit(1, Action::Append(Letter::B).made_by(a, PlayerSide::Left)), Ok(()));
    assert_eq!(server.submit(1, Action::Delete.made_by(a, PlayerSide::Left)), Ok(()));
}

#[test]
fn disconnect_ends_match() {
    let mut server = Server::new(7);
    let a = server.connect(1);
    let b = server.connect(2);
    let game = server.matchmake()[0];
    assert_eq!(server.games()[0].entity(), game);
    assert_eq!(server.disconnect(1), Some(a));
    assert_eq!(server.disconnect(1), None);
    assert!(server.games().is_empty());
    assert_eq!(server.players().len(), 1);
    assert_eq!(server.players()[0].entity, b);
    assert_eq!(
        server.submit(2, Action::Append(Letter::A).made_by(b, PlayerSide::Right)),
        Err(IngestError::MatchNotFound)
    );
    assert!(server.state_for(b).is_none());
    // the partner is back in the lobby and is matched again
    let c = server.connect(3);
    let spawned = server.matchmake();
    assert_eq!(spawned.len(), 1);
    assert_eq!(server.games()[0].player(PlayerSide::Left), b);
    assert_eq!(server.games()[0].player(PlayerSide::Right), c);
}

#[test]
fn matchmaking_pairs_in_order() {
    let mut server = Server::new(5);
    let ids: Vec<u64> = (0..5).map(|c| server.connect(c)).collect();
    let spawned = server.matchmake();
    assert_eq!(spawned.len(), 2);
    assert_eq!(server.games()[0].player(PlayerSide::Left), ids[0]);
    assert_eq!(server.games()[0].player(PlayerSide::Right), ids[1]);
    assert_eq!(server.games()[1].player(PlayerSide::Left), ids[2]);
    assert_eq!(server.games()[1].player(PlayerSide::Right), ids[3]);
    assert_eq!(server.games()[1].arena().size(), 5);
    assert_eq!(server.matchmake().len(), 0);
    let late = server.connect(9);
    assert_eq!(server.matchmake().len(), 1);
    assert_eq!(server.games()[2].player(PlayerSide::Left), ids[4]);
    assert_eq!(server.games()[2].player(PlayerSide::Right), late);
}

#[test]
fn visibility_scoped_to_match() {
    let mut server = Server::new(7);
    let a = server.connect(1);
    let b = server.connect(2);
    let c = server.connect(3);
    let d = server.connect(4);
    let l1 = server.connect(5);
    let l2 = server.connect(6);
    // before matching, lobby players see each other
    assert!(server.is_visible(a, d));
    let spawned = server.matchmake();
    let (m1, m2, m3) = (spawned[0], spawned[1], spawned[2]);
    let _ = m3;
    assert!(server.is_visible(a, a));
    assert!(server.is_visible(a, b));
    assert!(server.is_visible(a, m1));
    assert!(!server.is_visible(a, c));
    assert!(!server.is_visible(a, d));
    assert!(!server.is_visible(a, m2));
    assert!(!server.is_visible(99, a));
    let _ = (l1, l2);
    let mut seen = server.visible_entities(c);
    seen.sort();
    assert_eq!(seen, vec![c, d, m2]);

    let mut server = Server::new(7);
    let a = server.connect(1);
    let b = server.connect(2);
    let l = server.connect(3);
    let m = server.matchmake()[0];
    assert!(!server.is_visible(l, a));
    assert!(!server.is_visible(a, l));
    let all = server.handle_visibility();
    assert_eq!(all.len(), 3);
    let mut lobby_view = all[2].visible.clone();
    lobby_view.sort();
    assert_eq!((all[2].client, all[2].player, lobby_view), (3, l, vec![l]));
    let mut match_view = all[0].visible.clone();
    match_view.sort();
    assert_eq!(match_view, vec![a, b, m]);
}

#[test]
fn state_message_of_own_match() {
    let mut server = Server::new(7);
    let a = server.connect(1);
    let b = server.connect(2);
    let c = server.connect(3);
    let d = server.connect(4);
    server.matchmake();
    server.submit(1, Action::Append(Letter::W).made_by(a, PlayerSide::Left)).unwrap();
    server.submit(2, Action::Append(Letter::O).made_by(b, PlayerSide::Right)).unwrap();
    server.submit(3, Action::Append(Letter::Q).made_by(c, PlayerSide::Left)).unwrap();
    server.tick();
    let m = server.state_for(b).unwrap();
    assert_eq!(m.my_side, PlayerSide::Right);
    assert_eq!(m.left_word, "W");
    assert_eq!(m.right_word, "O");
    assert_eq!((m.left_score, m.right_score, m.arena_size), (0, 0, 7));
    let other = server.state_for(d).unwrap();
    assert_eq!(other.left_word, "Q");
    assert_eq!(other.right_word, "");
    assert_eq!(other.my_side, PlayerSide::Right);
}

#[test]
fn letters_from_text() {
    assert_eq!(Letter::from_char('a'), Some(Letter::A));
    assert_eq!(Letter::from_char('Z'), Some(Letter::Z));
    assert_eq!(Letter::from_char('m'), Some(Letter::M));
    assert_eq!(Letter::from_char('1'), None);
    assert_eq!(Letter::from_char('é'), None);
    assert_eq!(Letter::from_string("q"), Some(Letter::Q));
    assert_eq!(Letter::from_string("Q"), Some(Letter::Q));
    assert_eq!(Letter::from_string("qq"), None);
    assert_eq!(Letter::from_string(""), None);
    assert_eq!(Letter::from_string("?"), None);
    assert_eq!(Letter::from_index(7), Letter::H);
    assert_eq!(Letter::H.index(), 7);
    assert_eq!(Letter::H.to_char(), 'H');
    assert_eq!(Letter::H.to_lower_char(), 'h');
    assert!(Letter::A < Letter::B && Letter::Y < Letter::Z);
}

#[test]
fn app_messages() {
    assert_eq!(AppMessage::add_letter("k"), Some(AppMessage::AddLetter(Letter::K)));
    assert_eq!(AppMessage::add_letter("Backspace"), None);
    assert_eq!(AppMessage::Backspace.to_action(), Action::Delete);
    assert_eq!(AppMessage::AddLetter(Letter::C).to_action(), Action::Append(Letter::C));
}

#[test]
fn sides() {
    assert!(PlayerSide::Left.is_left());
    assert!(!PlayerSide::Left.is_right());
    assert_eq!(PlayerSide::Left.opposite(), PlayerSide::Right);
    assert_eq!(PlayerSide::Right.opposite(), PlayerSide::Left);
    assert_eq!(PlayerSide::Right.to_index(), 1);
}

#[test]
fn word_text_and_edits() {
    let mut w = Word::new();
    assert!(w.is_empty());
    assert_eq!(w.pop(), None);
    w.push(Letter::H);
    w.push(Letter::I);
    assert_eq!(w.to_text(), "HI");
    assert_eq!(w.last(), Some(Letter::I));
    assert_eq!(w.len(), 2);
    w.clear();
    assert_eq!(w.to_text(), "");
}

#[test]
fn tokens_round_trip() {
    let token = cert_hash_token(&b"hello".to_vec());
    assert_eq!(token, "aGVsbG8=");
    assert_eq!(server_cert_hash("aGVsbG8="), Ok(b"hello".to_vec()));
    assert_eq!(server_cert_hash("not base64!"), Err(TokenError::Malformed));
}

#[test]
fn spawn_game_checks_players() {
    let mut server = Server::new(7);
    let a = server.connect(1);
    let b = server.connect(2);
    let c = server.connect(3);
    assert_eq!(server.spawn_game(5, a, 42), Err(SpawnError::PlayerNotFound));
    assert_eq!(server.spawn_game(5, a, a), Err(SpawnError::SamePlayer));
    let next = server.next_entity();
    assert_eq!(server.spawn_game(5, b, a), Ok(next));
    assert_eq!(server.games()[0].player(PlayerSide::Left), b);
    assert_eq!(server.games()[0].arena().size(), 5);
    assert_eq!(server.spawn_game(5, c, a), Err(SpawnError::AlreadyInMatch));
    assert_eq!(server.games().len(), 1);
    assert_eq!(server.get_my_player(1), Some((a, PlayerSide::Right)));
    assert_eq!(server.get_my_player(2), Some((b, PlayerSide::Left)));
    assert_eq!(server.get_my_player(3), None);
    assert_eq!(server.get_my_player(4), None);
}

#[test]
fn not_flips_side() {
    assert_eq!(!PlayerSide::Left, PlayerSide::Right);
    assert_eq!(!PlayerSide::Right, PlayerSide::Left);
}

#[test]
fn idle_tick_changes_nothing() {
    let mut server = Server::new(0);
    let a = server.connect(1);
    let _b = server.connect(2);
    server.matchmake();
    assert_eq!(server.tick(), vec![None]);
    server.submit(1, Action::Delete.made_by(a, PlayerSide::Left)).unwrap();
    assert_eq!(server.tick(), vec![Some(Strike::Parry)]);
    assert_eq!(server.tick(), vec![None]);
}
