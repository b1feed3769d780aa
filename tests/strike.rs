use wordfight::action::{Action, ActionEvent};
use wordfight::arena::Strike;
use wordfight::letters::Letter;
use wordfight::server::Server;
use wordfight::side::PlayerSide;

const ALPHABET: [Letter; 8] = [
    Letter::A,
    Letter::L,
    Letter::P,
    Letter::H,
    Letter::A,
    Letter::B,
    Letter::E,
    Letter::T,
];

const SERVER_CLIENT: u64 = 0;

/// Two players on one connection, matched into a game of `size`.
fn app(size: usize) -> (Server, u64, u64) {
    let mut server = Server::new(size);
    let client1 = server.connect(SERVER_CLIENT);
    let client2 = server.connect(SERVER_CLIENT);
    server.spawn_game(size, client1, client2).unwrap();
    (server, client1, client2)
}

fn send(server: &mut Server, action: Action, player: u64, side: PlayerSide) {
    let event: ActionEvent = action.made_by(player, side);
    assert_eq!(server.submit(SERVER_CLIENT, event), Ok(()));
}

/// Fills both words through actions, one letter per side per tick.
fn set_words(server: &mut Server, left: (u64, &[Letter]), right: (u64, &[Letter])) {
    let n = left.1.len().max(right.1.len());
    for i in 0..n {
        if let Some(l) = left.1.get(i) {
            send(server, Action::Append(*l), left.0, PlayerSide::Left);
        }
        if let Some(l) = right.1.get(i) {
            send(server, Action::Append(*l), right.0, PlayerSide::Right);
        }
        let strikes = server.tick();
        assert_eq!(strikes, vec![None]);
    }
}

fn word_sizes(server: &Server) -> (usize, usize) {
    server.games()[0].arena().word_sizes()
}

fn score_of(server: &Server, player: u64) -> usize {
    server.players().iter().find(|p| p.entity == player).unwrap().score
}

fn assert_word_sizes(server: &Server, left: usize, right: usize) {
    assert_eq!(word_sizes(server), (left, right));
}

fn assert_scores(server: &Server, left: (u64, usize), right: (u64, usize)) {
    assert_eq!(score_of(server, left.0), left.1);
    assert_eq!(score_of(server, right.0), right.1);
}

#[test]
fn test_strike_score_typical() {
    let (mut app, player_one, player_two) = app(7);
    let first_three_letters: Vec<Letter> = ALPHABET[0..3].to_vec();
    set_words(&mut app, (player_one, &first_three_letters), (player_two, &first_three_letters));

    app.tick();
    assert_word_sizes(&app, 3, 3);
    assert_eq!(score_of(&app, player_one), 0);
    assert_eq!(score_of(&app, player_two), 0);

    send(&mut app, Action::Append(ALPHABET[3]), player_one, PlayerSide::Left);
    let strikes = app.tick();
    assert_eq!(strikes, vec![Some(Strike::Point(PlayerSide::Right))]);

    assert_word_sizes(&app, 0, 0);
    assert_scores(&app, (player_one, 0), (player_two, 1));
}

#[test]
fn test_strike_score_edge() {
    let (mut app, player_one, player_two) = app(7);
    let first_six_letters = ALPHABET[0..6].to_vec();
    set_words(&mut app, (player_one, &first_six_letters), (player_two, &[]));

    app.tick();
    assert_word_sizes(&app, 6, 0);
    assert_scores(&app, (player_one, 0), (player_two, 0));

    send(&mut app, Action::Append(ALPHABET[6]), player_one, PlayerSide::Left);
    app.tick();

    assert_word_sizes(&app, 0, 0);
    assert_scores(&app, (player_one, 1), (player_two, 0));
}

#[test]
fn test_strike_full_interaction() {
    let (mut app, player_one, player_two) = app(7);

    for (index, letter) in ALPHABET[0..3].iter().enumerate() {
        assert_word_sizes(&app, index, index);
        assert_scores(&app, (player_one, 0), (player_two, 0));

        send(&mut app, Action::Append(*letter), player_one, PlayerSide::Left);
        app.tick();

        assert_word_sizes(&app, index + 1, index);
        assert_scores(&app, (player_one, 0), (player_two, 0));

        send(&mut app, Action::Append(*letter), player_two, PlayerSide::Right);
        app.tick();
    }

    assert_word_sizes(&app, 3, 3);
    assert_scores(&app, (player_one, 0), (player_two, 0));

    send(&mut app, Action::Append(ALPHABET[3]), player_two, PlayerSide::Right);
    app.tick();

    assert_word_sizes(&app, 0, 0);
    assert_scores(&app, (player_one, 1), (player_two, 0));
}

#[test]
fn test_strike_parry() {
    const SASS: [Letter; 4] = [Letter::S, Letter::A, Letter::S, Letter::S];
    let (mut app, player_one, player_two) = app(7);

    let first_three_letters: Vec<Letter> = SASS[0..3].to_vec();
    set_words(&mut app, (player_one, &first_three_letters), (player_two, &first_three_letters));
    app.tick();

    assert_word_sizes(&app, 3, 3);
    assert_scores(&app, (player_one, 0), (player_two, 0));

    send(&mut app, Action::Append(SASS[3]), player_one, PlayerSide::Left);
    let strikes = app.tick();
    assert_eq!(strikes, vec![Some(Strike::Parry)]);

    assert_word_sizes(&app, 0, 0);
    assert_scores(&app, (player_one, 0), (player_two, 0));

    // now the same for the other player
    set_words(&mut app, (player_one, &first_three_letters), (player_two, &first_three_letters));
    app.tick();

    assert_word_sizes(&app, 3, 3);
    assert_scores(&app, (player_one, 0), (player_two, 0));
    send(&mut app, Action::Append(SASS[3]), player_two, PlayerSide::Right);
    app.tick();

    assert_word_sizes(&app, 0, 0);
    assert_scores(&app, (player_one, 0), (player_two, 0));
}

#[test]
fn test_strike_over_range() {
    let (mut app, player_one, player_two) = app(7);

    let first_three_letters: Vec<Letter> = ALPHABET[0..3].to_vec();
    set_words(&mut app, (player_one, &first_three_letters), (player_two, &first_three_letters));
    app.tick();

    assert_word_sizes(&app, 3, 3);
    assert_scores(&app, (player_one, 0), (player_two, 0));

    // two inputs at the same time!
    send(&mut app, Action::Append(ALPHABET[3]), player_one, PlayerSide::Left);
    send(&mut app, Action::Append(ALPHABET[3]), player_two, PlayerSide::Right);
    let strikes = app.tick();
    assert_eq!(strikes, vec![Some(Strike::Parry)]);

    assert_word_sizes(&app, 0, 0);
    assert_scores(&app, (player_one, 0), (player_two, 0));
}
