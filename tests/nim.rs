use games::abstract_game::{AbstractGame, GameStatus};
use games::nim::{NimMove, NimState};
use games::player::Player;

#[test]
fn nim_game_to_the_end() {
    let mut game = NimState::<2>::game_setup(vec![1, 2]);
    assert_eq!(game.status(), GameStatus::ToMove(Player(0)));
    assert_eq!(game.print_state_visible(Player(0)), "Piles: [1, 2]");
    let mv = game.parse_move("2 2").unwrap();
    assert_eq!(mv, NimMove { pile: 2, take: 2 });
    assert!(game.check_move(&mv).is_ok());
    game.make_move(mv);
    assert_eq!(game.print_state_visible(Player(1)), "Piles: [1, 0]");
    assert_eq!(game.status(), GameStatus::ToMove(Player(1)));
    game.make_move(NimMove { pile: 1, take: 1 });
    assert_eq!(game.status(), GameStatus::Won(Player(1)));
}

#[test]
fn nim_three_players() {
    let mut game = NimState::<3>::game_setup(vec![2]);
    game.make_move(NimMove { pile: 1, take: 1 });
    assert_eq!(game.status(), GameStatus::ToMove(Player(1)));
    game.make_move(NimMove { pile: 1, take: 1 });
    assert_eq!(game.status(), GameStatus::Won(Player(1)));
    let empty = NimState::<3>::game_setup(vec![]);
    assert_eq!(empty.status(), GameStatus::Won(Player(2)));
    assert_eq!(empty.print_state_visible(Player(0)), "Piles: []");
}

#[test]
fn nim_move_errors() {
    let game = NimState::<2>::game_setup(vec![3, 0, 5]);
    assert_eq!(
        game.check_move(&NimMove { pile: 0, take: 1 }),
        Err("Pile should be between 1 and 3. ".to_string())
    );
    assert_eq!(
        game.check_move(&NimMove { pile: 4, take: 1 }),
        Err("Pile should be between 1 and 3. ".to_string())
    );
    assert_eq!(
        game.check_move(&NimMove { pile: 1, take: 0 }),
        Err("Must take at least one stick. ".to_string())
    );
    assert_eq!(
        game.check_move(&NimMove { pile: 2, take: 1 }),
        Err("Not enough sticks in that pile. ".to_string())
    );
    assert_eq!(game.check_move(&NimMove { pile: 3, take: 5 }), Ok(()));
    assert_eq!(
        game.parse_move("x 1"),
        Err("Move should be two integers separated by a space. ".to_string())
    );
    assert_eq!(
        game.parse_move("1 2 3"),
        Err("Move should be exactly two integers. ".to_string())
    );
    assert_eq!(game.query(), "Choose a pile and number of sticks: ");
}

#[test]
fn nim_errors_pass_through_checked_reading() {
    let game = NimState::<2>::game_setup(vec![2, 2]);
    assert_eq!(game.parse_valid_move("1 2"), Ok(NimMove { pile: 1, take: 2 }));
    assert_eq!(
        game.parse_valid_move("1 x"),
        Err("Move should be two integers separated by a space. ".to_string())
    );
    assert_eq!(game.parse_valid_move("1"), Err("Move should be exactly two integers. ".to_string()));
    assert_eq!(
        game.parse_valid_move("3 1"),
        Err("Pile should be between 1 and 2. ".to_string())
    );
    assert_eq!(
        game.parse_valid_move("2 3"),
        Err("Not enough sticks in that pile. ".to_string())
    );
}
