use games::abstract_game::{AbstractGame, Ai, GameStatus};
use games::battleship::game::{GameState, Move, ShipType, UnimplementedBattleshipAi};
use games::board::{Coord, Dir};
use games::play::{next_turn, play_checked, play_typed, Turn};
use games::player::{Player, TwoPlayers};

const ONE: TwoPlayers = Player(0);
const TWO: TwoPlayers = Player(1);

fn place(len: usize, row: usize, col: usize, drow: isize, dcol: isize) -> Move {
    Move::PlaceShip(ShipType::from_usize(len), Coord::new(row, col), Dir::new(drow, dcol))
}

fn play(game: &mut GameState, mv: Move) {
    assert!(game.check_move(&mv).is_ok());
    game.make_move(mv);
}

fn place_fleet(game: &mut GameState) {
    play(game, place(3, 0, 0, 0, 1));
    play(game, place(4, 1, 0, 0, 1));
    play(game, place(5, 2, 0, 0, 1));
}

#[test]
fn new_game_starts_with_placement_by_first_player() {
    let game = GameState::game_setup(());
    assert_eq!(game.status(), GameStatus::ToMove(ONE));
    assert_eq!(game.cur_player(), Some(ONE));
    assert!(!game.is_ended());
    assert_eq!(game.num_players(), 2);
    let empty = vec!["- - - - - - - - - -"; 10].join("\n");
    let expected = format!("=== Your Board ===\n{}\n=== Ships to Place ===\n3 4 5 \n", empty);
    assert_eq!(game.print_state_visible(ONE), expected);
    assert_eq!(game.print_state_visible(TWO), expected);
}

#[test]
fn full_game_until_a_winner() {
    let mut game = GameState::new();
    place_fleet(&mut game);
    assert_eq!(game.status(), GameStatus::ToMove(TWO));
    place_fleet(&mut game);
    assert_eq!(game.status(), GameStatus::ToMove(ONE));
    let targets: Vec<(usize, usize)> = (0..3usize)
        .flat_map(|row| (0..(row + 3)).map(move |col| (row, col)))
        .collect();
    assert_eq!(targets.len(), 12);
    for (i, &(row, col)) in targets.iter().enumerate() {
        assert_eq!(game.status(), GameStatus::ToMove(ONE));
        play(&mut game, Move::Shoot(Coord::new(row, col)));
        if i + 1 < targets.len() {
            assert_eq!(game.status(), GameStatus::ToMove(TWO));
            play(&mut game, Move::Shoot(Coord::new(9, i % 10)));
        }
    }
    assert_eq!(game.status(), GameStatus::Won(ONE));
    assert_eq!(game.status(), GameStatus::Won(ONE));
    assert!(game.is_ended());
    assert_eq!(game.cur_player(), None);
    assert!(game.check_move(&Move::Shoot(Coord::new(0, 0))).is_err());
    assert!(!game.is_valid_move(&Move::Shoot(Coord::new(5, 5))));
    assert_eq!(game.status(), GameStatus::Won(ONE));
}

#[test]
fn shooting_before_placing_is_illegal() {
    let mut game = GameState::new();
    play(&mut game, place(3, 0, 0, 0, 1));
    play(&mut game, place(5, 2, 0, 0, 1));
    let shot = Move::Shoot(Coord::new(4, 4));
    assert!(game.check_move(&shot).is_err());
    assert!(!game.is_valid_move(&shot));
    assert!(!play_checked(&mut game, shot));
    assert_eq!(game.status(), GameStatus::ToMove(ONE));
    assert!(game.is_valid_move(&place(4, 5, 5, 1, 0)));
}

#[test]
fn placement_rules() {
    let mut game = GameState::new();
    assert!(!game.is_valid_move(&place(6, 0, 0, 0, 1)));
    assert!(!game.is_valid_move(&place(3, 9, 0, 1, 0)));
    assert!(!game.is_valid_move(&place(3, 10, 0, 0, 1)));
    assert!(!game.is_valid_move(&place(3, 0, 0, 0, 0)));
    play(&mut game, place(3, 0, 0, 0, 1));
    assert!(!game.is_valid_move(&place(3, 5, 5, 0, 1)));
    assert!(!game.is_valid_move(&place(4, 0, 2, 1, 0)));
    assert!(game.is_valid_move(&place(4, 1, 2, 1, 0)));
}

#[test]
fn shots_alternate_and_hit_the_opponent() {
    let mut game = GameState::new();
    place_fleet(&mut game);
    place_fleet(&mut game);
    play(&mut game, Move::Shoot(Coord::new(0, 0)));
    assert_eq!(game.status(), GameStatus::ToMove(TWO));
    let seen_by_two = game.print_state_visible(TWO);
    assert!(seen_by_two.starts_with("=== Your Board ===\nx s s - "));
    let seen_by_one = game.print_state_visible(ONE);
    assert!(seen_by_one.contains("=== Shots ===\nx - - - "));
    assert!(!game.is_valid_move(&Move::Shoot(Coord::new(0, 10))));
}

#[test]
fn view_during_placement() {
    let mut game = GameState::new();
    play(&mut game, place(4, 0, 0, 0, 1));
    let text = game.print_state_visible(ONE);
    let row0 = "s s s s - - - - - -";
    let rest = vec!["- - - - - - - - - -"; 9].join("\n");
    let expected = format!(
        "=== Your Board ===\n{}\n{}\n=== Ships to Place ===\n3 5 \n",
        row0, rest
    );
    assert_eq!(text, expected);
}

#[test]
fn parse_moves() {
    let game = GameState::new();
    assert_eq!(game.parse_move("3 4 5 0 1"), Ok(place(3, 4, 5, 0, 1)));
    assert_eq!(game.parse_move("(2 7)"), Ok(Move::Shoot(Coord::new(2, 7))));
    assert_eq!(game.parse_move("4 12 0 -1 -1"), Ok(place(4, 12, 0, -1, -1)));
    assert!(game.parse_move("3 -4 5 0 1").is_err());
    assert!(game.parse_move("-3 4 5 0 1").is_err());
    assert!(game.parse_move("1 2 3").is_err());
    assert!(game.parse_move("a b").is_err());
    assert!(game.parse_move("").is_err());
    assert_eq!(Move::parse_core("0 0"), Some(Move::Shoot(Coord::new(0, 0))));
    assert_eq!(game.query(), "Move: ");
    assert!(game.parse_valid_move("3 0 0 0 1").is_ok());
    assert_eq!(game.parse_valid_move("3 9 0 1 0"), Err("Invalid move".to_string()));
    assert_eq!(game.parse_valid_move("3 9 0"), Err("Could not parse move. ".to_string()));
    assert_eq!(game.parse_move("1 2 3"), Err("Could not parse move. ".to_string()));
}

#[test]
fn move_validity_and_ship_types() {
    assert!(place(3, 0, 0, 1, 1).is_valid());
    assert!(!place(3, 0, 0, 0, 0).is_valid());
    assert!(!Move::Shoot(Coord::new(10, 1)).is_valid());
    assert_eq!(ShipType::from_isize(4), Some(ShipType::from_usize(4)));
    assert_eq!(ShipType::from_isize(-1), None);
}

#[test]
fn engine_turns_and_typed_moves() {
    let mut game = GameState::new();
    assert!(matches!(next_turn(game.status(), Some(ONE)), Turn::Human(p) if p == ONE));
    assert!(matches!(next_turn(GameStatus::ToMove(TWO), Some(ONE)), Turn::Computer(p) if p == TWO));
    assert!(matches!(next_turn(GameStatus::ToMove(TWO), None), Turn::Human(p) if p == TWO));
    assert!(matches!(next_turn(GameStatus::<2>::Won(TWO), Some(ONE)), Turn::Over(p) if p == TWO));
    assert!(play_typed(&mut game, "3 0 0").is_err());
    assert!(play_typed(&mut game, "3 9 9 1 1").is_err());
    assert_eq!(play_typed(&mut game, "3 9 9 -1 -1"), Ok(place(3, 9, 9, -1, -1)));
    assert_eq!(play_typed(&mut game, "x"), Err("Could not parse move. ".to_string()));
    assert_eq!(play_typed(&mut game, "9 0 0 0 1"), Err("Invalid move".to_string()));
    assert!(!game.is_valid_move(&place(3, 0, 0, 0, 1)));
}

#[test]
fn agent_plays_legal_moves_to_the_end() {
    let mut game = GameState::new();
    let mut ai = UnimplementedBattleshipAi::new();
    let mut moves = 0;
    while let GameStatus::ToMove(p) = game.status() {
        let mv = ai.ai_move(&game, p);
        assert!(game.is_valid_move(&mv));
        game.make_move(mv);
        moves += 1;
        assert!(moves < 1000);
    }
    assert!(matches!(game.status(), GameStatus::Won(_)));
}
