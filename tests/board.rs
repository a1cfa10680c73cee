use games::board::{Board, Coord, Dir, HitResult, ParseCoordError, Square};
use games::view::VisibilityView;

fn empty_row() -> String {
    "- - - - - - - - - -".to_string()
}

#[test]
fn shooting_a_shot_square_misses_and_changes_nothing() {
    let mut hit = Square::ShipHit;
    assert_eq!(hit.shoot(), HitResult::Miss);
    assert_eq!(hit, Square::ShipHit);
    let mut miss = Square::SeaMiss;
    assert_eq!(miss.shoot(), HitResult::Miss);
    assert_eq!(miss, Square::SeaMiss);
}

#[test]
fn shooting_fresh_squares() {
    let mut ship = Square::Ship;
    assert_eq!(ship.shoot(), HitResult::Hit);
    assert_eq!(ship, Square::ShipHit);
    assert_eq!(ship.shoot(), HitResult::Miss);
    assert_eq!(ship, Square::ShipHit);
    let mut sea = Square::Sea;
    assert_eq!(sea.shoot(), HitResult::Miss);
    assert_eq!(sea, Square::SeaMiss);
}

#[test]
fn public_equality_of_squares() {
    assert!(Square::Ship.eq_pub(&Square::Sea));
    assert!(!Square::ShipHit.eq_pub(&Square::Ship));
    assert!(!Square::Ship.eq_priv(&Square::Sea));
    assert!(Square::SeaMiss.eq_priv(&Square::SeaMiss));
    assert!(!Square::SeaMiss.eq_pub(&Square::Sea));
}

#[test]
fn square_texts() {
    assert_eq!(Square::Ship.disp_priv(), "s");
    assert_eq!(Square::ShipHit.disp_priv(), "x");
    assert_eq!(Square::Sea.disp_priv(), "-");
    assert_eq!(Square::SeaMiss.disp_priv(), "o");
    assert_eq!(Square::Ship.disp_pub(), "-");
    assert_eq!(Square::ShipHit.disp_pub(), "x");
    assert_eq!(Square::default(), Square::Sea);
}

#[test]
fn ship_count_follows_hits() {
    let mut board = Board::new();
    assert_eq!(board.ship_squares_left(), 0);
    assert!(board.place_ship_line(Coord::new(2, 2), Dir::new(0, 1), 3));
    assert_eq!(board.ship_squares_left(), 3);
    assert_eq!(board.shoot(Coord::new(2, 3)), HitResult::Hit);
    assert_eq!(board.ship_squares_left(), 2);
    assert_eq!(board.shoot(Coord::new(2, 3)), HitResult::Miss);
    assert_eq!(board.ship_squares_left(), 2);
    assert_eq!(board.shoot(Coord::new(5, 5)), HitResult::Miss);
    assert_eq!(board.ship_squares_left(), 2);
    assert_eq!(board.shoot(Coord::new(2, 2)), HitResult::Hit);
    assert_eq!(board.shoot(Coord::new(2, 4)), HitResult::Hit);
    assert_eq!(board.ship_squares_left(), 0);
    assert_eq!(board.get_priv(Coord::new(2, 3)), Square::ShipHit);
    assert_eq!(board.get_priv(Coord::new(5, 5)), Square::SeaMiss);
}

#[test]
fn valid_line_then_placement_places_exactly_that_line() {
    let mut board = Board::new();
    let start = Coord::new(1, 1);
    let dir = Dir::new(1, 1);
    assert!(board.valid_ship_line(start, dir, 4));
    assert!(board.place_ship_line(start, dir, 4));
    assert_eq!(board.ship_squares_left(), 4);
    for k in 1..5usize {
        assert_eq!(board.get_priv(Coord::new(k, k)), Square::Ship);
        assert_eq!(board.get_pub(Coord::new(k, k)), Square::Sea);
    }
    assert_eq!(board.get_priv(Coord::new(5, 5)), Square::Sea);
    assert_eq!(board.get_priv(Coord::new(0, 0)), Square::Sea);
    // The line is taken now.
    assert!(!board.valid_ship_line(Coord::new(3, 0), Dir::new(0, 1), 4));
    assert!(!board.place_ship_line(Coord::new(3, 0), Dir::new(0, 1), 4));
    assert_eq!(board.ship_squares_left(), 4);
}

#[test]
fn ship_running_off_the_bottom_is_rejected() {
    let mut board = Board::new();
    let fresh = Board::new();
    assert!(!board.valid_ship_line(Coord::new(9, 0), Dir::new(1, 0), 3));
    assert!(!board.place_ship_line(Coord::new(9, 0), Dir::new(1, 0), 3));
    assert!(board.eq_priv(&fresh));
    assert_eq!(board.ship_squares_left(), 0);
}

#[test]
fn ship_touching_the_edge_fits() {
    let mut board = Board::new();
    assert!(board.valid_ship_line(Coord::new(7, 0), Dir::new(1, 0), 3));
    assert!(board.valid_ship_line(Coord::new(0, 9), Dir::new(0, 1), 1));
    assert!(board.valid_ship_line(Coord::new(0, 0), Dir::new(-1, 0), 1));
    assert!(!board.valid_ship_line(Coord::new(0, 0), Dir::new(-1, 0), 2));
    assert!(board.place_ship_line(Coord::new(7, 0), Dir::new(1, 0), 3));
    assert_eq!(board.get_priv(Coord::new(9, 0)), Square::Ship);
}

#[test]
fn line_checks_on_start_direction_and_length() {
    let board = Board::new();
    assert!(board.valid_ship_line(Coord::new(4, 4), Dir::new(0, 1), 0));
    assert!(board.valid_ship_line(Coord::new(10, 4), Dir::new(0, 1), 0));
    assert!(!board.valid_ship_line(Coord::new(10, 4), Dir::new(0, 0), 0));
    assert!(!board.valid_ship_line(Coord::new(10, 4), Dir::new(0, 1), 1));
    let mut other = Board::new();
    assert!(other.place_ship_line(Coord::new(10, 4), Dir::new(0, 1), 0));
    assert_eq!(other.ship_squares_left(), 0);
    assert!(!board.valid_ship_line(Coord::new(4, 4), Dir::new(0, 0), 2));
    assert!(!board.valid_ship_line(Coord::new(4, 4), Dir::new(2, 0), 2));
    assert!(!board.valid_ship_line(Coord::new(4, 4), Dir::new(0, 1), 7));
    assert!(board.valid_ship_line(Coord::new(4, 4), Dir::new(0, 1), 6));
}

#[test]
fn place_single_squares() {
    let mut board = Board::new();
    assert!(board.place_ship_square(Coord::new(0, 0)));
    assert!(!board.place_ship_square(Coord::new(0, 0)));
    assert_eq!(board.ship_squares_left(), 1);
    assert_eq!(board.shoot(Coord::new(0, 1)), HitResult::Miss);
    assert!(!board.place_ship_square(Coord::new(0, 1)));
    assert_eq!(board.get_priv(Coord::new(0, 1)), Square::SeaMiss);
}

#[test]
fn board_texts_and_public_equality() {
    let mut board = Board::new();
    let rows: Vec<String> = (0..10).map(|_| empty_row()).collect();
    assert_eq!(board.disp_priv(), rows.join("\n"));
    assert!(board.place_ship_line(Coord::new(0, 0), Dir::new(0, 1), 2));
    assert_eq!(board.shoot(Coord::new(0, 1)), HitResult::Hit);
    assert_eq!(board.shoot(Coord::new(1, 0)), HitResult::Miss);
    let text = board.disp_priv();
    let lines: Vec<&str> = text.split('\n').collect();
    assert_eq!(lines.len(), 10);
    assert_eq!(lines[0], "s x - - - - - - - -");
    assert_eq!(lines[1], "o - - - - - - - - -");
    let public = board.disp_pub();
    assert_eq!(public.split('\n').next().unwrap(), "- x - - - - - - - -");
    let fresh = Board::new();
    assert!(!board.eq_pub(&fresh));
    let mut hidden = Board::new();
    assert!(hidden.place_ship_square(Coord::new(3, 3)));
    assert!(hidden.eq_pub(&fresh));
    assert!(!hidden.eq_priv(&fresh));
}

#[test]
fn coordinates() {
    assert!(Coord::new(9, 9).is_valid());
    assert!(!Coord::new(10, 0).is_valid());
    assert!(!Coord::new(0, 10).is_valid());
    assert_eq!(Coord::from_isize(3, 4), Some(Coord::new(3, 4)));
    assert_eq!(Coord::from_isize(-1, 4), None);
    assert_eq!(Coord::new(3, 4).add(Dir::new(-1, 1)), Some(Coord::new(2, 5)));
    assert_eq!(Coord::new(0, 4).add(Dir::new(-1, 0)), None);
    assert_eq!(Coord::new(9, 9).add(Dir::new(1, 3)), Some(Coord::new(10, 12)));
    assert_eq!(Coord::new(40, 0).add(Dir::new(-41, 0)), None);
    assert!(Dir::new(-1, -1).is_valid());
    assert!(!Dir::new(0, 0).is_valid());
    assert!(!Dir::new(0, 2).is_valid());
}

#[test]
fn parse_coordinates() {
    assert_eq!(Coord::parse("(3,4)").unwrap(), Coord::new(3, 4));
    assert_eq!(Coord::parse("12,0").unwrap(), Coord::new(12, 0));
    assert_eq!("(7,1)".parse::<Coord>().unwrap(), Coord::new(7, 1));
    assert!(matches!(Coord::parse("1,2,3"), Err(ParseCoordError::TooManyCoords)));
    assert!(matches!(Coord::parse("(5)"), Err(ParseCoordError::TooFewCoords)));
    assert!(matches!(Coord::parse("a,1"), Err(ParseCoordError::ParseRowError(_))));
    assert!(matches!(Coord::parse("1,b"), Err(ParseCoordError::ParseColError(_))));
    assert!(matches!(Coord::parse("1, 2"), Err(ParseCoordError::ParseColError(_))));
}
