use games::player::{ParsePlayerErr, Player, TwoPlayers};
use games::util::FromStrHelp;

const ONE: TwoPlayers = Player(0);
const TWO: TwoPlayers = Player(1);
const INVALID1: TwoPlayers = Player(2);
const INVALID2: TwoPlayers = Player(3);

#[test]
fn test_is_valid() {
    assert!(ONE.is_valid());
    assert!(TWO.is_valid());
    assert!(!INVALID1.is_valid());
    assert!(!INVALID2.is_valid());
}

#[test]
fn test_from_index() {
    assert_eq!(TwoPlayers::from_index(0), Some(ONE));
    assert_eq!(TwoPlayers::from_index(1), Some(TWO));
    assert_eq!(TwoPlayers::from_index(2), None);
    assert_eq!(TwoPlayers::from_index(3), None);
}

#[test]
fn test_as_index() {
    assert_eq!(ONE.as_index(), 0);
    assert_eq!(TWO.as_index(), 1);
}

#[test]
fn test_next_player() {
    assert_eq!(ONE.next_player(), TWO);
    assert_eq!(ONE.opponent(), TWO);
    assert_eq!(TWO.next_player(), ONE);
    assert_eq!(TWO.opponent(), ONE);
}

#[test]
fn test_name() {
    assert_eq!(&ONE.name_upper(), "Player 1");
    assert_eq!(&ONE.name_lower(), "player 1");
    assert_eq!(&TWO.name_upper(), "Player 2");
    assert_eq!(&TWO.name_lower(), "player 2");
}

#[test]
fn test_to_from_bool() {
    assert_eq!(ONE.as_bool(), false);
    assert_eq!(TwoPlayers::from_bool(false), ONE);
    assert_eq!(TWO.as_bool(), true);
    assert_eq!(TwoPlayers::from_bool(true), TWO);
}

#[test]
fn from_index_fails_at_and_above_count() {
    assert_eq!(Player::<3>::from_index(2), Some(Player(2)));
    assert_eq!(Player::<3>::from_index(3), None);
    assert_eq!(Player::<3>::from_index(4), None);
    assert_eq!(Player::<3>::from_index(usize::MAX), None);
    assert_eq!(Player::<1>::from_index(1), None);
}

#[test]
fn next_player_n_times_returns_to_start() {
    for start in 0..5usize {
        let p = Player::<5>::from_index(start).unwrap();
        let mut q = p;
        for _ in 0..5 {
            q = q.next_player();
        }
        assert_eq!(q, p);
    }
    let mut q = TWO;
    q = q.next_player();
    assert_eq!(q, ONE);
    q = q.next_player();
    assert_eq!(q, TWO);
}

#[test]
fn next_player_wraps_round() {
    assert_eq!(Player::<3>(2).next_player(), Player(0));
    assert_eq!(Player::<3>(0).next_player(), Player(1));
}

#[test]
fn prev_player_wraps_round() {
    assert_eq!(Player::<3>(0).prev_player(), Player(2));
    assert_eq!(Player::<3>(2).prev_player(), Player(1));
    assert_eq!(ONE.prev_player(), TWO);
}

#[test]
fn names_with_two_digits() {
    assert_eq!(&Player::<12>(9).name_upper(), "Player 10");
    assert_eq!(&Player::<12>(11).name_lower(), "player 12");
}

#[test]
fn parse_player_numbers() {
    assert_eq!(TwoPlayers::parse("2").unwrap(), TWO);
    assert_eq!(TwoPlayers::parse("+1").unwrap(), ONE);
    assert!(matches!(TwoPlayers::parse("0"), Err(ParsePlayerErr::IndexZero)));
    assert!(matches!(TwoPlayers::parse("3"), Err(ParsePlayerErr::IndexTooLarge(3))));
    assert!(matches!(TwoPlayers::parse("x"), Err(ParsePlayerErr::NotUsize(_))));
    assert!(matches!(TwoPlayers::parse("-1"), Err(ParsePlayerErr::NotUsize(_))));
    assert_eq!("1".parse::<TwoPlayers>().unwrap(), ONE);
}

#[test]
fn player_prompts() {
    assert_eq!(TwoPlayers::query(), "Choose a player between 1 and 2: ");
    assert_eq!(TwoPlayers::from_str_help("2"), Ok(TWO));
    assert_eq!(TwoPlayers::from_str_help("5"), Err("Not between 1 and 2.".to_string()));
    assert_eq!(TwoPlayers::from_str_help("two"), Err("Not an integer.".to_string()));
    assert_eq!(TwoPlayers::help(), None);
    assert_eq!(TwoPlayers::requery(), "Try again: ");
}

#[test]
fn player_error_messages() {
    assert_eq!(ParsePlayerErr::IndexZero.message(), "player number must be > 0");
    assert_eq!(ParsePlayerErr::IndexTooLarge(17).message(), "player number too large: 17");
    let err = TwoPlayers::parse("x").unwrap_err();
    let text = err.message();
    assert!(text.starts_with("invalid integer ("));
    assert!(text.ends_with(')'));
    assert!(text.len() > "invalid integer ()".len());
}
