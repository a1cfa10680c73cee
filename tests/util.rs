use games::text::decimal_string;
use games::util::{parse_vec, parse_vec_isize, parse_vec_usize, split_str, trim_list};

#[test]
fn integer_lists() {
    assert_eq!(parse_vec_usize("3 4 5"), Some(vec![3, 4, 5]));
    assert_eq!(parse_vec_usize("(3 4)"), Some(vec![3, 4]));
    assert_eq!(parse_vec_usize("3,"), Some(vec![3]));
    assert_eq!(parse_vec_usize("3 -4"), None);
    assert_eq!(parse_vec_usize("3  4"), None);
    assert_eq!(parse_vec_usize(""), None);
    assert_eq!(parse_vec_usize("+7"), Some(vec![7]));
    assert_eq!(parse_vec_isize("(-1 0 +2)"), Some(vec![-1, 0, 2]));
    assert_eq!(parse_vec_isize("1, 2"), None);
    assert_eq!(parse_vec::<isize>("-9223372036854775808"), Some(vec![isize::MIN]));
    assert_eq!(parse_vec::<usize>("18446744073709551616"), None);
}

#[test]
fn trimming_and_splitting() {
    assert_eq!(trim_list("((1 2),)", true), "1 2");
    assert_eq!(trim_list("((1 2),)", false), "1 2),");
    assert_eq!(trim_list("()", true), "");
    assert_eq!(split_str("a,,b", ','), vec!["a", "", "b"]);
    assert_eq!(split_str("", ','), vec![""]);
}

#[test]
fn decimal_texts() {
    assert_eq!(decimal_string(0), "0");
    assert_eq!(decimal_string(907), "907");
    assert_eq!(decimal_string(usize::MAX), usize::MAX.to_string());
}
