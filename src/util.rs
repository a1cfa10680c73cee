//! Reading integers and lists of integers from text.

use vstd::prelude::*;

verus! {

#[verifier::external_type_specification]
#[verifier::external_body]
pub struct ExParseIntError(core::num::ParseIntError);

/// An ASCII decimal digit.
pub open spec fn is_digit(c: char) -> bool {
    '0' <= c && c <= '9'
}

/// The value of a decimal digit.
pub open spec fn digit_value(c: char) -> nat {
    (c as u32 - '0' as u32) as nat
}

/// The value of a string of decimal digits, most significant first.
pub open spec fn digits_value(s: Seq<char>) -> nat
    decreases s.len(),
{
    if s.len() == 0 {
        0
    } else {
        digits_value(s.drop_last()) * 10 + digit_value(s.last())
    }
}

/// One or more decimal digits and nothing else.
pub open spec fn all_digits(s: Seq<char>) -> bool {
    s.len() > 0 && forall|i: int| 0 <= i < s.len() ==> is_digit(#[trigger] s[i])
}

/// `s` without a leading `+`.
pub open spec fn without_plus(s: Seq<char>) -> Seq<char> {
    if s.len() > 0 && s[0] == '+' {
        s.drop_first()
    } else {
        s
    }
}

/// The `usize` that `s` writes: an optional `+`, then decimal digits, with
/// a value in range.
pub open spec fn usize_text_value(s: Seq<char>) -> Option<usize> {
    let body = without_plus(s);
    if all_digits(body) && digits_value(body) <= usize::MAX {
        Some(digits_value(body) as usize)
    } else {
        None
    }
}

/// The `isize` that `s` writes: an optional `+` or `-`, then decimal
/// digits, with a value in range.
pub open spec fn isize_text_value(s: Seq<char>) -> Option<isize> {
    if s.len() > 0 && s[0] == '-' {
        let body = s.drop_first();
        if all_digits(body) && digits_value(body) <= isize::MAX + 1 {
            Some((-digits_value(body)) as isize)
        } else {
            None
        }
    } else {
        let body = without_plus(s);
        if all_digits(body) && digits_value(body) <= isize::MAX {
            Some(digits_value(body) as isize)
        } else {
            None
        }
    }
}

/// Relies on `str::parse::<usize>`: an optional `+` followed by one or
/// more ASCII digits whose value fits is read; anything else is an error.
#[verifier::external_body]
pub(crate) fn parse_usize(s: &str) -> (r: Result<usize, core::num::ParseIntError>)
    ensures
        r is Ok <==> usize_text_value(s@) is Some,
        r is Ok ==> usize_text_value(s@) == Some(r->Ok_0),
{
    s.parse::<usize>()
}

/// Relies on `str::parse::<isize>`: an optional `+` or `-` followed by one
/// or more ASCII digits whose value fits is read; anything else is an error.
#[verifier::external_body]
pub(crate) fn parse_isize(s: &str) -> (r: Result<isize, core::num::ParseIntError>)
    ensures
        r is Ok <==> isize_text_value(s@) is Some,
        r is Ok ==> isize_text_value(s@) == Some(r->Ok_0),
{
    s.parse::<isize>()
}

/// An integer type that can be read from decimal text.
pub trait DecimalText: Sized {
    /// The value that the text writes, if any.
    spec fn text_value(s: Seq<char>) -> Option<Self>;

    /// Read a value from decimal text.
    fn from_text(s: &str) -> (r: Option<Self>)
        ensures
            r == Self::text_value(s@),
    ;
}

impl DecimalText for usize {
    open spec fn text_value(s: Seq<char>) -> Option<usize> {
        usize_text_value(s)
    }

    fn from_text(s: &str) -> (r: Option<usize>) {
        match parse_usize(s) {
            Ok(v) => Some(v),
            Err(_) => None,
        }
    }
}

impl DecimalText for isize {
    open spec fn text_value(s: Seq<char>) -> Option<isize> {
        isize_text_value(s)
    }

    fn from_text(s: &str) -> (r: Option<isize>) {
        match parse_isize(s) {
            Ok(v) => Some(v),
            Err(_) => None,
        }
    }
}

/// A character that is trimmed from the ends of a list: parentheses, and
/// commas when `commas` holds.
pub open spec fn is_trimmed(c: char, commas: bool) -> bool {
    c == '(' || c == ')' || (commas && c == ',')
}

/// `s` without the trimmed characters at its front.
pub open spec fn trim_front(s: Seq<char>, commas: bool) -> Seq<char>
    decreases s.len(),
{
    if s.len() > 0 && is_trimmed(s[0], commas) {
        trim_front(s.drop_first(), commas)
    } else {
        s
    }
}

/// `s` without the trimmed characters at its back.
pub open spec fn trim_back(s: Seq<char>, commas: bool) -> Seq<char>
    decreases s.len(),
{
    if s.len() > 0 && is_trimmed(s.last(), commas) {
        trim_back(s.drop_last(), commas)
    } else {
        s
    }
}

/// `s` without the trimmed characters at either end.
pub open spec fn trimmed(s: Seq<char>, commas: bool) -> Seq<char> {
    trim_back(trim_front(s, commas), commas)
}

/// The pieces of `s` between occurrences of `sep`, in order; there is
/// always at least one, possibly empty.
pub open spec fn split_on(s: Seq<char>, sep: char) -> Seq<Seq<char>>
    decreases s.len(),
{
    if s.len() == 0 {
        seq![Seq::empty()]
    } else {
        let prev = split_on(s.drop_last(), sep);
        if s.last() == sep {
            prev.push(Seq::empty())
        } else {
            prev.update(prev.len() - 1, prev.last().push(s.last()))
        }
    }
}

/// The items of a list written like `(3 4)` or `3 4 5`: parentheses and
/// commas are dropped at the two ends only, and the rest is split at each
/// single space. This grammar is deliberately strict: `3, 4` and `3  4`
/// hold an item that is not a number (`3,` or the empty item), so a list
/// written that way is refused rather than guessed at.
pub open spec fn list_items(raw: Seq<char>) -> Seq<Seq<char>> {
    split_on(trimmed(raw, true), ' ')
}

/// The views of a sequence of string slices.
pub open spec fn str_views(parts: Seq<&str>) -> Seq<Seq<char>> {
    parts.map_values(|p: &str| p@)
}

fn trim_char(c: char, commas: bool) -> (r: bool)
    ensures
        r == is_trimmed(c, commas),
{
    c == '(' || c == ')' || (commas && c == ',')
}

/// `s` without parentheses (and, when `commas` holds, commas) at its ends.
pub fn trim_list(s: &str, commas: bool) -> (r: &str)
    ensures
        r@ == trimmed(s@, commas),
{
    let n = s.unicode_len();
    let mut a: usize = 0;
    assert(s@.subrange(0, n as int) =~= s@);
    while a < n && trim_char(s.get_char(a), commas)
        invariant
            n == s@.len(),
            a <= n,
            trim_front(s@, commas) == trim_front(s@.subrange(a as int, n as int), commas),
        decreases n - a,
    {
        assert(s@.subrange(a as int, n as int).drop_first() =~= s@.subrange(
            a as int + 1,
            n as int,
        ));
        a += 1;
    }
    assert(trim_front(s@, commas) == s@.subrange(a as int, n as int));
    let mut b: usize = n;
    while b > a && trim_char(s.get_char(b - 1), commas)
        invariant
            n == s@.len(),
            a <= b <= n,
            trimmed(s@, commas) == trim_back(s@.subrange(a as int, b as int), commas),
        decreases b - a,
    {
        assert(s@.subrange(a as int, b as int).drop_last() =~= s@.subrange(
            a as int,
            b as int - 1,
        ));
        b -= 1;
    }
    s.substring_char(a, b)
}

/// The pieces of `s` between occurrences of `sep`.
pub fn split_str(s: &str, sep: char) -> (r: Vec<&str>)
    ensures
        str_views(r@) == split_on(s@, sep),
{
    let n = s.unicode_len();
    let mut pieces: Vec<&str> = Vec::new();
    let mut start: usize = 0;
    let mut i: usize = 0;
    assert(s@.subrange(0, 0) =~= Seq::<char>::empty());
    assert(str_views(pieces@).push(Seq::<char>::empty()) =~= seq![Seq::<char>::empty()]);
    while i < n
        invariant
            n == s@.len(),
            start <= i <= n,
            split_on(s@.subrange(0, i as int), sep) == str_views(pieces@).push(
                s@.subrange(start as int, i as int),
            ),
        decreases n - i,
    {
        let ghost prefix = s@.subrange(0, i as int);
        assert(s@.subrange(0, i as int + 1).drop_last() =~= prefix);
        let c = s.get_char(i);
        if c == sep {
            let piece = s.substring_char(start, i);
            let ghost before = pieces@;
            pieces.push(piece);
            assert(str_views(pieces@) =~= str_views(before).push(piece@));
            assert(s@.subrange(i as int + 1, i as int + 1) =~= Seq::<char>::empty());
            start = i + 1;
        } else {
            assert(s@.subrange(start as int, i as int + 1) =~= s@.subrange(
                start as int,
                i as int,
            ).push(c));
        }
        i += 1;
    }
    let last = s.substring_char(start, n);
    let ghost before = pieces@;
    pieces.push(last);
    assert(str_views(pieces@) =~= str_views(before).push(last@));
    assert(s@.subrange(0, n as int) =~= s@);
    pieces
}

/// Read a list of integers written like `(3 4)` or `3 4 5`: parentheses
/// and commas at the ends are dropped, the rest is split at each single
/// space (see `list_items`), and every item must be an integer. `None`
/// when one of them is not.
pub fn parse_vec<T: DecimalText>(raw: &str) -> (r: Option<Vec<T>>)
    ensures
        match r {
            Some(v) => {
                &&& v@.len() == list_items(raw@).len()
                &&& forall|i: int|
                    0 <= i < v@.len() ==> T::text_value(#[trigger] list_items(raw@)[i]) == Some(
                        v@[i],
                    )
            },
            None => exists|i: int|
                0 <= i < list_items(raw@).len() && T::text_value(
                    #[trigger] list_items(raw@)[i],
                ) is None,
        },
{
    let body = trim_list(raw, true);
    let items = split_str(body, ' ');
    let mut values: Vec<T> = Vec::new();
    let mut i: usize = 0;
    while i < items.len()
        invariant
            str_views(items@) == list_items(raw@),
            i <= items.len(),
            values@.len() == i,
            forall|j: int|
                0 <= j < i ==> T::text_value(#[trigger] list_items(raw@)[j]) == Some(values@[j]),
        decreases items.len() - i,
    {
        assert(list_items(raw@)[i as int] == items@[i as int]@);
        match T::from_text(items[i]) {
            Some(v) => {
                values.push(v);
            },
            None => {
                return None;
            },
        }
        i += 1;
    }
    Some(values)
}

/// Read a list of non-negative integers; see `parse_vec`.
pub fn parse_vec_usize(raw: &str) -> (r: Option<Vec<usize>>)
    ensures
        match r {
            Some(v) => {
                &&& v@.len() == list_items(raw@).len()
                &&& forall|i: int|
                    0 <= i < v@.len() ==> usize_text_value(#[trigger] list_items(raw@)[i]) == Some(
                        v@[i],
                    )
            },
            None => exists|i: int|
                0 <= i < list_items(raw@).len() && usize_text_value(
                    #[trigger] list_items(raw@)[i],
                ) is None,
        },
{
    parse_vec::<usize>(raw)
}

/// Read a list of integers; see `parse_vec`.
pub fn parse_vec_isize(raw: &str) -> (r: Option<Vec<isize>>)
    ensures
        match r {
            Some(v) => {
                &&& v@.len() == list_items(raw@).len()
                &&& forall|i: int|
                    0 <= i < v@.len() ==> isize_text_value(#[trigger] list_items(raw@)[i]) == Some(
                        v@[i],
                    )
            },
            None => exists|i: int|
                0 <= i < list_items(raw@).len() && isize_text_value(
                    #[trigger] list_items(raw@)[i],
                ) is None,
        },
{
    parse_vec::<isize>(raw)
}

/// A value that a user can type, with messages to ask for it.
pub trait FromStrHelp: Sized {
    /// The first prompt; it ends in `": "` or the like.
    fn query() -> String;

    /// Read the value; on failure, say what went wrong.
    fn from_str_help(s: &str) -> Result<Self, String>;

    /// Longer help to show after a failure, if any.
    fn help() -> Option<String>;

    /// The prompt after a failure.
    fn requery() -> String {
        "Try again: ".to_string()
    }
}

} // verus!
