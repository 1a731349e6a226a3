//! Numbers as text, for the descriptions of errors and for storage keys.

use vstd::prelude::*;
use vstd::string::{StrSliceExecFns, StringExecFns};

verus! {

/// The character of a decimal digit.
pub open spec fn digit(d: nat) -> char {
    if d == 0 {
        '0'
    } else if d == 1 {
        '1'
    } else if d == 2 {
        '2'
    } else if d == 3 {
        '3'
    } else if d == 4 {
        '4'
    } else if d == 5 {
        '5'
    } else if d == 6 {
        '6'
    } else if d == 7 {
        '7'
    } else if d == 8 {
        '8'
    } else {
        '9'
    }
}

/// A number in decimal notation, without leading zeros.
pub open spec fn decimal(n: nat) -> Seq<char>
    decreases n,
{
    if n < 10 {
        seq![digit(n)]
    } else {
        decimal(n / 10).push(digit(n % 10))
    }
}

/// The text of one decimal digit.
fn digit_text(d: u64) -> (text: &'static str)
    requires
        d < 10,
    ensures
        text@ == seq![digit(d as nat)],
{
    proof {
        reveal_strlit("0");
        reveal_strlit("1");
        reveal_strlit("2");
        reveal_strlit("3");
        reveal_strlit("4");
        reveal_strlit("5");
        reveal_strlit("6");
        reveal_strlit("7");
        reveal_strlit("8");
        reveal_strlit("9");
    }
    let text = if d == 0 {
        "0"
    } else if d == 1 {
        "1"
    } else if d == 2 {
        "2"
    } else if d == 3 {
        "3"
    } else if d == 4 {
        "4"
    } else if d == 5 {
        "5"
    } else if d == 6 {
        "6"
    } else if d == 7 {
        "7"
    } else if d == 8 {
        "8"
    } else {
        "9"
    };
    assert(text@ =~= seq![digit(d as nat)]);
    text
}

/// Writes a number in decimal notation.
pub fn to_decimal(n: u64) -> (text: String)
    ensures
        text@ == decimal(n as nat),
    decreases n,
{
    if n < 10 {
        String::from_str(digit_text(n))
    } else {
        let mut text = to_decimal(n / 10);
        text.append(digit_text(n % 10));
        assert(text@ =~= decimal(n as nat));
        text
    }
}

/// The characters of a text.
pub fn chars_of(text: &str) -> (chars: Vec<char>)
    ensures
        chars@ == text@,
{
    let mut chars: Vec<char> = Vec::new();
    let length = text.unicode_len();
    let mut at: usize = 0;
    while at < length
        invariant
            length == text@.len(),
            at <= length,
            chars@ == text@.take(at as int),
        decreases length - at,
    {
        chars.push(text.get_char(at));
        at += 1;
        assert(chars@ =~= text@.take(at as int));
    }
    assert(text@.take(length as int) =~= text@);
    chars
}

/// The place of the first `mark` in `text`.
pub open spec fn first_place(text: Seq<char>, mark: char) -> Option<int>
    decreases text.len(),
{
    if text.len() == 0 {
        None
    } else if text[0] == mark {
        Some(0int)
    } else {
        match first_place(text.drop_first(), mark) {
            Some(place) => Some(place + 1),
            None => None,
        }
    }
}

/// The place of the last `mark` in `text`.
pub open spec fn last_place(text: Seq<char>, mark: char) -> Option<int>
    decreases text.len(),
{
    if text.len() == 0 {
        None
    } else if text.last() == mark {
        Some(text.len() - 1)
    } else {
        last_place(text.drop_last(), mark)
    }
}

/// The first place of a mark is a place of the mark with none before it,
/// and there is none where the text does not hold the mark.
pub proof fn lemma_first_place(text: Seq<char>, mark: char)
    ensures
        match first_place(text, mark) {
            Some(place) => 0 <= place < text.len() && text[place] == mark && forall|i: int|
                0 <= i < place ==> text[i] != mark,
            None => forall|i: int| 0 <= i < text.len() ==> text[i] != mark,
        },
    decreases text.len(),
{
    if text.len() != 0 && text[0] != mark {
        let rest = text.drop_first();
        lemma_first_place(rest, mark);
        match first_place(rest, mark) {
            Some(place) => {
                assert forall|i: int| 0 <= i < place + 1 implies text[i] != mark by {
                    if i > 0 {
                        assert(rest[i - 1] == text[i]);
                    }
                }
            },
            None => {
                assert forall|i: int| 0 <= i < text.len() implies text[i] != mark by {
                    if i > 0 {
                        assert(rest[i - 1] == text[i]);
                    }
                }
            },
        }
    }
}

/// The last place of a mark is a place of the mark with none after it, and
/// there is none where the text does not hold the mark.
pub proof fn lemma_last_place(text: Seq<char>, mark: char)
    ensures
        match last_place(text, mark) {
            Some(place) => 0 <= place < text.len() && text[place] == mark && forall|i: int|
                place < i < text.len() ==> text[i] != mark,
            None => forall|i: int| 0 <= i < text.len() ==> text[i] != mark,
        },
    decreases text.len(),
{
    if text.len() != 0 && text.last() != mark {
        let rest = text.drop_last();
        lemma_last_place(rest, mark);
        match last_place(rest, mark) {
            Some(place) => {
                assert forall|i: int| place < i < text.len() implies text[i] != mark by {
                    if i < text.len() - 1 {
                        assert(rest[i] == text[i]);
                    }
                }
            },
            None => {
                assert forall|i: int| 0 <= i < text.len() implies text[i] != mark by {
                    if i < text.len() - 1 {
                        assert(rest[i] == text[i]);
                    }
                }
            },
        }
    }
}

/// A place of a mark with none before it is the first place of the mark.
pub proof fn lemma_is_first_place(text: Seq<char>, mark: char, place: int)
    requires
        0 <= place < text.len(),
        text[place] == mark,
        forall|i: int| 0 <= i < place ==> text[i] != mark,
    ensures
        first_place(text, mark) == Some(place),
{
    lemma_first_place(text, mark);
}

/// A place of a mark with none after it is the last place of the mark.
pub proof fn lemma_is_last_place(text: Seq<char>, mark: char, place: int)
    requires
        0 <= place < text.len(),
        text[place] == mark,
        forall|i: int| place < i < text.len() ==> text[i] != mark,
    ensures
        last_place(text, mark) == Some(place),
{
    lemma_last_place(text, mark);
}

/// Finds the first `mark` among the characters from `from` up to `to`.
pub fn find_first(chars: &Vec<char>, mark: char, from: usize, to: usize) -> (found: Option<usize>)
    requires
        from <= to <= chars@.len(),
    ensures
        match found {
            Some(place) => from <= place < to && first_place(
                chars@.subrange(from as int, to as int),
                mark,
            ) == Some(place - from),
            None => first_place(chars@.subrange(from as int, to as int), mark) is None,
        },
{
    let ghost text = chars@.subrange(from as int, to as int);
    let mut at: usize = from;
    while at < to
        invariant
            from <= at <= to <= chars@.len(),
            text == chars@.subrange(from as int, to as int),
            forall|i: int| 0 <= i < at - from ==> text[i] != mark,
        decreases to - at,
    {
        if chars[at] == mark {
            proof {
                lemma_is_first_place(text, mark, at - from);
            }
            return Some(at);
        }
        at += 1;
    }
    proof {
        lemma_first_place(text, mark);
    }
    None
}

/// Finds the last `mark` among the characters.
pub fn find_last(chars: &Vec<char>, mark: char) -> (found: Option<usize>)
    ensures
        match found {
            Some(place) => place < chars@.len() && last_place(chars@, mark) == Some(place as int),
            None => last_place(chars@, mark) is None,
        },
{
    let mut at: usize = chars.len();
    while at > 0
        invariant
            at <= chars@.len(),
            forall|i: int| at <= i < chars@.len() ==> chars@[i] != mark,
        decreases at,
    {
        at -= 1;
        if chars[at] == mark {
            proof {
                lemma_is_last_place(chars@, mark, at as int);
            }
            return Some(at);
        }
    }
    proof {
        lemma_last_place(chars@, mark);
    }
    None
}

/// The value of a decimal digit.
pub open spec fn digit_value(c: char) -> Option<nat> {
    if '0' <= c <= '9' {
        Some((c as u32 - '0' as u32) as nat)
    } else {
        None
    }
}

/// The value of a text made of decimal digits alone.
pub open spec fn digits_value(text: Seq<char>) -> Option<nat>
    decreases text.len(),
{
    if text.len() == 0 {
        Some(0nat)
    } else {
        match (digits_value(text.drop_last()), digit_value(text.last())) {
            (Some(value), Some(digit)) => Some(10 * value + digit),
            _ => None,
        }
    }
}

/// The number that a text stands for: an optional `+` and then decimal
/// digits, at least one, whose value fits in 64 bits.
pub open spec fn parsed_number(text: Seq<char>) -> Option<u64> {
    let digits = if text.len() > 0 && text[0] == '+' {
        text.drop_first()
    } else {
        text
    };
    number_of_digits(digits)
}

/// The number that decimal digits stand for: there is at least one, and
/// their value fits in 64 bits.
pub open spec fn number_of_digits(digits: Seq<char>) -> Option<u64> {
    if digits.len() == 0 {
        None
    } else {
        match digits_value(digits) {
            Some(value) => if value <= u64::MAX {
                Some(value as u64)
            } else {
                None
            },
            None => None,
        }
    }
}

/// Digits that follow a value never lower it, and what is no number does
/// not become one by more digits.
proof fn lemma_digits_value_grows(text: Seq<char>, upto: int)
    requires
        0 <= upto <= text.len(),
    ensures
        digits_value(text.take(upto)) is None ==> digits_value(text) is None,
        digits_value(text) matches Some(value) ==> digits_value(text.take(upto)) matches Some(
            less,
        ) && less <= value,
    decreases text.len() - upto,
{
    if upto == text.len() {
        assert(text.take(upto) =~= text);
    } else {
        lemma_digits_value_grows(text.drop_last(), upto);
        assert(text.drop_last().take(upto) =~= text.take(upto));
    }
}

/// A number written in decimal is made of digits alone, at least one, and
/// reads as the number.
pub proof fn lemma_decimal_reads_back(n: nat)
    ensures
        decimal(n).len() > 0,
        forall|i: int| 0 <= i < decimal(n).len() ==> '0' <= #[trigger] decimal(n)[i] <= '9',
        digits_value(decimal(n)) == Some(n),
    decreases n,
{
    if n < 10 {
        assert(decimal(n).drop_last() =~= Seq::<char>::empty());
        assert(digits_value(decimal(n).drop_last()) == Some(0nat));
    } else {
        lemma_decimal_reads_back(n / 10);
        assert(decimal(n).drop_last() =~= decimal(n / 10));
        assert(decimal(n).last() == digit(n % 10));
    }
}

/// A number of 64 bits that is written in decimal and parsed again is the
/// same number.
pub proof fn lemma_parse_of_decimal(n: u64)
    ensures
        parsed_number(decimal(n as nat)) == Some(n),
{
    lemma_decimal_reads_back(n as nat);
    assert(decimal(n as nat)[0] != '+');
}

/// Reads the number that the characters from `from` up to `to` stand for.
pub fn parse_number(chars: &Vec<char>, from: usize, to: usize) -> (number: Option<u64>)
    requires
        from <= to <= chars@.len(),
    ensures
        number == parsed_number(chars@.subrange(from as int, to as int)),
{
    let ghost text = chars@.subrange(from as int, to as int);
    let start: usize = if from < to && chars[from] == '+' {
        from + 1
    } else {
        from
    };
    let ghost digits = chars@.subrange(start as int, to as int);
    assert(digits =~= if text.len() > 0 && text[0] == '+' {
        text.drop_first()
    } else {
        text
    });
    if start == to {
        return None;
    }
    let mut value: u64 = 0;
    let mut at: usize = start;
    assert(digits.take(0) =~= Seq::<char>::empty());
    while at < to
        invariant
            start <= at <= to <= chars@.len(),
            start < to,
            digits == chars@.subrange(start as int, to as int),
            parsed_number(chars@.subrange(from as int, to as int)) == number_of_digits(digits),
            digits_value(digits.take(at - start)) == Some(value as nat),
        decreases to - at,
    {
        let c = chars[at];
        let ghost before = digits.take(at - start);
        let ghost after = digits.take(at - start + 1);
        assert(after.drop_last() =~= before);
        assert(after.last() == c);
        proof {
            lemma_digits_value_grows(digits, at - start + 1);
        }
        if c < '0' || c > '9' {
            return None;
        }
        let digit: u64 = (c as u32 - '0' as u32) as u64;
        if value > (u64::MAX - digit) / 10 {
            return None;
        }
        value = value * 10 + digit;
        at += 1;
    }
    assert(digits.take(to - start) =~= digits);
    Some(value)
}

} // verus!
