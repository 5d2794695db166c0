//! Comparing, reading and writing short texts.

use vstd::prelude::*;

verus! {

/// Whether two texts have the same characters.
pub fn same_text(a: &str, b: &str) -> (r: bool)
    ensures
        r == (a@ == b@),
{
    let n: usize = a.unicode_len();
    if n != b.unicode_len() {
        return false;
    }
    let mut i: usize = 0;
    while i < n
        invariant
            i <= n,
            n == a@.len(),
            n == b@.len(),
            forall|j: int| 0 <= j < i ==> a@[j] == b@[j],
        decreases n - i,
    {
        if a.get_char(i) != b.get_char(i) {
            return false;
        }
        i = i + 1;
    }
    assert(a@ =~= b@);
    true
}

/// An ASCII decimal digit.
pub open spec fn is_digit(c: char) -> bool {
    '0' <= c && c <= '9'
}

/// The value of a digit.
pub open spec fn digit_value(c: char) -> int {
    c as int - '0' as int
}

/// Digits and nothing else.
pub open spec fn all_digits(s: Seq<char>) -> bool {
    forall|i: int| 0 <= i < s.len() ==> is_digit(#[trigger] s[i])
}

/// The number that digits stand for, most significant first.
pub open spec fn digits_value(s: Seq<char>) -> int
    decreases s.len(),
{
    if s.len() == 0 {
        0
    } else {
        digits_value(s.drop_last()) * 10 + digit_value(s.last())
    }
}

/// The digits of a number's text: what follows an optional plus sign.
pub open spec fn number_digits(s: Seq<char>) -> Seq<char> {
    if s.len() > 0 && s[0] == '+' {
        s.skip(1)
    } else {
        s
    }
}

/// The unsigned number that a text stands for: an optional plus sign and one or
/// more digits whose value is a `usize`.
pub open spec fn number_of(s: Seq<char>) -> Option<usize> {
    let digits = number_digits(s);
    if digits.len() > 0 && all_digits(digits) && digits_value(digits) <= usize::MAX {
        Some(digits_value(digits) as usize)
    } else {
        None
    }
}

proof fn lemma_digits_bounds(s: Seq<char>, i: int)
    requires
        all_digits(s),
        0 <= i <= s.len(),
    ensures
        0 <= digits_value(s.take(i)) <= digits_value(s),
    decreases s.len(),
{
    if i == s.len() {
        assert(s.take(i) =~= s);
        if s.len() > 0 {
            assert(all_digits(s.drop_last())) by {
                assert forall|j: int| 0 <= j < s.len() - 1 implies is_digit(
                    #[trigger] s.drop_last()[j],
                ) by {
                    assert(is_digit(s[j]));
                }
            }
            lemma_digits_bounds(s.drop_last(), s.len() - 1);
            assert(s.drop_last().take(s.len() - 1) =~= s.drop_last());
            assert(is_digit(s[s.len() - 1]));
        }
    } else {
        assert(all_digits(s.drop_last())) by {
            assert forall|j: int| 0 <= j < s.len() - 1 implies is_digit(
                #[trigger] s.drop_last()[j],
            ) by {
                assert(is_digit(s[j]));
            }
        }
        lemma_digits_bounds(s.drop_last(), i);
        assert(s.drop_last().take(i) =~= s.take(i));
        lemma_digits_bounds(s.drop_last(), s.len() - 1);
        assert(is_digit(s[s.len() - 1]));
    }
}

/// Reads an unsigned number.
pub fn parse_usize(s: &str) -> (r: Option<usize>)
    ensures
        r == number_of(s@),
{
    let n: usize = s.unicode_len();
    let start: usize = if n > 0 && s.get_char(0) == '+' {
        1
    } else {
        0
    };
    let ghost digits = number_digits(s@);
    assert(digits =~= s@.skip(start as int));
    if start == n {
        return None;
    }
    let mut value: usize = 0;
    let mut i: usize = start;
    assert(digits.take(0) =~= Seq::<char>::empty());
    while i < n
        invariant
            start <= i <= n,
            n == s@.len(),
            start <= 1,
            digits == number_digits(s@),
            digits == s@.skip(start as int),
            start < n,
            forall|j: int| start <= j < i ==> is_digit(#[trigger] s@[j]),
            value == digits_value(digits.take(i - start)),
        decreases n - i,
    {
        let c: char = s.get_char(i);
        assert(digits[i - start] == c);
        if c < '0' || c > '9' {
            return None;
        }
        let d: usize = (c as u32 - '0' as u32) as usize;
        proof {
            assert(digits.take(i + 1 - start).drop_last() =~= digits.take(i - start));
            assert(digits.take(i + 1 - start).last() == c);
            if all_digits(digits) {
                lemma_digits_bounds(digits, i + 1 - start);
            }
        }
        match value.checked_mul(10) {
            Some(tens) => match tens.checked_add(d) {
                Some(next) => {
                    value = next;
                },
                None => {
                    return None;
                },
            },
            None => {
                return None;
            },
        }
        i = i + 1;
    }
    proof {
        assert(digits.take(n - start) =~= digits);
        assert forall|j: int| 0 <= j < digits.len() implies is_digit(#[trigger] digits[j]) by {
            assert(digits[j] == s@[j + start]);
        }
    }
    Some(value)
}

/// The character of a digit.
pub open spec fn digit_char(d: int) -> char {
    if d <= 0 {
        '0'
    } else if d == 1 {
        '1'
    } else if d == 2 {
        '2'
    } else if d == 3 {
        '3'
    } else if d == 4 {
        '4'
    } else if d == 5 {
        '5'
    } else if d == 6 {
        '6'
    } else if d == 7 {
        '7'
    } else if d == 8 {
        '8'
    } else {
        '9'
    }
}

/// The decimal text of a number, without leading zeros.
pub open spec fn decimal_of(n: nat) -> Seq<char>
    decreases n,
{
    if n < 10 {
        seq![digit_char(n as int)]
    } else {
        decimal_of(n / 10).push(digit_char((n % 10) as int))
    }
}

fn digit_text(d: usize) -> (r: &'static str)
    requires
        d < 10,
    ensures
        r@ == seq![digit_char(d as int)],
{
    proof {
        reveal_strlit("0");
        reveal_strlit("1");
        reveal_strlit("2");
        reveal_strlit("3");
        reveal_strlit("4");
        reveal_strlit("5");
        reveal_strlit("6");
        reveal_strlit("7");
        reveal_strlit("8");
        reveal_strlit("9");
    }
    let r = if d == 0 {
        "0"
    } else if d == 1 {
        "1"
    } else if d == 2 {
        "2"
    } else if d == 3 {
        "3"
    } else if d == 4 {
        "4"
    } else if d == 5 {
        "5"
    } else if d == 6 {
        "6"
    } else if d == 7 {
        "7"
    } else if d == 8 {
        "8"
    } else {
        "9"
    };
    assert(r@ =~= seq![digit_char(d as int)]);
    r
}

/// Writes a number in decimal.
pub fn decimal(n: usize) -> (r: String)
    ensures
        r@ == decimal_of(n as nat),
    decreases n,
{
    if n < 10 {
        digit_text(n).to_owned()
    } else {
        let mut s: String = decimal(n / 10);
        s.append(digit_text(n % 10));
        assert(s@ =~= decimal_of(n as nat));
        s
    }
}

/// The character of a hexadecimal digit, in lower case.
pub open spec fn hex_char(d: int) -> char {
    if d < 10 {
        digit_char(d)
    } else if d == 10 {
        'a'
    } else if d == 11 {
        'b'
    } else if d == 12 {
        'c'
    } else if d == 13 {
        'd'
    } else if d == 14 {
        'e'
    } else {
        'f'
    }
}

/// The hexadecimal text of a number, without leading zeros.
pub open spec fn hexadecimal_of(n: nat) -> Seq<char>
    decreases n,
{
    if n < 16 {
        seq![hex_char(n as int)]
    } else {
        hexadecimal_of(n / 16).push(hex_char((n % 16) as int))
    }
}

fn hex_text(d: u64) -> (r: &'static str)
    requires
        d < 16,
    ensures
        r@ == seq![hex_char(d as int)],
{
    proof {
        reveal_strlit("a");
        reveal_strlit("b");
        reveal_strlit("c");
        reveal_strlit("d");
        reveal_strlit("e");
        reveal_strlit("f");
    }
    let r = if d < 10 {
        digit_text(d as usize)
    } else if d == 10 {
        "a"
    } else if d == 11 {
        "b"
    } else if d == 12 {
        "c"
    } else if d == 13 {
        "d"
    } else if d == 14 {
        "e"
    } else {
        "f"
    };
    assert(r@ =~= seq![hex_char(d as int)]);
    r
}

/// Writes a number in hexadecimal.
pub fn hexadecimal(n: u64) -> (r: String)
    ensures
        r@ == hexadecimal_of(n as nat),
    decreases n,
{
    if n < 16 {
        hex_text(n).to_owned()
    } else {
        let mut s: String = hexadecimal(n / 16);
        s.append(hex_text(n % 16));
        assert(s@ =~= hexadecimal_of(n as nat));
        s
    }
}

/// Sixteen bits as four hexadecimal digits.
pub open spec fn hex_pattern_of(v: u16) -> Seq<char> {
    seq![
        hex_char(v as int / 4096),
        hex_char(v as int / 256 % 16),
        hex_char(v as int / 16 % 16),
        hex_char(v as int % 16),
    ]
}

/// Writes sixteen bits as four hexadecimal digits.
pub fn hex_pattern(v: u16) -> (r: String)
    ensures
        r@ == hex_pattern_of(v),
{
    let mut r: String = hex_text((v / 4096) as u64).to_owned();
    r.append(hex_text((v / 256 % 16) as u64));
    r.append(hex_text((v / 16 % 16) as u64));
    r.append(hex_text((v % 16) as u64));
    assert(r@ =~= hex_pattern_of(v));
    r
}

/// Reading what was written gives the number back.
pub proof fn law_number_text_round_trip(n: usize)
    ensures
        number_of(decimal_of(n as nat)) == Some(n),
{
    lemma_decimal(n as nat);
    let s = decimal_of(n as nat);
    assert(is_digit(s[0]));
    assert(number_digits(s) == s);
}

proof fn lemma_decimal(n: nat)
    ensures
        decimal_of(n).len() > 0,
        all_digits(decimal_of(n)),
        digits_value(decimal_of(n)) == n,
    decreases n,
{
    let s = decimal_of(n);
    if n < 10 {
        assert(s.drop_last() =~= Seq::<char>::empty());
        assert(digits_value(s.drop_last()) == 0);
        assert(s.last() == digit_char(n as int));
    } else {
        lemma_decimal(n / 10);
        assert(s.drop_last() =~= decimal_of(n / 10));
        assert(s.last() == digit_char((n % 10) as int));
        assert forall|i: int| 0 <= i < s.len() implies is_digit(#[trigger] s[i]) by {
            if i < s.len() - 1 {
                assert(is_digit(decimal_of(n / 10)[i]));
            }
        }
    }
}

/// The characters of digits follow each other from `0` on, and those of the digits
/// from ten on from `a` on.
pub proof fn law_digits_follow_each_other(d: int, c: char)
    ensures
        0 <= d <= 9 ==> digit_char(d) as int == 48 + d,
        0 <= d <= 9 ==> hex_char(d) as int == 48 + d,
        10 <= d <= 15 ==> hex_char(d) as int == 87 + d,
        is_digit(c) <==> 48 <= c as int <= 57,
        digit_value(c) == c as int - 48,
        0 <= d <= 9 ==> digit_value(digit_char(d)) == d,
{
}

/// Digits that are written behind others move these up by one place each.
pub proof fn law_digits_weigh_ten_times_more_one_by_one(s: Seq<char>, t: Seq<char>, c: char)
    ensures
        digits_value(s.push(c)) == 10 * digits_value(s) + (c as int - 48),
        digits_value(seq![c]) == c as int - 48,
        digits_value(seq!['0'] + t) == digits_value(t),
    decreases t.len(),
{
    reveal_with_fuel(digits_value, 2);
    assert(s.push(c).drop_last() =~= s);
    assert(seq![c].drop_last() =~= Seq::<char>::empty());
    let longer = seq!['0'] + t;
    if t.len() == 0 {
        assert(longer =~= seq!['0']);
        assert(seq!['0'].drop_last() =~= Seq::<char>::empty());
    } else {
        law_digits_weigh_ten_times_more_one_by_one(s, t.drop_last(), c);
        assert(longer.drop_last() =~= seq!['0'] + t.drop_last());
    }
}

/// A text is a number where it is digits only, after one plus sign at most, and not
/// beyond what can be counted. An empty text and a lone sign are none.
pub proof fn law_numbers_are_digits(s: Seq<char>, i: int)
    ensures
        number_of(s) is Some && 0 <= i < s.len() ==> is_digit(s[i]) || (i == 0 && s[0] == '+'
            && s.len() > 1),
        number_of(Seq::<char>::empty()) is None,
        number_of(seq!['+']) is None,
        s.len() > 0 && s[0] != '+' ==> number_of(seq!['+'] + s) == number_of(s),
        s.len() > 0 && all_digits(s) ==> (number_of(s) is Some <==> digits_value(s)
            <= usize::MAX),
        s.len() > 0 && all_digits(s) && number_of(s) is Some ==> number_of(s)->0
            == digits_value(s),
{
    if number_of(s) is Some && 0 <= i < s.len() {
        let digits = number_digits(s);
        if s[0] == '+' {
            if i > 0 {
                assert(digits[i - 1] == s[i]);
            }
        }
    }
    assert(seq!['+'].skip(1).len() == 0);
    if s.len() > 0 && s[0] != '+' {
        assert((seq!['+'] + s).skip(1) =~= s);
    }
    if s.len() > 0 && all_digits(s) {
        assert(is_digit(s[0]));
        assert(!is_digit('+'));
        lemma_digits_bounds(s, 0);
    }
}

/// Numbers are written without leading zeros, and one more digit makes the number
/// ten times as large, or sixteen times in hexadecimal.
pub proof fn law_written_numbers_grow_by_their_last_digit(n: nat, d: nat)
    ensures
        d < 10 ==> decimal_of(d) == seq![digit_char(d as int)],
        n > 0 && d < 10 ==> decimal_of(10 * n + d) == decimal_of(n).push(digit_char(d as int)),
        d < 16 ==> hexadecimal_of(d) == seq![hex_char(d as int)],
        n > 0 && d < 16 ==> hexadecimal_of(16 * n + d) == hexadecimal_of(n).push(
            hex_char(d as int),
        ),
{
    if d < 10 {
        assert((10 * n + d) / 10 == n && (10 * n + d) % 10 == d);
    }
    if d < 16 {
        assert((16 * n + d) / 16 == n && (16 * n + d) % 16 == d);
    }
}

/// A pattern is its number in hexadecimal, with zeros in front up to four digits.
pub proof fn law_patterns_are_four_digits(v: u16)
    ensures
        hex_pattern_of(v).len() == 4,
        v >= 4096 ==> hex_pattern_of(v) == hexadecimal_of(v as nat),
        256 <= v < 4096 ==> hex_pattern_of(v) == seq!['0'] + hexadecimal_of(v as nat),
        16 <= v < 256 ==> hex_pattern_of(v) == seq!['0', '0'] + hexadecimal_of(v as nat),
        v < 16 ==> hex_pattern_of(v) == seq!['0', '0', '0'] + hexadecimal_of(v as nat),
{
    reveal_with_fuel(hexadecimal_of, 4);
    let n = v as nat;
    let (a, b, c) = (n / 16, n / 256, n / 4096);
    assert(a / 16 == b && b / 16 == c && c / 16 == 0);
    let one = hexadecimal_of(n);
    if v >= 4096 {
        assert(hexadecimal_of(c) == seq![hex_char(c as int)]);
        assert(hexadecimal_of(b) == hexadecimal_of(c).push(hex_char((b % 16) as int)));
        assert(hexadecimal_of(a) == hexadecimal_of(b).push(hex_char((a % 16) as int)));
        assert(hex_pattern_of(v) =~= one);
    } else if v >= 256 {
        assert(hexadecimal_of(b) == seq![hex_char(b as int)]);
        assert(hexadecimal_of(a) == hexadecimal_of(b).push(hex_char((a % 16) as int)));
        assert(hex_pattern_of(v) =~= seq!['0'] + one);
    } else if v >= 16 {
        assert(hexadecimal_of(a) == seq![hex_char(a as int)]);
        assert(hex_pattern_of(v) =~= seq!['0', '0'] + one);
    } else {
        assert(hex_pattern_of(v) =~= seq!['0', '0', '0'] + one);
    }
}

} // verus!
