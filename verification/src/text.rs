//! Text helpers: decimal numbers and the comparison and growth of strings.

use vstd::prelude::*;
use vstd::string::*;

verus! {

/// The character that stands for the digit `d`.
pub open spec fn digit_char(d: int) -> char {
    if d == 0 {
        '0'
    } else if d == 1 {
        '1'
    } else if d == 2 {
        '2'
    } else if d == 3 {
        '3'
    } else if d == 4 {
        '4'
    } else if d == 5 {
        '5'
    } else if d == 6 {
        '6'
    } else if d == 7 {
        '7'
    } else if d == 8 {
        '8'
    } else {
        '9'
    }
}

/// Whether `c` is one of the ten decimal digits.
pub open spec fn is_digit(c: char) -> bool {
    exists|d: int| 0 <= d < 10 && c == #[trigger] digit_char(d)
}

/// The value of the digit `c` (0 for any other character).
pub open spec fn digit_value(c: char) -> int {
    if c == '1' {
        1
    } else if c == '2' {
        2
    } else if c == '3' {
        3
    } else if c == '4' {
        4
    } else if c == '5' {
        5
    } else if c == '6' {
        6
    } else if c == '7' {
        7
    } else if c == '8' {
        8
    } else if c == '9' {
        9
    } else {
        0
    }
}

/// The decimal notation of `n`: no sign, no leading zero, `"0"` for zero.
pub open spec fn decimal_digits(n: nat) -> Seq<char>
    decreases n,
{
    if n < 10 {
        seq![digit_char(n as int)]
    } else {
        decimal_digits(n / 10).push(digit_char((n % 10) as int))
    }
}

/// The number that a sequence of digits denotes, read from the left.
pub open spec fn digits_value(s: Seq<char>) -> nat
    decreases s.len(),
{
    if s.len() == 0 {
        0
    } else {
        (digits_value(s.drop_last()) * 10 + digit_value(s.last())) as nat
    }
}

/// Whether `s` is the decimal notation of some number: digits only, at least
/// one, and no leading zero unless it is `"0"` itself.
pub open spec fn is_canonical_decimal(s: Seq<char>) -> bool {
    &&& s.len() > 0
    &&& forall|i: int| 0 <= i < s.len() ==> is_digit(#[trigger] s[i])
    &&& (s.len() > 1 ==> s[0] != '0')
}

/// Every digit character has its own value, and the value names it.
pub proof fn lemma_digit_round_trip(d: int)
    requires
        0 <= d < 10,
    ensures
        digit_value(digit_char(d)) == d,
        is_digit(digit_char(d)),
{
}

/// A digit is named by its value.
pub proof fn lemma_digit_of_value(c: char)
    requires
        is_digit(c),
    ensures
        0 <= digit_value(c) < 10,
        digit_char(digit_value(c)) == c,
{
    let d = choose|d: int| 0 <= d < 10 && c == #[trigger] digit_char(d);
    lemma_digit_round_trip(d);
}

/// The notation of a number is canonical and denotes that number.
pub proof fn lemma_decimal_round_trip(n: nat)
    ensures
        is_canonical_decimal(decimal_digits(n)),
        digits_value(decimal_digits(n)) == n,
        n > 0 ==> decimal_digits(n)[0] != '0',
    decreases n,
{
    let s = decimal_digits(n);
    if n < 10 {
        lemma_digit_round_trip(n as int);
        assert(s.drop_last() =~= Seq::<char>::empty());
        assert(digits_value(s.drop_last()) == 0);
        assert(s.last() == digit_char(n as int));
    } else {
        let q = n / 10;
        let r = (n % 10) as int;
        lemma_decimal_round_trip(q);
        lemma_digit_round_trip(r);
        let front = decimal_digits(q);
        assert(s == front.push(digit_char(r)));
        assert(s.drop_last() =~= front);
        assert(s.last() == digit_char(r));
        assert(s[0] == front[0]);
        assert forall|i: int| 0 <= i < s.len() implies is_digit(#[trigger] s[i]) by {
            if i < front.len() {
                assert(s[i] == front[i]);
            }
        }
    }
}

/// A canonical notation is the notation of the number it denotes, so no two
/// canonical notations denote the same number.
pub proof fn lemma_canonical_is_decimal(s: Seq<char>)
    requires
        is_canonical_decimal(s),
    ensures
        decimal_digits(digits_value(s)) == s,
        s[0] != '0' ==> digits_value(s) > 0,
    decreases s.len(),
{
    lemma_digit_of_value(s.last());
    if s.len() == 1 {
        assert(s.drop_last() =~= Seq::<char>::empty());
        assert(digits_value(s.drop_last()) == 0);
        assert(digits_value(s) == digit_value(s.last()));
        assert(s =~= seq![s.last()]);
    } else {
        let front = s.drop_last();
        assert(front[0] == s[0]);
        assert forall|i: int| 0 <= i < front.len() implies is_digit(#[trigger] front[i]) by {
            assert(front[i] == s[i]);
        }
        if front.len() > 1 {
            assert(is_canonical_decimal(front));
        } else {
            assert(front[0] != '0');
            assert(is_canonical_decimal(front));
        }
        lemma_canonical_is_decimal(front);
        let q = digits_value(front);
        let d = digit_value(s.last());
        assert(q > 0);
        let n = digits_value(s);
        assert(n == q * 10 + d);
        assert(n >= 10);
        assert(n / 10 == q && n % 10 == d) by (nonlinear_arith)
            requires
                n == q * 10 + d,
                0 <= d < 10,
        ;
        assert(decimal_digits(n) == decimal_digits(q).push(digit_char(d)));
        assert(s =~= front.push(s.last()));
    }
}

/// The characters of a string that may be absent.
pub open spec fn text_of(o: Option<String>) -> Option<Seq<char>> {
    match o {
        Some(s) => Some(s@),
        None => None,
    }
}

/// Appends one character to a string, as `String::push` does.
#[verifier::external_body]
pub(crate) fn push_char(s: &mut String, c: char)
    ensures
        final(s)@ == old(s)@.push(c),
{
    s.push(c);
}

/// Compares two string slices character by character, as `==` on `str` does.
#[verifier::external_body]
pub(crate) fn str_eq(a: &str, b: &str) -> (same: bool)
    ensures
        same == (a@ == b@),
{
    a == b
}

fn digit_of(d: u64) -> (c: char)
    requires
        d < 10,
    ensures
        c == digit_char(d as int),
{
    if d == 0 {
        '0'
    } else if d == 1 {
        '1'
    } else if d == 2 {
        '2'
    } else if d == 3 {
        '3'
    } else if d == 4 {
        '4'
    } else if d == 5 {
        '5'
    } else if d == 6 {
        '6'
    } else if d == 7 {
        '7'
    } else if d == 8 {
        '8'
    } else {
        '9'
    }
}

fn value_of(c: char) -> (v: Option<u64>)
    ensures
        v is Some <==> is_digit(c),
        v matches Some(d) ==> d == digit_value(c) && d < 10,
{
    let v: Option<u64> = if c == '0' {
        Some(0)
    } else if c == '1' {
        Some(1)
    } else if c == '2' {
        Some(2)
    } else if c == '3' {
        Some(3)
    } else if c == '4' {
        Some(4)
    } else if c == '5' {
        Some(5)
    } else if c == '6' {
        Some(6)
    } else if c == '7' {
        Some(7)
    } else if c == '8' {
        Some(8)
    } else if c == '9' {
        Some(9)
    } else {
        None
    };
    proof {
        if v is Some {
            assert(c == digit_char(v->0 as int));
        } else {
            assert forall|d: int| 0 <= d < 10 implies c != #[trigger] digit_char(d) by {}
        }
    }
    v
}

/// Writes `n` in decimal notation.
pub fn decimal(n: u64) -> (text: String)
    ensures
        text@ == decimal_digits(n as nat),
    decreases n,
{
    if n < 10 {
        let mut text = String::new();
        push_char(&mut text, digit_of(n));
        assert(text@ =~= seq![digit_char(n as int)]);
        text
    } else {
        let mut text = decimal(n / 10);
        push_char(&mut text, digit_of(n % 10));
        text
    }
}

/// Reads a number in decimal notation. Only the notation that `decimal` writes
/// is accepted: digits alone, no leading zero, and a value that fits.
pub fn parse_decimal(text: &str) -> (number: Option<u64>)
    ensures
        number matches Some(n) ==> text@ == decimal_digits(n as nat),
        number is None ==> forall|n: u64| text@ != decimal_digits(n as nat),
{
    let len: usize = text.unicode_len();
    if len == 0 {
        proof {
            assert forall|n: u64| text@ != decimal_digits(n as nat) by {
                lemma_decimal_round_trip(n as nat);
            }
        }
        return None;
    }
    let mut value: u64 = 0;
    let mut i: usize = 0;
    while i < len
        invariant
            len == text@.len(),
            0 <= i <= len,
            value == digits_value(text@.take(i as int)),
            forall|j: int| 0 <= j < i ==> is_digit(#[trigger] text@[j]),
            i > 1 ==> text@[0] != '0',
        decreases len - i,
    {
        let c: char = text.get_char(i);
        let d: u64 = match value_of(c) {
            Some(d) => d,
            None => {
                proof {
                    assert forall|n: u64| text@ != decimal_digits(n as nat) by {
                        lemma_decimal_round_trip(n as nat);
                    }
                }
                return None;
            },
        };
        if i == 1 && value == 0 {
            proof {
                assert(text@.take(1).drop_last() =~= Seq::<char>::empty());
                assert(digits_value(text@.take(1).drop_last()) == 0);
                assert(text@.take(1).last() == text@[0]);
                lemma_digit_of_value(text@[0]);
                assert(text@[0] == '0');
                assert forall|n: u64| text@ != decimal_digits(n as nat) by {
                    lemma_decimal_round_trip(n as nat);
                }
            }
            return None;
        }
        proof {
            if i == 1 {
                assert(text@.take(1).drop_last() =~= Seq::<char>::empty());
                assert(digits_value(text@.take(1).drop_last()) == 0);
                assert(text@.take(1).last() == text@[0]);
                assert(text@[0] != '0');
            }
            let next = text@.take(i as int + 1);
            assert(next.drop_last() =~= text@.take(i as int));
            assert(next.last() == c);
            assert(digits_value(next) == value * 10 + d);
        }
        let grown: Option<u64> = match value.checked_mul(10) {
            Some(tens) => tens.checked_add(d),
            None => None,
        };
        match grown {
            Some(v) => {
                value = v;
            },
            None => {
                proof {
                    lemma_too_long_to_fit(text@, i as int + 1);
                }
                return None;
            },
        }
        i += 1;
    }
    proof {
        assert(text@.take(len as int) =~= text@);
        assert(is_canonical_decimal(text@));
        lemma_canonical_is_decimal(text@);
    }
    Some(value)
}

/// The value of a sequence of digits is at least the value of each of its
/// beginnings.
pub proof fn lemma_digits_value_grows(s: Seq<char>, k: int)
    requires
        0 <= k <= s.len(),
    ensures
        digits_value(s.take(k)) <= digits_value(s),
    decreases s.len(),
{
    if k == s.len() {
        assert(s.take(k) =~= s);
    } else {
        let front = s.drop_last();
        lemma_digits_value_grows(front, k);
        assert(front.take(k) =~= s.take(k));
        assert(digits_value(s) == digits_value(front) * 10 + digit_value(s.last()));
        assert(0 <= digit_value(s.last()));
    }
}

proof fn lemma_too_long_to_fit(s: Seq<char>, k: int)
    requires
        0 <= k <= s.len(),
        digits_value(s.take(k)) > u64::MAX,
    ensures
        forall|n: u64| s != decimal_digits(n as nat),
{
    assert forall|n: u64| s != decimal_digits(n as nat) by {
        if s == decimal_digits(n as nat) {
            lemma_decimal_round_trip(n as nat);
            lemma_digits_value_grows(s, k);
        }
    }
}

} // verus!
