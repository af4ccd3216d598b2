//! The numbers in a line of text: what stands between white space is a token,
//! and a token counts where it is a decimal number of 32 bits with or
//! without a sign.
use vstd::prelude::*;

verus! {

/// Whether `c` is white space, as Unicode defines it.
pub open spec fn is_space(c: char) -> bool {
    let u = c as u32;
    ||| 0x09 <= u <= 0x0D
    ||| u == 0x20
    ||| u == 0x85
    ||| u == 0xA0
    ||| u == 0x1680
    ||| 0x2000 <= u <= 0x200A
    ||| u == 0x2028
    ||| u == 0x2029
    ||| u == 0x202F
    ||| u == 0x205F
    ||| u == 0x3000
}

/// Whether `c` is white space.
pub fn space(c: char) -> (b: bool)
    ensures
        b == is_space(c),
{
    let u = c as u32;
    (0x09 <= u && u <= 0x0D) || u == 0x20 || u == 0x85 || u == 0xA0 || u == 0x1680 || (0x2000 <= u && u <= 0x200A)
        || u == 0x2028 || u == 0x2029 || u == 0x202F || u == 0x205F || u == 0x3000
}

/// Whether `c` is one of the digits from `0` to `9`.
pub open spec fn is_digit(c: char) -> bool {
    0x30 <= c as u32 <= 0x39
}

/// Whether the text holds digits only.
pub open spec fn all_digits(s: Seq<char>) -> bool {
    forall|i: int| 0 <= i < s.len() ==> is_digit(#[trigger] s[i])
}

/// The number that a text of digits writes in base ten.
pub open spec fn decimal(s: Seq<char>) -> int
    decreases s.len(),
{
    if s.len() == 0 {
        0
    } else {
        10 * decimal(s.drop_last()) + (s.last() as u32 - 0x30)
    }
}

/// The number that a token writes: a `+` or a `-` or nothing, then one
/// digit or more, and a value that 32 bits hold. Any other token writes
/// none.
pub open spec fn number_of(token: Seq<char>) -> Option<i32> {
    let negative = token.len() > 0 && token[0] == '-';
    let signed = token.len() > 0 && (token[0] == '-' || token[0] == '+');
    let digits = if signed {
        token.skip(1)
    } else {
        token
    };
    let value = if negative {
        -decimal(digits)
    } else {
        decimal(digits)
    };
    if digits.len() > 0 && all_digits(digits) && i32::MIN <= value <= i32::MAX {
        Some(value as i32)
    } else {
        None
    }
}

/// What a token adds to the numbers of a line: its number, where it writes
/// one.
pub open spec fn emitted(token: Seq<char>) -> Seq<i32> {
    match number_of(token) {
        Some(value) => seq![value],
        None => Seq::empty(),
    }
}

/// The numbers of the text `s`, where `token` holds the characters since
/// the last white space before `s`.
pub open spec fn scan(s: Seq<char>, token: Seq<char>) -> Seq<i32>
    decreases s.len(),
{
    if s.len() == 0 {
        emitted(token)
    } else if is_space(s[0]) {
        emitted(token) + scan(s.drop_first(), Seq::empty())
    } else {
        scan(s.drop_first(), token.push(s[0]))
    }
}

/// The numbers of a line, in their order.
pub open spec fn numbers_of(line: Seq<char>) -> Seq<i32> {
    scan(line, Seq::empty())
}

/// More digits do not make a number smaller.
proof fn lemma_decimal_grows(s: Seq<char>, k: int)
    requires
        all_digits(s),
        0 <= k <= s.len(),
    ensures
        0 <= decimal(s.take(k)) <= decimal(s),
    decreases s.len() - k,
{
    if k < s.len() {
        lemma_decimal_grows(s, k + 1);
        assert(s.take(k + 1).drop_last() =~= s.take(k));
        assert(is_digit(s[k]));
        assert(s.take(k + 1).last() == s[k]);
        lemma_decimal_nonnegative(s.take(k));
    } else {
        assert(s.take(k) =~= s);
        lemma_decimal_nonnegative(s);
    }
}

/// A text of digits writes no negative number.
proof fn lemma_decimal_nonnegative(s: Seq<char>)
    requires
        all_digits(s),
    ensures
        0 <= decimal(s),
    decreases s.len(),
{
    if s.len() > 0 {
        lemma_decimal_nonnegative(s.drop_last());
        assert(is_digit(s[s.len() - 1]));
    }
}

/// The number that the token writes, if it writes one.
pub fn parse_number(token: &Vec<char>) -> (number: Option<i32>)
    ensures
        number == number_of(token@),
{
    let n = token.len();
    if n == 0 {
        return None;
    }
    let negative = token[0] == '-';
    let start: usize = if negative || token[0] == '+' {
        1
    } else {
        0
    };
    if start == n {
        return None;
    }
    let ghost digits = token@.skip(start as int);
    proof {
        assert(token@.skip(0) =~= token@);
    }
    let mut value: i64 = 0;
    let mut i: usize = start;
    while i < n
        invariant
            0 < n == token@.len(),
            negative == (token@[0] == '-'),
            start == (if token@[0] == '-' || token@[0] == '+' {
                1int
            } else {
                0int
            }),
            start <= i <= n,
            digits == token@.skip(start as int),
            token@.skip(0) == token@,
            all_digits(digits.take(i - start)),
            value == decimal(digits.take(i - start)),
            0 <= value <= 0x8000_0000,
        decreases n - i,
    {
        let u = token[i] as u32;
        if u < 0x30 || u > 0x39 {
            assert(!is_digit(digits[i - start]));
            return None;
        }
        let next = value * 10 + (u - 0x30) as i64;
        proof {
            assert(digits.take(i - start + 1).drop_last() =~= digits.take(i - start));
            assert(digits.take(i - start + 1).last() == token@[i as int]);
            assert(next == decimal(digits.take(i - start + 1)));
            assert forall|j: int| 0 <= j < i - start + 1 implies is_digit(
                #[trigger] digits.take(i - start + 1)[j],
            ) by {
                if j < i - start {
                    assert(digits.take(i - start)[j] == digits.take(i - start + 1)[j]);
                }
            }
        }
        if next > 0x8000_0000 {
            proof {
                if all_digits(digits) {
                    lemma_decimal_grows(digits, i - start + 1);
                }
            }
            return None;
        }
        value = next;
        i += 1;
    }
    proof {
        assert(digits.take(n - start) =~= digits);
    }
    if negative {
        Some((-value) as i32)
    } else if value == 0x8000_0000 {
        None
    } else {
        Some(value as i32)
    }
}

/// The numbers of a line, in their order.
pub fn numbers_in(line: &str) -> (numbers: Vec<i32>)
    ensures
        numbers@ == numbers_of(line@),
{
    let mut numbers: Vec<i32> = Vec::new();
    let mut token: Vec<char> = Vec::new();
    proof {
        assert(line@.skip(0) =~= line@);
    }
    for c in it: line.chars()
        invariant
            it.seq() == line@,
            numbers_of(line@) == numbers@ + scan(line@.skip(it.index() as int), token@),
    {
        let ghost rest = line@.skip(it.index() as int);
        proof {
            assert(rest.len() > 0 && rest[0] == c);
            assert(rest.drop_first() =~= line@.skip(it.index() + 1));
        }
        if space(c) {
            let ghost before = numbers@;
            match parse_number(&token) {
                Some(value) => {
                    numbers.push(value);
                },
                None => {},
            }
            proof {
                assert(numbers@ =~= before + emitted(token@));
                assert(before + (emitted(token@) + scan(rest.drop_first(), Seq::empty())) =~= numbers@ + scan(
                    rest.drop_first(),
                    Seq::empty(),
                ));
            }
            token = Vec::new();
        } else {
            token.push(c);
        }
    }
    let ghost before = numbers@;
    match parse_number(&token) {
        Some(value) => {
            numbers.push(value);
        },
        None => {},
    }
    proof {
        assert(line@.skip(line@.len() as int).len() == 0);
        assert(numbers@ =~= before + emitted(token@));
    }
    numbers
}

} // verus!
