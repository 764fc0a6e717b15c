//! Decimal text: parsing unsigned integers from digit strings and rendering
//! fixed-width, zero-padded numbers.
use vstd::prelude::*;

verus! {

pub open spec fn is_digit(ch: char) -> bool {
    48 <= ch as int <= 57
}

pub open spec fn digit_val(ch: char) -> int {
    ch as int - 48
}

pub open spec fn all_digits(s: Seq<char>) -> bool {
    forall|i: int| 0 <= i < s.len() ==> is_digit(#[trigger] s[i])
}

/// The number a digit string denotes (most significant digit first).
pub open spec fn digits_val(s: Seq<char>) -> int
    decreases s.len(),
{
    if s.len() == 0 {
        0
    } else {
        digits_val(s.drop_last()) * 10 + digit_val(s.last())
    }
}

/// What parsing a whole string as a `u32` yields: the denoted number when
/// the string is nonempty, all digits, and the number fits.
pub open spec fn parse_u32_spec(s: Seq<char>) -> Option<u32> {
    if s.len() >= 1 && all_digits(s) && digits_val(s) <= u32::MAX {
        Some(digits_val(s) as u32)
    } else {
        None
    }
}

proof fn lemma_digits_val_take_step(s: Seq<char>, i: int)
    requires
        0 <= i < s.len(),
    ensures
        digits_val(s.take(i + 1)) == digits_val(s.take(i)) * 10 + digit_val(s[i]),
{
    assert(s.take(i + 1).drop_last() =~= s.take(i));
    assert(s.take(i + 1).last() == s[i]);
}

proof fn lemma_digits_val_nonneg(s: Seq<char>)
    requires
        all_digits(s),
    ensures
        digits_val(s) >= 0,
    decreases s.len(),
{
    if s.len() > 0 {
        assert(all_digits(s.drop_last())) by {
            assert(forall|i: int|
                0 <= i < s.drop_last().len() ==> #[trigger] s.drop_last()[i] == s[i]);
        }
        lemma_digits_val_nonneg(s.drop_last());
    }
}

proof fn lemma_digits_val_grows(s: Seq<char>, i: int)
    requires
        0 <= i <= s.len(),
        all_digits(s),
        digits_val(s.take(i)) > u32::MAX,
    ensures
        digits_val(s) > u32::MAX,
    decreases s.len() - i,
{
    if i < s.len() {
        lemma_digits_val_take_step(s, i);
        lemma_digits_val_grows(s, i + 1);
    } else {
        assert(s.take(i) =~= s);
    }
}

/// Parses a whole string of decimal digits as a `u32`; `None` on an empty
/// string, any non-digit, or overflow.
pub fn parse_u32(s: &str) -> (r: Option<u32>)
    ensures
        r == parse_u32_spec(s@),
{
    let n: usize = s.unicode_len();
    if n == 0 {
        return None;
    }
    let mut acc: u64 = 0;
    let mut i: usize = 0;
    while i < n
        invariant
            0 <= i <= n,
            n == s@.len(),
            acc as int == digits_val(s@.take(i as int)),
            acc <= u32::MAX,
            all_digits(s@.take(i as int)),
        decreases n - i,
    {
        let c: char = s.get_char(i);
        let cv: u32 = c as u32;
        if cv < 48 || cv > 57 {
            assert(!is_digit(s@[i as int]));
            return None;
        }
        proof {
            lemma_digits_val_take_step(s@, i as int);
            assert(forall|j: int|
                0 <= j < i + 1 ==> #[trigger] s@.take(i as int + 1)[j] == s@.take(i as int + 1)[j]);
            assert(all_digits(s@.take(i as int + 1))) by {
                assert(forall|j: int| 0 <= j < i ==> s@.take(i as int + 1)[j] == #[trigger] s@.take(
                    i as int,
                )[j]);
            }
        }
        acc = acc * 10 + (cv - 48) as u64;
        i = i + 1;
        if acc > u32::MAX as u64 {
            proof {
                if all_digits(s@) {
                    lemma_digits_val_grows(s@, i as int);
                }
            }
            return None;
        }
    }
    proof {
        assert(s@.take(n as int) =~= s@);
    }
    Some(acc as u32)
}

/// The digit character for a value 0 through 9.
pub open spec fn digit_char(d: int) -> char {
    if d == 0 {
        '0'
    } else if d == 1 {
        '1'
    } else if d == 2 {
        '2'
    } else if d == 3 {
        '3'
    } else if d == 4 {
        '4'
    } else if d == 5 {
        '5'
    } else if d == 6 {
        '6'
    } else if d == 7 {
        '7'
    } else if d == 8 {
        '8'
    } else {
        '9'
    }
}

/// A two-digit, zero-padded rendering.
pub open spec fn fmt2(v: int) -> Seq<char> {
    seq![digit_char(v / 10), digit_char(v % 10)]
}

/// A four-digit, zero-padded rendering.
pub open spec fn fmt4(v: int) -> Seq<char> {
    seq![digit_char(v / 1000), digit_char(v / 100 % 10), digit_char(v / 10 % 10), digit_char(v % 10)]
}

/// A one-character string holding the digit for `d`.
pub fn digit_str(d: u8) -> (r: &'static str)
    requires
        d <= 9,
    ensures
        r@ =~= seq![digit_char(d as int)],
{
    proof {
        reveal_strlit("0");
        reveal_strlit("1");
        reveal_strlit("2");
        reveal_strlit("3");
        reveal_strlit("4");
        reveal_strlit("5");
        reveal_strlit("6");
        reveal_strlit("7");
        reveal_strlit("8");
        reveal_strlit("9");
    }
    match d {
        0 => "0",
        1 => "1",
        2 => "2",
        3 => "3",
        4 => "4",
        5 => "5",
        6 => "6",
        7 => "7",
        8 => "8",
        _ => "9",
    }
}

/// Appends the two-digit rendering of `v` to `out`.
pub fn push2(out: &mut String, v: u8)
    requires
        v <= 99,
    ensures
        final (out)@ == old(out)@ + fmt2(v as int),
{
    out.append(digit_str(v / 10));
    out.append(digit_str(v % 10));
    proof {
        assert(final (out)@ =~= old(out)@ + fmt2(v as int));
    }
}

/// Appends the four-digit rendering of `v` to `out`.
pub fn push4(out: &mut String, v: u16)
    requires
        v <= 9999,
    ensures
        final (out)@ == old(out)@ + fmt4(v as int),
{
    out.append(digit_str((v / 1000) as u8));
    out.append(digit_str((v / 100 % 10) as u8));
    out.append(digit_str((v / 10 % 10) as u8));
    out.append(digit_str((v % 10) as u8));
    proof {
        assert(final (out)@ =~= old(out)@ + fmt4(v as int));
    }
}

pub proof fn lemma_digit_char_val(d: int)
    requires
        0 <= d <= 9,
    ensures
        digit_val(digit_char(d)) == d,
        is_digit(digit_char(d)),
{
    assert('0' as int == 48);
    assert('1' as int == 49);
    assert('2' as int == 50);
    assert('3' as int == 51);
    assert('4' as int == 52);
    assert('5' as int == 53);
    assert('6' as int == 54);
    assert('7' as int == 55);
    assert('8' as int == 56);
    assert('9' as int == 57);
}

/// A two-character digit string denotes a number below 100.
pub proof fn lemma_digits_val_len2(s: Seq<char>)
    requires
        s.len() == 2,
        all_digits(s),
    ensures
        digits_val(s) == digit_val(s[0]) * 10 + digit_val(s[1]),
        0 <= digits_val(s) <= 99,
{
    let s1: Seq<char> = seq![s[0]];
    assert(s.drop_last() =~= s1);
    assert(s1.drop_last() =~= Seq::<char>::empty());
    assert(digits_val(Seq::<char>::empty()) == 0);
    assert(digits_val(s1) == digit_val(s[0]));
}

/// A four-character digit string denotes a number below 10000.
pub proof fn lemma_digits_val_len4(s: Seq<char>)
    requires
        s.len() == 4,
        all_digits(s),
    ensures
        digits_val(s) == ((digit_val(s[0]) * 10 + digit_val(s[1])) * 10 + digit_val(s[2])) * 10
            + digit_val(s[3]),
        0 <= digits_val(s) <= 9999,
{
    let s3: Seq<char> = seq![s[0], s[1], s[2]];
    let s2: Seq<char> = seq![s[0], s[1]];
    let s1: Seq<char> = seq![s[0]];
    assert(s.drop_last() =~= s3);
    assert(s3.drop_last() =~= s2);
    assert(s2.drop_last() =~= s1);
    assert(s1.drop_last() =~= Seq::<char>::empty());
    assert(digits_val(Seq::<char>::empty()) == 0);
    assert(digits_val(s1) == digit_val(s[0]));
    assert(digits_val(s2) == digits_val(s1) * 10 + digit_val(s[1]));
    assert(digits_val(s3) == digits_val(s2) * 10 + digit_val(s[2]));
}

/// Rendering then parsing a two-digit number gives the number back.
pub proof fn lemma_fmt2_val(v: int)
    requires
        0 <= v <= 99,
    ensures
        all_digits(fmt2(v)),
        digits_val(fmt2(v)) == v,
        fmt2(v).len() == 2,
{
    let s: Seq<char> = fmt2(v);
    lemma_digit_char_val(v / 10);
    lemma_digit_char_val(v % 10);
    let s1: Seq<char> = seq![digit_char(v / 10)];
    assert(s.drop_last() =~= s1);
    assert(s1.drop_last() =~= Seq::<char>::empty());
    assert(digits_val(Seq::<char>::empty()) == 0);
    assert(digits_val(s1) == digit_val(digit_char(v / 10)));
    assert(digits_val(s) == digits_val(s1) * 10 + digit_val(digit_char(v % 10)));
    assert(v == v / 10 * 10 + v % 10);
}

/// Rendering then parsing a four-digit number gives the number back.
pub proof fn lemma_fmt4_val(v: int)
    requires
        0 <= v <= 9999,
    ensures
        all_digits(fmt4(v)),
        digits_val(fmt4(v)) == v,
        fmt4(v).len() == 4,
{
    let s: Seq<char> = fmt4(v);
    lemma_digit_char_val(v / 1000);
    lemma_digit_char_val(v / 100 % 10);
    lemma_digit_char_val(v / 10 % 10);
    lemma_digit_char_val(v % 10);
    let s3: Seq<char> = seq![digit_char(v / 1000), digit_char(v / 100 % 10), digit_char(v / 10 % 10)];
    let s2: Seq<char> = seq![digit_char(v / 1000), digit_char(v / 100 % 10)];
    let s1: Seq<char> = seq![digit_char(v / 1000)];
    assert(s.drop_last() =~= s3);
    assert(s3.drop_last() =~= s2);
    assert(s2.drop_last() =~= s1);
    assert(s1.drop_last() =~= Seq::<char>::empty());
    assert(digits_val(Seq::<char>::empty()) == 0);
    assert(digits_val(s1) == digit_val(digit_char(v / 1000)));
    assert(digits_val(s2) == digits_val(s1) * 10 + digit_val(digit_char(v / 100 % 10)));
    assert(digits_val(s3) == digits_val(s2) * 10 + digit_val(digit_char(v / 10 % 10)));
    assert(digits_val(s) == digits_val(s3) * 10 + digit_val(digit_char(v % 10)));
    assert(v == (v / 1000 * 10 + v / 100 % 10) * 100 + (v / 10 % 10) * 10 + v % 10) by {
        assert(v / 100 == v / 1000 * 10 + v / 100 % 10) by {
            assert(v / 100 / 10 == v / 1000);
            assert(v / 100 == v / 100 / 10 * 10 + v / 100 % 10);
        }
        assert(v / 10 == v / 100 * 10 + v / 10 % 10) by {
            assert(v / 10 / 10 == v / 100);
            assert(v / 10 == v / 10 / 10 * 10 + v / 10 % 10);
        }
        assert(v == v / 10 * 10 + v % 10);
    }
}

} // verus!
