//! Character and string helpers shared by the codec: ASCII case folding,
//! character-exact string comparison, and decimal conversion for the small
//! numeric fields.

use vstd::prelude::*;
use vstd::string::StrSliceExecFns;
use vstd::string::StringExecFns;

verus! {

/// ASCII lower-casing of one character; other characters are unchanged.
pub open spec fn lower_char(c: char) -> char {
    match c {
        'A' => 'a',
        'B' => 'b',
        'C' => 'c',
        'D' => 'd',
        'E' => 'e',
        'F' => 'f',
        'G' => 'g',
        'H' => 'h',
        'I' => 'i',
        'J' => 'j',
        'K' => 'k',
        'L' => 'l',
        'M' => 'm',
        'N' => 'n',
        'O' => 'o',
        'P' => 'p',
        'Q' => 'q',
        'R' => 'r',
        'S' => 's',
        'T' => 't',
        'U' => 'u',
        'V' => 'v',
        'W' => 'w',
        'X' => 'x',
        'Y' => 'y',
        'Z' => 'z',
        _ => c,
    }
}

/// ASCII lower-casing of a character sequence.
pub open spec fn lower_seq(s: Seq<char>) -> Seq<char> {
    s.map_values(|c: char| lower_char(c))
}

/// Executable ASCII lower-casing of one character.
pub fn char_lower(c: char) -> (r: char)
    ensures
        r == lower_char(c),
{
    match c {
        'A' => 'a',
        'B' => 'b',
        'C' => 'c',
        'D' => 'd',
        'E' => 'e',
        'F' => 'f',
        'G' => 'g',
        'H' => 'h',
        'I' => 'i',
        'J' => 'j',
        'K' => 'k',
        'L' => 'l',
        'M' => 'm',
        'N' => 'n',
        'O' => 'o',
        'P' => 'p',
        'Q' => 'q',
        'R' => 'r',
        'S' => 's',
        'T' => 't',
        'U' => 'u',
        'V' => 'v',
        'W' => 'w',
        'X' => 'x',
        'Y' => 'y',
        'Z' => 'z',
        _ => c,
    }
}

/// Character-exact string equality.
pub fn str_eq(a: &str, b: &str) -> (r: bool)
    ensures
        r == (a@ == b@),
{
    let n = a.unicode_len();
    let m = b.unicode_len();
    if n != m {
        assert(a@ != b@) by {
            assert(a@.len() != b@.len());
        }
        return false;
    }
    let mut i: usize = 0;
    while i < n
        invariant
            n == a@.len(),
            n == b@.len(),
            i <= n,
            forall|j: int| 0 <= j < i ==> a@[j] == b@[j],
        decreases n - i,
    {
        if a.get_char(i) != b.get_char(i) {
            assert(a@ != b@) by {
                assert(a@[i as int] != b@[i as int]);
            }
            return false;
        }
        i += 1;
    }
    assert(a@ =~= b@);
    true
}

/// Equality of `s`, lowered to ASCII lower case, with `t`.
pub fn str_eq_lower(s: &str, t: &str) -> (r: bool)
    ensures
        r == (lower_seq(s@) == t@),
{
    let n = s.unicode_len();
    let m = t.unicode_len();
    if n != m {
        assert(lower_seq(s@) != t@) by {
            assert(lower_seq(s@).len() != t@.len());
        }
        return false;
    }
    let mut i: usize = 0;
    while i < n
        invariant
            n == s@.len(),
            n == t@.len(),
            i <= n,
            forall|j: int| 0 <= j < i ==> lower_char(s@[j]) == t@[j],
        decreases n - i,
    {
        if char_lower(s.get_char(i)) != t.get_char(i) {
            assert(lower_seq(s@) != t@) by {
                assert(lower_seq(s@)[i as int] != t@[i as int]);
            }
            return false;
        }
        i += 1;
    }
    assert(lower_seq(s@) =~= t@);
    true
}

/// The decimal digit for a value below ten.
pub open spec fn digit_char(d: u8) -> char
    recommends
        d < 10,
{
    match d {
        0 => '0',
        1 => '1',
        2 => '2',
        3 => '3',
        4 => '4',
        5 => '5',
        6 => '6',
        7 => '7',
        8 => '8',
        9 => '9',
        _ => '0',
    }
}

/// The value of a decimal digit character, if it is one.
pub open spec fn digit_val(c: char) -> Option<u8> {
    match c {
        '0' => Some(0u8),
        '1' => Some(1u8),
        '2' => Some(2u8),
        '3' => Some(3u8),
        '4' => Some(4u8),
        '5' => Some(5u8),
        '6' => Some(6u8),
        '7' => Some(7u8),
        '8' => Some(8u8),
        '9' => Some(9u8),
        _ => None,
    }
}

/// The shortest decimal spelling of a byte value.
pub open spec fn dec_u8(n: u8) -> Seq<char> {
    if n < 10 {
        seq![digit_char(n)]
    } else if n < 100 {
        seq![digit_char(n / 10), digit_char(n % 10)]
    } else {
        seq![digit_char(n / 100), digit_char((n / 10) % 10), digit_char(n % 10)]
    }
}

/// Folding the remaining digits of `s` onto the accumulated value `acc`;
/// `None` on a non-digit or once the value leaves the byte range.
pub open spec fn dec_fold(s: Seq<char>, acc: int) -> Option<u8>
    recommends
        0 <= acc < 256,
    decreases s.len(),
{
    if s.len() == 0 {
        Some(acc as u8)
    } else {
        match digit_val(s[0]) {
            None => None,
            Some(d) => if acc * 10 + d > 255 {
                None
            } else {
                dec_fold(s.skip(1), acc * 10 + d)
            },
        }
    }
}

/// The byte a string of decimal digits denotes: `None` when the string is
/// empty, holds a non-digit, or denotes a value above 255.
pub open spec fn parse_u8_opt(s: Seq<char>) -> Option<u8> {
    if s.len() == 0 {
        None
    } else {
        dec_fold(s, 0)
    }
}

/// A one-character string for a decimal digit.
fn digit_str(d: u8) -> (r: &'static str)
    requires
        d < 10,
    ensures
        r@ == seq![digit_char(d)],
{
    proof {
        reveal_strlit("0");
        reveal_strlit("1");
        reveal_strlit("2");
        reveal_strlit("3");
        reveal_strlit("4");
        reveal_strlit("5");
        reveal_strlit("6");
        reveal_strlit("7");
        reveal_strlit("8");
        reveal_strlit("9");
    }
    let r = match d {
        0 => "0",
        1 => "1",
        2 => "2",
        3 => "3",
        4 => "4",
        5 => "5",
        6 => "6",
        7 => "7",
        8 => "8",
        _ => "9",
    };
    assert(r@ =~= seq![digit_char(d)]);
    r
}

/// The shortest decimal spelling of a byte value, as a string.
pub fn u8_to_dec(n: u8) -> (r: String)
    ensures
        r@ == dec_u8(n),
{
    let mut r = String::new();
    if n < 10 {
        r.append(digit_str(n));
    } else if n < 100 {
        r.append(digit_str(n / 10));
        r.append(digit_str(n % 10));
    } else {
        r.append(digit_str(n / 100));
        r.append(digit_str((n / 10) % 10));
        r.append(digit_str(n % 10));
    }
    assert(r@ =~= dec_u8(n));
    r
}

/// The value of a decimal digit character, if it is one.
fn digit_of(c: char) -> (r: Option<u8>)
    ensures
        r == digit_val(c),
{
    match c {
        '0' => Some(0u8),
        '1' => Some(1u8),
        '2' => Some(2u8),
        '3' => Some(3u8),
        '4' => Some(4u8),
        '5' => Some(5u8),
        '6' => Some(6u8),
        '7' => Some(7u8),
        '8' => Some(8u8),
        '9' => Some(9u8),
        _ => None,
    }
}

/// Reading a byte from its decimal spelling; `None` when the text is not
/// the decimal spelling of a value that fits.
pub fn parse_u8(s: &str) -> (r: Option<u8>)
    ensures
        r == parse_u8_opt(s@),
{
    let n = s.unicode_len();
    if n == 0 {
        return None;
    }
    let mut acc: u16 = 0;
    let mut i: usize = 0;
    proof {
        assert(s@.skip(0) =~= s@);
    }
    while i < n
        invariant
            n == s@.len(),
            i <= n,
            acc <= 255,
            parse_u8_opt(s@) == dec_fold(s@.skip(i as int), acc as int),
        decreases n - i,
    {
        proof {
            assert(s@.skip(i as int)[0] == s@[i as int]);
        }
        match digit_of(s.get_char(i)) {
            None => {
                return None;
            },
            Some(d) => {
                let next: u16 = acc * 10 + d as u16;
                if next > 255 {
                    return None;
                }
                proof {
                    assert(s@.skip(i as int).skip(1) =~= s@.skip(i as int + 1));
                }
                acc = next;
            },
        }
        i += 1;
    }
    proof {
        assert(s@.skip(n as int) =~= Seq::<char>::empty());
    }
    Some(acc as u8)
}

/// Reading a byte back from its decimal spelling recovers the value.
pub proof fn lemma_dec_u8_round_trip(n: u8)
    ensures
        parse_u8_opt(dec_u8(n)) == Some(n),
{
    let s = dec_u8(n);
    if n < 10 {
        assert(s.skip(1) =~= Seq::<char>::empty());
        assert(digit_val(s[0]) == Some(n));
        assert(dec_fold(s, 0) == dec_fold(s.skip(1), n as int));
        assert(dec_fold(s.skip(1), n as int) == Some(n));
    } else if n < 100 {
        let d0 = n / 10;
        let d1 = n % 10;
        assert(d0 * 10 + d1 == n);
        assert(s.skip(1) =~= seq![digit_char(d1)]);
        assert(s.skip(1).skip(1) =~= Seq::<char>::empty());
        assert(digit_val(s[0]) == Some(d0));
        assert(digit_val(s.skip(1)[0]) == Some(d1));
        assert(dec_fold(s, 0) == dec_fold(s.skip(1), d0 as int));
        assert(dec_fold(s.skip(1), d0 as int) == dec_fold(s.skip(1).skip(1), n as int));
        assert(dec_fold(s.skip(1).skip(1), n as int) == Some(n));
    } else {
        let d0 = n / 100;
        let d1 = (n / 10) % 10;
        let d2 = n % 10;
        assert((d0 * 10 + d1) * 10 + d2 == n) by {
            assert(d0 * 10 + d1 == n / 10) by {
                assert(n / 100 == (n / 10) / 10);
            };
            assert((n / 10) * 10 + n % 10 == n);
        };
        assert(d0 * 10 + d1 <= 25);
        assert(s.skip(1) =~= seq![digit_char(d1), digit_char(d2)]);
        assert(s.skip(1).skip(1) =~= seq![digit_char(d2)]);
        assert(s.skip(1).skip(1).skip(1) =~= Seq::<char>::empty());
        assert(digit_val(s[0]) == Some(d0));
        assert(digit_val(s.skip(1)[0]) == Some(d1));
        assert(digit_val(s.skip(1).skip(1)[0]) == Some(d2));
        assert(dec_fold(s, 0) == dec_fold(s.skip(1), d0 as int));
        assert(dec_fold(s.skip(1), d0 as int) == dec_fold(s.skip(1).skip(1), (d0 * 10 + d1) as int));
        assert(dec_fold(s.skip(1).skip(1), (d0 * 10 + d1) as int) == dec_fold(
            s.skip(1).skip(1).skip(1),
            n as int,
        ));
        assert(dec_fold(s.skip(1).skip(1).skip(1), n as int) == Some(n));
    }
}

} // verus!
