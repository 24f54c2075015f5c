//! Fixed-width text: runs of spaces, centring, decimal numerals and joining
//! lines. Every string is modelled by its sequence of characters.

use vstd::prelude::*;
use vstd::string::StringExecFns;
use vstd::string::StrSliceExecFns;

verus! {

/// A run of `n` space characters.
pub open spec fn spaces(n: nat) -> Seq<char> {
    Seq::new(n, |i: int| ' ')
}

/// `s` centred in a field of `width` characters. Text that is already as
/// wide as the field is left alone; when the padding is odd, the extra space
/// goes to the right.
pub open spec fn centered(s: Seq<char>, width: nat) -> Seq<char> {
    if s.len() >= width {
        s
    } else {
        let pad = (width - s.len()) as nat;
        spaces(pad / 2) + s + spaces((pad - pad / 2) as nat)
    }
}

/// The decimal digit for `d`, where `0 <= d <= 9`.
pub open spec fn digit(d: int) -> char {
    if d == 0 {
        '0'
    } else if d == 1 {
        '1'
    } else if d == 2 {
        '2'
    } else if d == 3 {
        '3'
    } else if d == 4 {
        '4'
    } else if d == 5 {
        '5'
    } else if d == 6 {
        '6'
    } else if d == 7 {
        '7'
    } else if d == 8 {
        '8'
    } else {
        '9'
    }
}

/// The decimal numeral of `n`, without leading zeros.
pub open spec fn decimal(n: nat) -> Seq<char>
    decreases n,
{
    if n < 10 {
        seq![digit(n as int)]
    } else {
        decimal(n / 10).push(digit((n % 10) as int))
    }
}

/// The decimal numeral of a signed number: a minus sign before the numeral of
/// its magnitude when it is negative.
pub open spec fn signed_decimal(i: int) -> Seq<char> {
    if i < 0 {
        seq!['-'] + decimal((-i) as nat)
    } else {
        decimal(i as nat)
    }
}

/// `lines` joined by line feeds, with none after the last line.
pub open spec fn join_lines(lines: Seq<Seq<char>>) -> Seq<char>
    decreases lines.len(),
{
    if lines.len() == 0 {
        Seq::empty()
    } else if lines.len() == 1 {
        lines[0]
    } else {
        join_lines(lines.drop_last()) + seq!['\n'] + lines.last()
    }
}

/// The views of a vector of strings, line by line.
pub open spec fn line_views(lines: Seq<String>) -> Seq<Seq<char>> {
    Seq::new(lines.len(), |i: int| lines[i]@)
}

/// The views of a vector that got one more string are the views it had and
/// the view of that string.
pub proof fn lemma_line_views_push(lines: Seq<String>, line: String)
    ensures
        line_views(lines.push(line)) == line_views(lines).push(line@),
{
    assert(line_views(lines.push(line)) =~= line_views(lines).push(line@));
}

/// A numeral below one hundred has one or two characters.
pub proof fn lemma_decimal_len(n: nat)
    requires
        n < 100,
    ensures
        decimal(n).len() == if n < 10 {
            1nat
        } else {
            2nat
        },
{
    if n >= 10 {
        assert(decimal(n / 10).len() == 1);
    }
}

/// The numeral of a number that fits in 32 bits, with its sign, has at most
/// eleven characters.
pub proof fn lemma_signed_decimal_len(i: int)
    requires
        -0x1_0000_0000 < i < 0x1_0000_0000,
    ensures
        1 <= signed_decimal(i).len() <= 11,
{
    reveal_with_fuel(decimal, 11);
    let n: nat = if i < 0 {
        (-i) as nat
    } else {
        i as nat
    };
    assert(1 <= decimal(n).len() <= 10);
}

/// A string of `n` spaces.
pub fn blank(n: usize) -> (r: String)
    ensures
        r@ == spaces(n as nat),
{
    let mut r = String::new();
    let mut i: usize = 0;
    while i < n
        invariant
            i <= n,
            r@ == spaces(i as nat),
        decreases n - i,
    {
        proof {
            reveal_strlit(" ");
            assert(" "@ =~= seq![' ']);
            assert(spaces(i as nat) + seq![' '] =~= spaces((i + 1) as nat));
        }
        r.append(" ");
        i = i + 1;
    }
    r
}

/// Centres `s` in a field of `width` characters.
pub fn center(s: &str, width: usize) -> (r: String)
    ensures
        r@ == centered(s@, width as nat),
{
    let len = s.unicode_len();
    if len >= width {
        String::from_str(s)
    } else {
        let pad = width - len;
        let left = pad / 2;
        let mut r = blank(left);
        r.append(s);
        let right = blank(pad - left);
        r.append(right.as_str());
        r
    }
}

/// The one-character string of a decimal digit.
fn digit_str(d: u32) -> (r: &'static str)
    requires
        d < 10,
    ensures
        r@ == seq![digit(d as int)],
{
    proof {
        reveal_strlit("0");
        reveal_strlit("1");
        reveal_strlit("2");
        reveal_strlit("3");
        reveal_strlit("4");
        reveal_strlit("5");
        reveal_strlit("6");
        reveal_strlit("7");
        reveal_strlit("8");
        reveal_strlit("9");
    }
    let r = if d == 0 {
        "0"
    } else if d == 1 {
        "1"
    } else if d == 2 {
        "2"
    } else if d == 3 {
        "3"
    } else if d == 4 {
        "4"
    } else if d == 5 {
        "5"
    } else if d == 6 {
        "6"
    } else if d == 7 {
        "7"
    } else if d == 8 {
        "8"
    } else {
        "9"
    };
    assert(r@ =~= seq![digit(d as int)]);
    r
}

/// The decimal numeral of `n`.
pub fn decimal_string(n: u32) -> (r: String)
    ensures
        r@ == decimal(n as nat),
    decreases n,
{
    if n < 10 {
        String::from_str(digit_str(n))
    } else {
        let mut r = decimal_string(n / 10);
        r.append(digit_str(n % 10));
        assert(r@ =~= decimal((n / 10) as nat).push(digit((n % 10) as int)));
        r
    }
}

/// The decimal numeral of a signed number.
pub fn signed_decimal_string(i: i32) -> (r: String)
    ensures
        r@ == signed_decimal(i as int),
{
    if i < 0 {
        let magnitude: i64 = -(i as i64);
        let mut r = String::from_str("-");
        let digits = decimal_string(magnitude as u32);
        proof {
            reveal_strlit("-");
            assert("-"@ =~= seq!['-']);
        }
        r.append(digits.as_str());
        r
    } else {
        decimal_string(i as u32)
    }
}

/// Joins `lines` with line feeds, with none after the last line.
pub fn joined(lines: &Vec<String>) -> (r: String)
    ensures
        r@ == join_lines(line_views(lines@)),
{
    let mut r = String::new();
    let n = lines.len();
    let mut i: usize = 0;
    while i < n
        invariant
            i <= n,
            n == lines@.len(),
            r@ == join_lines(line_views(lines@).take(i as int)),
        decreases n - i,
    {
        let ghost before = line_views(lines@).take(i as int);
        let ghost after = line_views(lines@).take(i as int + 1);
        proof {
            reveal_strlit("\n");
            assert("\n"@ =~= seq!['\n']);
            assert(after.drop_last() =~= before);
            assert(after.last() == lines@[i as int]@);
            if i == 0 {
                assert(r@ =~= Seq::<char>::empty());
            }
        }
        if i > 0 {
            r.append("\n");
        }
        r.append(lines[i].as_str());
        proof {
            if i == 0 {
                assert(r@ =~= lines@[0]@);
            }
        }
        i = i + 1;
    }
    proof {
        assert(line_views(lines@).take(n as int) =~= line_views(lines@));
    }
    r
}

} // verus!
