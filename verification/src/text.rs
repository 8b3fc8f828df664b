//! Text produced by the server: decimal numerals and frame file names,
//! and recognising a file name at the end of a path.

use vstd::prelude::*;
use crate::image::ImageFormat;

verus! {

/// The decimal digit character of `d` (0 to 9).
pub open spec fn digit_char(d: int) -> char {
    if d == 0 {
        '0'
    } else if d == 1 {
        '1'
    } else if d == 2 {
        '2'
    } else if d == 3 {
        '3'
    } else if d == 4 {
        '4'
    } else if d == 5 {
        '5'
    } else if d == 6 {
        '6'
    } else if d == 7 {
        '7'
    } else if d == 8 {
        '8'
    } else {
        '9'
    }
}

/// The value of the decimal digit character `c`.
pub open spec fn digit_value(c: char) -> int {
    if c == '0' {
        0
    } else if c == '1' {
        1
    } else if c == '2' {
        2
    } else if c == '3' {
        3
    } else if c == '4' {
        4
    } else if c == '5' {
        5
    } else if c == '6' {
        6
    } else if c == '7' {
        7
    } else if c == '8' {
        8
    } else {
        9
    }
}

/// The decimal numeral of `n`, without sign or leading zeros, as `Display`
/// writes an unsigned integer.
pub open spec fn decimal(n: nat) -> Seq<char>
    decreases n,
{
    if n < 10 {
        seq![digit_char(n as int)]
    } else {
        decimal(n / 10).push(digit_char((n % 10) as int))
    }
}

/// The number that the decimal digits `s` spell.
pub open spec fn numeral_value(s: Seq<char>) -> int
    decreases s.len(),
{
    if s.len() == 0 {
        0
    } else {
        numeral_value(s.drop_last()) * 10 + digit_value(s.last())
    }
}

/// A decimal numeral is made of digits, starts with `0` only when it is
/// zero, and reads back as the number it was written from.
pub proof fn lemma_decimal_value(n: nat)
    ensures
        numeral_value(decimal(n)) == n,
        decimal(n).len() > 0,
        forall|i: int| 0 <= i < decimal(n).len() ==> '0' <= #[trigger] decimal(n)[i] <= '9',
        decimal(n)[0] == '0' <==> n == 0,
    decreases n,
{
    if n >= 10 {
        lemma_decimal_value(n / 10);
        assert(decimal(n).drop_last() =~= decimal(n / 10));
        assert(n == (n / 10) * 10 + n % 10);
        assert(digit_value(digit_char((n % 10) as int)) == n % 10);
        assert(decimal(n).last() == digit_char((n % 10) as int));
        assert(decimal(n)[0] == decimal(n / 10)[0]);
        assert forall|i: int| 0 <= i < decimal(n).len() implies '0' <= #[trigger] decimal(n)[i]
            <= '9' by {
            if i < decimal(n).len() - 1 {
                assert(decimal(n)[i] == decimal(n / 10)[i]);
            }
        }
    } else {
        assert(seq![digit_char(n as int)].drop_last() =~= Seq::<char>::empty());
        assert(numeral_value(Seq::<char>::empty()) == 0);
        assert(digit_value(digit_char(n as int)) == n);
    }
}

/// Distinct numbers have distinct decimal numerals.
pub proof fn lemma_decimal_injective(m: nat, n: nat)
    ensures
        decimal(m) == decimal(n) ==> m == n,
{
    lemma_decimal_value(m);
    lemma_decimal_value(n);
}

/// The one-character string of the decimal digit `d`.
fn digit_str(d: usize) -> (s: &'static str)
    requires
        d < 10,
    ensures
        s@ == seq![digit_char(d as int)],
{
    if d == 0 {
        proof {
            reveal_strlit("0");
        }
        "0"
    } else if d == 1 {
        proof {
            reveal_strlit("1");
        }
        "1"
    } else if d == 2 {
        proof {
            reveal_strlit("2");
        }
        "2"
    } else if d == 3 {
        proof {
            reveal_strlit("3");
        }
        "3"
    } else if d == 4 {
        proof {
            reveal_strlit("4");
        }
        "4"
    } else if d == 5 {
        proof {
            reveal_strlit("5");
        }
        "5"
    } else if d == 6 {
        proof {
            reveal_strlit("6");
        }
        "6"
    } else if d == 7 {
        proof {
            reveal_strlit("7");
        }
        "7"
    } else if d == 8 {
        proof {
            reveal_strlit("8");
        }
        "8"
    } else {
        proof {
            reveal_strlit("9");
        }
        "9"
    }
}

/// Append the decimal numeral of `n` to `out`.
pub fn push_decimal(out: &mut String, n: usize)
    ensures
        final(out)@ == old(out)@ + decimal(n as nat),
    decreases n,
{
    if n >= 10 {
        push_decimal(out, n / 10);
    }
    out.append(digit_str(n % 10));
    proof {
        if n >= 10 {
            assert(old(out)@ + decimal(n as nat) =~= old(out)@ + decimal((n / 10) as nat) + seq![
                digit_char((n % 10) as int),
            ]);
        }
    }
}

/// The file name of frame `index` in `format`: `frame_`, the index in
/// decimal, then the format's suffix.
pub open spec fn frame_name_chars(index: nat, format: ImageFormat) -> Seq<char> {
    seq!['f', 'r', 'a', 'm', 'e', '_'] + decimal(index) + format.suffix_chars()
}

/// File name of frame `index` in `format`, such as `frame_0.webp`.
pub fn frame_name(index: usize, format: ImageFormat) -> (name: String)
    ensures
        name@ == frame_name_chars(index as nat, format),
{
    let mut name = String::from_str("frame_");
    proof {
        reveal_strlit("frame_");
    }
    push_decimal(&mut name, index);
    name.append(format.suffix());
    name
}

/// Frames of different indices get different file names.
pub proof fn lemma_frame_names_distinct(i: nat, j: nat, format: ImageFormat)
    requires
        i != j,
    ensures
        frame_name_chars(i, format) != frame_name_chars(j, format),
{
    let p = seq!['f', 'r', 'a', 'm', 'e', '_'];
    let sfx = format.suffix_chars();
    let a = frame_name_chars(i, format);
    let b = frame_name_chars(j, format);
    lemma_decimal_injective(i, j);
    if a == b {
        assert(a.subrange(6, a.len() - sfx.len()) =~= decimal(i));
        assert(b.subrange(6, b.len() - sfx.len()) =~= decimal(j));
    }
}

/// `s` ends with `t`.
pub open spec fn ends_with(s: Seq<char>, t: Seq<char>) -> bool {
    t.len() <= s.len() && s.skip(s.len() - t.len()) == t
}

/// Whether `s` ends with `t`.
pub fn str_ends_with(s: &str, t: &str) -> (r: bool)
    ensures
        r == ends_with(s@, t@),
{
    let ls = s.unicode_len();
    let lt = t.unicode_len();
    if lt > ls {
        return false;
    }
    let start = ls - lt;
    let mut i: usize = 0;
    while i < lt
        invariant
            ls == s@.len(),
            lt == t@.len(),
            start == ls - lt,
            i <= lt,
            forall|j: int| 0 <= j < i ==> s@[start + j] == t@[j],
        decreases lt - i,
    {
        if s.get_char(start + i) != t.get_char(i) {
            proof {
                assert(s@.skip(start as int)[i as int] != t@[i as int]);
            }
            return false;
        }
        i = i + 1;
    }
    proof {
        assert(s@.skip(start as int) =~= t@);
    }
    true
}

} // verus!
