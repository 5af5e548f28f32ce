//! Numbers as text.

use vstd::prelude::*;

verus! {

/// A number in decimal, without leading zeros.
pub open spec fn dec_text(n: nat) -> Seq<char>
    decreases n,
{
    if n < 10 {
        seq![digit_char(n)]
    } else {
        dec_text(n / 10).push(digit_char(n % 10))
    }
}

/// The character of a digit below sixteen, in lower case.
pub open spec fn digit_char(d: nat) -> char {
    if d < 10 {
        (48 + d) as char
    } else {
        (87 + d) as char
    }
}

/// A number below 65536 as four hexadecimal digits.
pub open spec fn hex4_text(n: nat) -> Seq<char> {
    seq![
        digit_char(n / 4096 % 16),
        digit_char(n / 256 % 16),
        digit_char(n / 16 % 16),
        digit_char(n % 16),
    ]
}

/// The digit as text.
fn digit(d: u8) -> (r: &'static str)
    requires
        d < 16,
    ensures
        r@ == seq![digit_char(d as nat)],
{
    proof {
        reveal_strlit("0");
        reveal_strlit("1");
        reveal_strlit("2");
        reveal_strlit("3");
        reveal_strlit("4");
        reveal_strlit("5");
        reveal_strlit("6");
        reveal_strlit("7");
        reveal_strlit("8");
        reveal_strlit("9");
        reveal_strlit("a");
        reveal_strlit("b");
        reveal_strlit("c");
        reveal_strlit("d");
        reveal_strlit("e");
        reveal_strlit("f");
    }
    match d {
        0 => "0",
        1 => "1",
        2 => "2",
        3 => "3",
        4 => "4",
        5 => "5",
        6 => "6",
        7 => "7",
        8 => "8",
        9 => "9",
        10 => "a",
        11 => "b",
        12 => "c",
        13 => "d",
        14 => "e",
        _ => "f",
    }
}

/// Appends a number in decimal.
pub fn push_dec(out: &mut String, n: u64)
    ensures
        final(out)@ == old(out)@ + dec_text(n as nat),
    decreases n,
{
    if n >= 10 {
        push_dec(out, n / 10);
    }
    out.append(digit((n % 10) as u8));
    assert(out@ =~= old(out)@ + dec_text(n as nat));
}

/// Appends a number as four hexadecimal digits.
pub fn push_hex4(out: &mut String, n: u16)
    ensures
        final(out)@ == old(out)@ + hex4_text(n as nat),
{
    out.append(digit((n / 4096 % 16) as u8));
    out.append(digit((n / 256 % 16) as u8));
    out.append(digit((n / 16 % 16) as u8));
    out.append(digit((n % 16) as u8));
    assert(out@ =~= old(out)@ + hex4_text(n as nat));
}

/// The digit that a character stands for, up to fifteen; a letter stands for
/// ten and more.
pub open spec fn stands_for(c: char) -> int {
    if c as int >= 97 {
        c as int - 97 + 10
    } else {
        c as int - 48
    }
}

/// The number that digits to this base denote, the highest first.
pub open spec fn denoted(s: Seq<char>, base: int) -> int
    decreases s.len(),
{
    if s.len() == 0 {
        0
    } else {
        denoted(s.drop_last(), base) * base + stands_for(s.last())
    }
}

/// A number's text denotes the number: decimal digits only, and no nought in
/// front but that of nought itself.
pub proof fn law_text_denotes_the_number(n: nat)
    ensures
        ({
            let s = dec_text(n);
            &&& s.len() > 0
            &&& denoted(s, 10) == n
            &&& forall|i: int| 0 <= i < s.len() ==> '0' <= #[trigger] s[i] <= '9'
            &&& s[0] == '0' ==> n == 0
        }),
    decreases n,
{
    let s = dec_text(n);
    if n < 10 {
        assert(s.drop_last() =~= Seq::<char>::empty());
        assert(denoted(s.drop_last(), 10) == 0);
    } else {
        law_text_denotes_the_number(n / 10);
        assert(s.drop_last() =~= dec_text(n / 10));
        assert(s[0] == dec_text(n / 10)[0]);
        assert forall|i: int| 0 <= i < s.len() implies '0' <= #[trigger] s[i] <= '9' by {
            if i < s.len() - 1 {
                assert(s[i] == dec_text(n / 10)[i]);
            }
        }
    }
}

/// Four hexadecimal digits denote the number.
pub proof fn law_hex_denotes_the_number(n: nat)
    requires
        n < 0x1_0000,
    ensures
        hex4_text(n).len() == 4,
        denoted(hex4_text(n), 16) == n,
{
    let s = hex4_text(n);
    reveal_with_fuel(denoted, 5);
    assert(s.drop_last().drop_last().drop_last().drop_last().len() == 0);
    assert(s.drop_last().drop_last().drop_last().last() == s[0]);
    assert(s.drop_last().drop_last().last() == s[1]);
    assert(s.drop_last().last() == s[2]);
}

} // verus!
