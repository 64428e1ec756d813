//! Hexadecimal rendering of machine words and digest bytes.
//!
//! Numbers are written as exactly sixteen lower-case hex characters (the full
//! width of a `u64`), which keeps parsing free of any look-ahead, and digest
//! bytes as two characters each.

use vstd::prelude::*;
use vstd::string::*;

verus! {

/// The character standing for one hexadecimal digit value (values above 15
/// all map to 'f'; callers always mask to four bits).
#[verifier::opaque]
pub open spec fn hex_digit_char(v: u64) -> char {
    if v == 0 {
        '0'
    } else if v == 1 {
        '1'
    } else if v == 2 {
        '2'
    } else if v == 3 {
        '3'
    } else if v == 4 {
        '4'
    } else if v == 5 {
        '5'
    } else if v == 6 {
        '6'
    } else if v == 7 {
        '7'
    } else if v == 8 {
        '8'
    } else if v == 9 {
        '9'
    } else if v == 10 {
        'a'
    } else if v == 11 {
        'b'
    } else if v == 12 {
        'c'
    } else if v == 13 {
        'd'
    } else if v == 14 {
        'e'
    } else {
        'f'
    }
}

/// The digit value of one character, or -1 where it is no lower-case
/// hexadecimal digit.
#[verifier::opaque]
pub open spec fn hex_char_value(c: char) -> int {
    if c == '0' {
        0
    } else if c == '1' {
        1
    } else if c == '2' {
        2
    } else if c == '3' {
        3
    } else if c == '4' {
        4
    } else if c == '5' {
        5
    } else if c == '6' {
        6
    } else if c == '7' {
        7
    } else if c == '8' {
        8
    } else if c == '9' {
        9
    } else if c == 'a' {
        10
    } else if c == 'b' {
        11
    } else if c == 'c' {
        12
    } else if c == 'd' {
        13
    } else if c == 'e' {
        14
    } else if c == 'f' {
        15
    } else {
        -1
    }
}

/// Reading the character of a digit value below 16 gives that value back.
pub proof fn lemma_hex_digit_char_value(v: u64)
    requires
        v < 16,
    ensures
        hex_char_value(hex_digit_char(v)) == v,
{
    reveal(hex_digit_char);
    reveal(hex_char_value);
}

/// The sixteen characters of a `u64`, highest nibble first.
pub open spec fn hex16_chars(n: u64) -> Seq<char> {
    seq![
        hex_digit_char((n >> 60u64) & 0xf),
        hex_digit_char((n >> 56u64) & 0xf),
        hex_digit_char((n >> 52u64) & 0xf),
        hex_digit_char((n >> 48u64) & 0xf),
        hex_digit_char((n >> 44u64) & 0xf),
        hex_digit_char((n >> 40u64) & 0xf),
        hex_digit_char((n >> 36u64) & 0xf),
        hex_digit_char((n >> 32u64) & 0xf),
        hex_digit_char((n >> 28u64) & 0xf),
        hex_digit_char((n >> 24u64) & 0xf),
        hex_digit_char((n >> 20u64) & 0xf),
        hex_digit_char((n >> 16u64) & 0xf),
        hex_digit_char((n >> 12u64) & 0xf),
        hex_digit_char((n >> 8u64) & 0xf),
        hex_digit_char((n >> 4u64) & 0xf),
        hex_digit_char(n & 0xf),
    ]
}

/// Reading sixteen hex characters at `pos`: the value and the position after
/// them, or nothing where the text is too short or a character is no digit.
pub open spec fn parse_hex16_at(s: Seq<char>, pos: int) -> Option<(u64, int)> {
    if 0 <= pos && pos + 16 <= s.len() && hex_char_value(s[pos + 0]) >= 0 && hex_char_value(
        s[pos + 1],
    ) >= 0 && hex_char_value(s[pos + 2]) >= 0 && hex_char_value(s[pos + 3]) >= 0 && hex_char_value(
        s[pos + 4],
    ) >= 0 && hex_char_value(s[pos + 5]) >= 0 && hex_char_value(s[pos + 6]) >= 0 && hex_char_value(
        s[pos + 7],
    ) >= 0 && hex_char_value(s[pos + 8]) >= 0 && hex_char_value(s[pos + 9]) >= 0 && hex_char_value(
        s[pos + 10],
    ) >= 0 && hex_char_value(s[pos + 11]) >= 0 && hex_char_value(s[pos + 12]) >= 0
        && hex_char_value(s[pos + 13]) >= 0 && hex_char_value(s[pos + 14]) >= 0 && hex_char_value(
        s[pos + 15],
    ) >= 0 {
        Some(
            (
                (hex_char_value(s[pos + 0]) * 0x1000000000000000 + hex_char_value(s[pos + 1])
                    * 0x100000000000000 + hex_char_value(s[pos + 2]) * 0x10000000000000
                    + hex_char_value(s[pos + 3]) * 0x1000000000000 + hex_char_value(s[pos + 4])
                    * 0x100000000000 + hex_char_value(s[pos + 5]) * 0x10000000000 + hex_char_value(
                    s[pos + 6],
                ) * 0x1000000000 + hex_char_value(s[pos + 7]) * 0x100000000 + hex_char_value(
                    s[pos + 8],
                ) * 0x10000000 + hex_char_value(s[pos + 9]) * 0x1000000 + hex_char_value(
                    s[pos + 10],
                ) * 0x100000 + hex_char_value(s[pos + 11]) * 0x10000 + hex_char_value(s[pos + 12])
                    * 0x1000 + hex_char_value(s[pos + 13]) * 0x100 + hex_char_value(s[pos + 14])
                    * 0x10 + hex_char_value(s[pos + 15])) as u64,
                pos + 16,
            ),
        )
    } else {
        None
    }
}

/// One character of text for a digit value (of the low four bits of `v`).
fn hex_digit_str(v: u64) -> (r: &'static str)
    ensures
        r@.len() == 1,
        r@[0] == hex_digit_char(v & 0xf),
{
    proof {
        reveal(hex_digit_char);
        assert(v & 0xf < 16) by (bit_vector);
        reveal_strlit("0");
        reveal_strlit("1");
        reveal_strlit("2");
        reveal_strlit("3");
        reveal_strlit("4");
        reveal_strlit("5");
        reveal_strlit("6");
        reveal_strlit("7");
        reveal_strlit("8");
        reveal_strlit("9");
        reveal_strlit("a");
        reveal_strlit("b");
        reveal_strlit("c");
        reveal_strlit("d");
        reveal_strlit("e");
        reveal_strlit("f");
    }
    let d = v & 0xf;
    if d == 0 {
        "0"
    } else if d == 1 {
        "1"
    } else if d == 2 {
        "2"
    } else if d == 3 {
        "3"
    } else if d == 4 {
        "4"
    } else if d == 5 {
        "5"
    } else if d == 6 {
        "6"
    } else if d == 7 {
        "7"
    } else if d == 8 {
        "8"
    } else if d == 9 {
        "9"
    } else if d == 10 {
        "a"
    } else if d == 11 {
        "b"
    } else if d == 12 {
        "c"
    } else if d == 13 {
        "d"
    } else if d == 14 {
        "e"
    } else {
        "f"
    }
}

/// Appends the sixteen hex characters of `n` to `out`.
pub fn push_hex16(out: &mut String, n: u64)
    ensures
        final(out)@ == old(out)@ + hex16_chars(n),
{
    out.append(hex_digit_str(n >> 60u64));
    out.append(hex_digit_str(n >> 56u64));
    out.append(hex_digit_str(n >> 52u64));
    out.append(hex_digit_str(n >> 48u64));
    out.append(hex_digit_str(n >> 44u64));
    out.append(hex_digit_str(n >> 40u64));
    out.append(hex_digit_str(n >> 36u64));
    out.append(hex_digit_str(n >> 32u64));
    out.append(hex_digit_str(n >> 28u64));
    out.append(hex_digit_str(n >> 24u64));
    out.append(hex_digit_str(n >> 20u64));
    out.append(hex_digit_str(n >> 16u64));
    out.append(hex_digit_str(n >> 12u64));
    out.append(hex_digit_str(n >> 8u64));
    out.append(hex_digit_str(n >> 4u64));
    out.append(hex_digit_str(n));
    proof {
        assert(out@ =~= old(out)@ + hex16_chars(n));
    }
}

/// The digit value of one character, or nothing where it is no digit.
fn hex_val(c: char) -> (r: Option<u64>)
    ensures
        match r {
            Some(v) => hex_char_value(c) == v && v < 16,
            None => hex_char_value(c) < 0,
        },
{
    proof {
        reveal(hex_char_value);
    }
    if c == '0' {
        Some(0)
    } else if c == '1' {
        Some(1)
    } else if c == '2' {
        Some(2)
    } else if c == '3' {
        Some(3)
    } else if c == '4' {
        Some(4)
    } else if c == '5' {
        Some(5)
    } else if c == '6' {
        Some(6)
    } else if c == '7' {
        Some(7)
    } else if c == '8' {
        Some(8)
    } else if c == '9' {
        Some(9)
    } else if c == 'a' {
        Some(10)
    } else if c == 'b' {
        Some(11)
    } else if c == 'c' {
        Some(12)
    } else if c == 'd' {
        Some(13)
    } else if c == 'e' {
        Some(14)
    } else if c == 'f' {
        Some(15)
    } else {
        None
    }
}

/// Reads sixteen hex characters of `s` starting at `pos`.
pub fn parse_hex16(s: &str, pos: usize) -> (r: Option<(u64, usize)>)
    ensures
        match r {
            Some((n, p)) => parse_hex16_at(s@, pos as int) == Some((n, p as int)) && p == pos + 16,
            None => parse_hex16_at(s@, pos as int) is None,
        },
{
    let len = s.unicode_len();
    if pos > len || len - pos < 16 {
        return None;
    }
    let v0 = match hex_val(s.get_char(pos)) {
        Some(v) => v,
        None => { return None; },
    };
    let v1 = match hex_val(s.get_char(pos + 1)) {
        Some(v) => v,
        None => { return None; },
    };
    let v2 = match hex_val(s.get_char(pos + 2)) {
        Some(v) => v,
        None => { return None; },
    };
    let v3 = match hex_val(s.get_char(pos + 3)) {
        Some(v) => v,
        None => { return None; },
    };
    let v4 = match hex_val(s.get_char(pos + 4)) {
        Some(v) => v,
        None => { return None; },
    };
    let v5 = match hex_val(s.get_char(pos + 5)) {
        Some(v) => v,
        None => { return None; },
    };
    let v6 = match hex_val(s.get_char(pos + 6)) {
        Some(v) => v,
        None => { return None; },
    };
    let v7 = match hex_val(s.get_char(pos + 7)) {
        Some(v) => v,
        None => { return None; },
    };
    let v8 = match hex_val(s.get_char(pos + 8)) {
        Some(v) => v,
        None => { return None; },
    };
    let v9 = match hex_val(s.get_char(pos + 9)) {
        Some(v) => v,
        None => { return None; },
    };
    let v10 = match hex_val(s.get_char(pos + 10)) {
        Some(v) => v,
        None => { return None; },
    };
    let v11 = match hex_val(s.get_char(pos + 11)) {
        Some(v) => v,
        None => { return None; },
    };
    let v12 = match hex_val(s.get_char(pos + 12)) {
        Some(v) => v,
        None => { return None; },
    };
    let v13 = match hex_val(s.get_char(pos + 13)) {
        Some(v) => v,
        None => { return None; },
    };
    let v14 = match hex_val(s.get_char(pos + 14)) {
        Some(v) => v,
        None => { return None; },
    };
    let v15 = match hex_val(s.get_char(pos + 15)) {
        Some(v) => v,
        None => { return None; },
    };
    let n: u64 = v0 * 0x1000000000000000 + v1 * 0x100000000000000 + v2 * 0x10000000000000 + v3
        * 0x1000000000000 + v4 * 0x100000000000 + v5 * 0x10000000000 + v6 * 0x1000000000 + v7
        * 0x100000000 + v8 * 0x10000000 + v9 * 0x1000000 + v10 * 0x100000 + v11 * 0x10000 + v12
        * 0x1000 + v13 * 0x100 + v14 * 0x10 + v15;
    Some((n, pos + 16))
}

/// Sixteen written hex characters read back as the number they were written
/// from.
pub proof fn lemma_hex16_round_trip(s: Seq<char>, pos: int, n: u64)
    requires
        0 <= pos,
        pos + 16 <= s.len(),
        s.subrange(pos, pos + 16) == hex16_chars(n),
    ensures
        parse_hex16_at(s, pos) == Some((n, pos + 16)),
{
    assert forall|i: int| 0 <= i < 16 implies s[pos + i] == hex16_chars(n)[i] by {
        assert(s.subrange(pos, pos + 16)[i] == s[pos + i]);
    }
    assert((n >> 60u64) & 0xf < 16 && (n >> 56u64) & 0xf < 16 && (n >> 52u64) & 0xf < 16 && (n
        >> 48u64) & 0xf < 16 && (n >> 44u64) & 0xf < 16 && (n >> 40u64) & 0xf < 16 && (n >> 36u64)
        & 0xf < 16 && (n >> 32u64) & 0xf < 16 && (n >> 28u64) & 0xf < 16 && (n >> 24u64) & 0xf < 16
        && (n >> 20u64) & 0xf < 16 && (n >> 16u64) & 0xf < 16 && (n >> 12u64) & 0xf < 16 && (n
        >> 8u64) & 0xf < 16 && (n >> 4u64) & 0xf < 16 && n & 0xf < 16) by (bit_vector);
    lemma_hex_digit_char_value((n >> 60u64) & 0xf);
    lemma_hex_digit_char_value((n >> 56u64) & 0xf);
    lemma_hex_digit_char_value((n >> 52u64) & 0xf);
    lemma_hex_digit_char_value((n >> 48u64) & 0xf);
    lemma_hex_digit_char_value((n >> 44u64) & 0xf);
    lemma_hex_digit_char_value((n >> 40u64) & 0xf);
    lemma_hex_digit_char_value((n >> 36u64) & 0xf);
    lemma_hex_digit_char_value((n >> 32u64) & 0xf);
    lemma_hex_digit_char_value((n >> 28u64) & 0xf);
    lemma_hex_digit_char_value((n >> 24u64) & 0xf);
    lemma_hex_digit_char_value((n >> 20u64) & 0xf);
    lemma_hex_digit_char_value((n >> 16u64) & 0xf);
    lemma_hex_digit_char_value((n >> 12u64) & 0xf);
    lemma_hex_digit_char_value((n >> 8u64) & 0xf);
    lemma_hex_digit_char_value((n >> 4u64) & 0xf);
    lemma_hex_digit_char_value(n & 0xf);
    assert(((n >> 60u64) & 0xf) * 0x1000000000000000 + ((n >> 56u64) & 0xf) * 0x100000000000000 + (
    (n >> 52u64) & 0xf) * 0x10000000000000 + ((n >> 48u64) & 0xf) * 0x1000000000000 + ((n >> 44u64)
        & 0xf) * 0x100000000000 + ((n >> 40u64) & 0xf) * 0x10000000000 + ((n >> 36u64) & 0xf)
        * 0x1000000000 + ((n >> 32u64) & 0xf) * 0x100000000 + ((n >> 28u64) & 0xf) * 0x10000000 + (
    (n >> 24u64) & 0xf) * 0x1000000 + ((n >> 20u64) & 0xf) * 0x100000 + ((n >> 16u64) & 0xf)
        * 0x10000 + ((n >> 12u64) & 0xf) * 0x1000 + ((n >> 8u64) & 0xf) * 0x100 + ((n >> 4u64)
        & 0xf) * 0x10 + (n & 0xf) == n) by (bit_vector);
}

/// The hex characters of a byte sequence, two per byte, high nibble first.
pub open spec fn hex_of_bytes(bs: Seq<u8>) -> Seq<char> {
    Seq::new(
        2 * bs.len(),
        |i: int|
            if i % 2 == 0 {
                hex_digit_char(((bs[i / 2] as u64) >> 4u64) & 0xf)
            } else {
                hex_digit_char((bs[i / 2] as u64) & 0xf)
            },
    )
}

/// Renders a byte sequence as lower-case hex text.
pub fn bytes_to_hex(bs: &Vec<u8>) -> (r: String)
    ensures
        r@ == hex_of_bytes(bs@),
        r@.len() == 2 * bs@.len(),
{
    let mut out = String::new();
    let mut i: usize = 0;
    while i < bs.len()
        invariant
            i <= bs@.len(),
            out@ =~= hex_of_bytes(bs@).subrange(0, 2 * i as int),
        decreases bs@.len() - i,
    {
        let b = bs[i];
        out.append(hex_digit_str((b as u64) >> 4u64));
        out.append(hex_digit_str(b as u64));
        proof {
            assert(out@ =~= hex_of_bytes(bs@).subrange(0, 2 * (i + 1) as int));
        }
        i = i + 1;
    }
    proof {
        assert(out@ =~= hex_of_bytes(bs@));
    }
    out
}

} // verus!
