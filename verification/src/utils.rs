//! Small formatting helpers: a hex dump of a byte buffer and a rounded,
//! human-readable byte size.

use vstd::prelude::*;
use vstd::string::StringExecFns;

verus! {

/// The lower-case hex digit of a value below sixteen.
pub open spec fn hex_char(n: u8) -> char {
    if n == 0 {
        '0'
    } else if n == 1 {
        '1'
    } else if n == 2 {
        '2'
    } else if n == 3 {
        '3'
    } else if n == 4 {
        '4'
    } else if n == 5 {
        '5'
    } else if n == 6 {
        '6'
    } else if n == 7 {
        '7'
    } else if n == 8 {
        '8'
    } else if n == 9 {
        '9'
    } else if n == 10 {
        'a'
    } else if n == 11 {
        'b'
    } else if n == 12 {
        'c'
    } else if n == 13 {
        'd'
    } else if n == 14 {
        'e'
    } else {
        'f'
    }
}

/// The decimal digits of a non-negative number, most significant first.
pub open spec fn dec_chars(n: int) -> Seq<char>
    decreases n,
{
    if n < 10 {
        seq![hex_char(n as u8)]
    } else {
        dec_chars(n / 10).push(hex_char((n % 10) as u8))
    }
}

/// One byte as `0x` and two hex digits.
pub open spec fn byte_hex(b: u8) -> Seq<char> {
    seq!['0', 'x', hex_char(b / 16), hex_char(b % 16)]
}

/// The bytes from position `i` on, comma-separated, each in hex.
pub open spec fn bytes_list_from(s: Seq<u8>, i: int) -> Seq<char>
    decreases s.len() - i,
{
    if i < 0 || i >= s.len() {
        Seq::empty()
    } else if i == s.len() - 1 {
        byte_hex(s[i])
    } else {
        byte_hex(s[i]) + seq![',', ' '] + bytes_list_from(s, i + 1)
    }
}

/// The whole hex dump: the comma-separated bytes in brackets.
pub open spec fn format_bytes_chars(s: Seq<u8>) -> Seq<char> {
    seq!['['] + bytes_list_from(s, 0) + seq![']']
}

/// The hex digit of a value below sixteen.
fn hex_digit_str(n: u8) -> (r: &'static str)
    requires
        n < 16,
    ensures
        r@ == seq![hex_char(n)],
{
    proof {
        reveal_strlit("0");
        reveal_strlit("1");
        reveal_strlit("2");
        reveal_strlit("3");
        reveal_strlit("4");
        reveal_strlit("5");
        reveal_strlit("6");
        reveal_strlit("7");
        reveal_strlit("8");
        reveal_strlit("9");
        reveal_strlit("a");
        reveal_strlit("b");
        reveal_strlit("c");
        reveal_strlit("d");
        reveal_strlit("e");
        reveal_strlit("f");
    }
    if n == 0 {
        "0"
    } else if n == 1 {
        "1"
    } else if n == 2 {
        "2"
    } else if n == 3 {
        "3"
    } else if n == 4 {
        "4"
    } else if n == 5 {
        "5"
    } else if n == 6 {
        "6"
    } else if n == 7 {
        "7"
    } else if n == 8 {
        "8"
    } else if n == 9 {
        "9"
    } else if n == 10 {
        "a"
    } else if n == 11 {
        "b"
    } else if n == 12 {
        "c"
    } else if n == 13 {
        "d"
    } else if n == 14 {
        "e"
    } else {
        "f"
    }
}

/// One byte as `0x` and two hex digits.
fn byte_hex_str(b: u8) -> (r: String)
    ensures
        r@ == byte_hex(b),
{
    proof {
        reveal_strlit("0x");
    }
    let mut s = String::from_str("0x");
    s.append(hex_digit_str(b / 16));
    s.append(hex_digit_str(b % 16));
    proof {
        assert(s@ =~= byte_hex(b));
    }
    s
}

/// The comma-separated bytes from position `i` on.
fn bytes_list(bytes: &[u8], i: usize) -> (r: String)
    ensures
        r@ == bytes_list_from(bytes@, i as int),
    decreases bytes@.len() - i,
{
    if i >= bytes.len() {
        String::new()
    } else if i + 1 == bytes.len() {
        byte_hex_str(bytes[i])
    } else {
        proof {
            reveal_strlit(", ");
        }
        let mut s = byte_hex_str(bytes[i]);
        s.append(", ");
        let rest = bytes_list(bytes, i + 1);
        s.append(rest.as_str());
        proof {
            assert(s@ =~= bytes_list_from(bytes@, i as int));
        }
        s
    }
}

/// A hex dump of a byte buffer: `[0x60, 0x10, …]`.
pub fn format_bytes(bytes: &[u8]) -> (r: String)
    ensures
        r@ == format_bytes_chars(bytes@),
{
    proof {
        reveal_strlit("[");
        reveal_strlit("]");
    }
    let mut s = String::from_str("[");
    let inner = bytes_list(bytes, 0);
    s.append(inner.as_str());
    s.append("]");
    proof {
        assert(s@ =~= format_bytes_chars(bytes@));
    }
    s
}

/// The decimal digits of a number.
fn dec_str(n: u64) -> (r: String)
    ensures
        r@ == dec_chars(n as int),
    decreases n,
{
    if n < 10 {
        String::from_str(hex_digit_str(n as u8))
    } else {
        let mut s = dec_str(n / 10);
        s.append(hex_digit_str((n % 10) as u8));
        proof {
            assert(s@ =~= dec_chars(n as int));
        }
        s
    }
}

/// The unit a byte count is shown in: none below one kibibyte, then each
/// factor of 1024 one step up, capped at terabytes.
pub open spec fn size_unit(n: int) -> int {
    if n < 1024 {
        0
    } else if n < 0x100000 {
        1
    } else if n < 0x40000000 {
        2
    } else if n < 0x10000000000 {
        3
    } else {
        4
    }
}

pub open spec fn size_unit_chars(u: int) -> Seq<char> {
    if u == 0 {
        seq![' ', 'B']
    } else if u == 1 {
        seq![' ', 'K', 'B']
    } else if u == 2 {
        seq![' ', 'M', 'B']
    } else if u == 3 {
        seq![' ', 'G', 'B']
    } else {
        seq![' ', 'T', 'B']
    }
}

/// The divisor of each unit.
pub open spec fn size_unit_div(u: int) -> int {
    if u == 0 {
        1
    } else if u == 1 {
        1024
    } else if u == 2 {
        0x100000
    } else if u == 3 {
        0x40000000
    } else {
        0x10000000000
    }
}

/// A byte count rounded to its unit: a bare count below one kibibyte, above
/// that the count in its unit with one decimal, rounded half up.
pub open spec fn format_byte_size_chars(n: int) -> Seq<char> {
    if size_unit(n) == 0 {
        dec_chars(n) + size_unit_chars(0)
    } else {
        let d = size_unit_div(size_unit(n));
        let tenths = (n * 10 + d / 2) / d;
        dec_chars(tenths / 10) + seq!['.'] + seq![hex_char((tenths % 10) as u8)]
            + size_unit_chars(size_unit(n))
    }
}

/// A human-readable byte size: `999 B`, `1.5 KB`, `2.0 MB`, and so on, the
/// fraction rounded half up.
pub fn format_byte_size(bytes: usize) -> (r: String)
    ensures
        r@ == format_byte_size_chars(bytes as int),
{
    proof {
        reveal_strlit(" B");
        reveal_strlit(" KB");
        reveal_strlit(" MB");
        reveal_strlit(" GB");
        reveal_strlit(" TB");
        reveal_strlit(".");
    }
    let n = bytes as u64;
    if n < 1024 {
        let mut s = dec_str(n);
        s.append(" B");
        proof {
            assert(s@ =~= format_byte_size_chars(bytes as int));
        }
        s
    } else {
        let (d, unit): (u64, &'static str) = if n < 0x100000 {
            (1024, " KB")
        } else if n < 0x40000000 {
            (0x100000, " MB")
        } else if n < 0x10000000000 {
            (0x40000000, " GB")
        } else {
            (0x10000000000, " TB")
        };
        let tenths = (((n as u128) * 10 + (d / 2) as u128) / (d as u128)) as u64;
        proof {
            assert((n as int * 10 + size_unit_div(size_unit(n as int)) / 2) / size_unit_div(
                size_unit(n as int),
            ) < 0x10000000000000000) by (nonlinear_arith)
                requires
                    1024 <= n < 0x10000000000000000,
                    size_unit_div(size_unit(n as int)) >= 1024,
            ;
        }
        let mut s = dec_str(tenths / 10);
        s.append(".");
        s.append(hex_digit_str((tenths % 10) as u8));
        s.append(unit);
        proof {
            assert(s@ =~= format_byte_size_chars(bytes as int));
        }
        s
    }
}

} // verus!
