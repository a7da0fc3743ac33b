//! Small formatting utilities.

use vstd::prelude::*;
use vstd::string::StringExecFns;

verus! {

/// The uppercase hexadecimal digit for a value below sixteen.
pub open spec fn hex_char(d: int) -> char {
    if d == 0 {
        '0'
    } else if d == 1 {
        '1'
    } else if d == 2 {
        '2'
    } else if d == 3 {
        '3'
    } else if d == 4 {
        '4'
    } else if d == 5 {
        '5'
    } else if d == 6 {
        '6'
    } else if d == 7 {
        '7'
    } else if d == 8 {
        '8'
    } else if d == 9 {
        '9'
    } else if d == 10 {
        'A'
    } else if d == 11 {
        'B'
    } else if d == 12 {
        'C'
    } else if d == 13 {
        'D'
    } else if d == 14 {
        'E'
    } else {
        'F'
    }
}

/// The two hexadecimal digits of one byte.
pub open spec fn spec_byte_hex(b: u8) -> Seq<char> {
    seq![hex_char(b as int / 16), hex_char(b as int % 16)]
}

/// The hexadecimal dump of a byte run: two digits per byte, bytes joined by
/// single spaces.
pub open spec fn spec_hex_bytes(bytes: Seq<u8>) -> Seq<char>
    decreases bytes.len(),
{
    if bytes.len() == 0 {
        Seq::empty()
    } else if bytes.len() == 1 {
        spec_byte_hex(bytes[0])
    } else {
        spec_byte_hex(bytes[0]) + seq![' '] + spec_hex_bytes(bytes.drop_first())
    }
}

/// The hexadecimal dump of a buffer: lines of up to 32 bytes each, joined
/// by newlines.
pub open spec fn spec_hexdump(bytes: Seq<u8>) -> Seq<char>
    decreases bytes.len(),
{
    if bytes.len() == 0 {
        Seq::empty()
    } else if bytes.len() <= 32 {
        spec_hex_bytes(bytes)
    } else {
        spec_hex_bytes(bytes.take(32)) + seq!['\n'] + spec_hexdump(bytes.skip(32))
    }
}

/// The uppercase hexadecimal digit of a value below sixteen.
fn hex_char_str(d: u8) -> (r: &'static str)
    requires
        d < 16,
    ensures
        r@ == seq![hex_char(d as int)],
{
    proof {
        reveal_strlit("0");
        reveal_strlit("1");
        reveal_strlit("2");
        reveal_strlit("3");
        reveal_strlit("4");
        reveal_strlit("5");
        reveal_strlit("6");
        reveal_strlit("7");
        reveal_strlit("8");
        reveal_strlit("9");
        reveal_strlit("A");
        reveal_strlit("B");
        reveal_strlit("C");
        reveal_strlit("D");
        reveal_strlit("E");
        reveal_strlit("F");
    }
    match d {
        0 => "0",
        1 => "1",
        2 => "2",
        3 => "3",
        4 => "4",
        5 => "5",
        6 => "6",
        7 => "7",
        8 => "8",
        9 => "9",
        10 => "A",
        11 => "B",
        12 => "C",
        13 => "D",
        14 => "E",
        _ => "F",
    }
}

/// Print a hexadecimal dump of a buffer in memory: two uppercase digits per
/// byte, bytes joined by spaces, 32 bytes to a line.
pub fn hexdump(buf: &[u8]) -> (r: String)
    ensures
        r@ == spec_hexdump(buf@),
{
    let n = buf.len();
    let mut out = String::new();
    let mut i: usize = 0;
    proof {
        assert(out@ =~= spec_hexdump(buf@.take(0)));
    }
    while i < n
        invariant
            i <= n,
            n == buf@.len(),
            out@ == spec_hexdump(buf@.take(i as int)),
        decreases n - i,
    {
        let ghost before = buf@.take(i as int);
        proof {
            reveal_strlit(" ");
            reveal_strlit("\n");
        }
        if i > 0 {
            if i % 32 == 0 {
                out.append("\n");
            } else {
                out.append(" ");
            }
        }
        let b = buf[i];
        out.append(hex_char_str(b / 16));
        out.append(hex_char_str(b % 16));
        proof {
            lemma_hexdump_step(buf@, i as int);
            assert(out@ =~= spec_hexdump(buf@.take(i as int + 1)));
        }
        i += 1;
    }
    proof {
        assert(buf@.take(n as int) =~= buf@);
    }
    out
}

/// Extending a dump by one byte appends its separator and digits.
proof fn lemma_hexdump_step(bytes: Seq<u8>, i: int)
    requires
        0 <= i < bytes.len(),
    ensures
        i == 0 ==> spec_hexdump(bytes.take(1)) =~= spec_byte_hex(bytes[0]),
        i > 0 && i % 32 == 0 ==> spec_hexdump(bytes.take(i + 1)) =~= spec_hexdump(bytes.take(i))
            + seq!['\n'] + spec_byte_hex(bytes[i]),
        i > 0 && i % 32 != 0 ==> spec_hexdump(bytes.take(i + 1)) =~= spec_hexdump(bytes.take(i))
            + seq![' '] + spec_byte_hex(bytes[i]),
    decreases i,
{
    let cur = bytes.take(i + 1);
    let prev = bytes.take(i);
    if i == 0 {
        assert(cur.len() == 1);
        assert(cur[0] == bytes[0]);
    } else if i < 32 {
        lemma_hex_bytes_step(bytes, i);
        assert(spec_hexdump(cur) == spec_hex_bytes(cur));
        assert(spec_hexdump(prev) == spec_hex_bytes(prev));
    } else if i == 32 {
        assert(cur.take(32) =~= prev);
        assert(cur.skip(32) =~= seq![bytes[32]]);
        assert(spec_hexdump(cur) == spec_hex_bytes(prev) + seq!['\n'] + spec_hexdump(
            seq![bytes[32]],
        ));
        assert(spec_hexdump(seq![bytes[32]]) =~= spec_byte_hex(bytes[32])) by {
            assert(seq![bytes[32]][0] == bytes[32]);
        }
        assert(spec_hexdump(prev) == spec_hex_bytes(prev));
    } else {
        assert(cur.take(32) =~= bytes.take(32));
        assert(prev.take(32) =~= bytes.take(32));
        assert(cur.skip(32) =~= bytes.skip(32).take(i + 1 - 32));
        assert(prev.skip(32) =~= bytes.skip(32).take(i - 32));
        lemma_hexdump_step(bytes.skip(32), i - 32);
        assert(bytes.skip(32)[i - 32] == bytes[i]);
        assert((i - 32) % 32 == i % 32) by {
            vstd::arithmetic::div_mod::lemma_mod_sub_multiples_vanish(i, 32);
        }
    }
}

/// Extending a byte run by one byte appends a space and its digits.
proof fn lemma_hex_bytes_step(bytes: Seq<u8>, i: int)
    requires
        0 < i < bytes.len(),
    ensures
        spec_hex_bytes(bytes.take(i + 1)) =~= spec_hex_bytes(bytes.take(i)) + seq![' ']
            + spec_byte_hex(bytes[i]),
    decreases i,
{
    let cur = bytes.take(i + 1);
    let prev = bytes.take(i);
    if i == 1 {
        assert(cur.len() == 2);
        assert(cur.drop_first() =~= seq![bytes[1]]);
        assert(spec_hex_bytes(seq![bytes[1]]) =~= spec_byte_hex(bytes[1])) by {
            assert(seq![bytes[1]][0] == bytes[1]);
        }
        assert(prev.len() == 1);
        assert(prev[0] == bytes[0]);
        assert(cur[0] == bytes[0]);
    } else {
        lemma_hex_bytes_step(bytes.drop_first(), i - 1);
        assert(cur.drop_first() =~= bytes.drop_first().take(i));
        assert(prev.drop_first() =~= bytes.drop_first().take(i - 1));
        assert(bytes.drop_first()[i - 1] == bytes[i]);
        assert(cur[0] == bytes[0]);
        assert(prev[0] == bytes[0]);
    }
}

} // verus!
