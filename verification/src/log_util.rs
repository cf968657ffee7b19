//! Smol utilities for logging.

use vstd::prelude::*;

verus! {

/// The escape of one byte, as the characters a log line shows: tab,
/// carriage return, line feed, backslash and both quotes get a backslash
/// escape; other printable ASCII passes through; everything else becomes
/// a two-digit hex escape.
pub open spec fn escape_byte(b: u8) -> Seq<char> {
    if b == 0x09 {
        seq!['\\', 't']
    } else if b == 0x0d {
        seq!['\\', 'r']
    } else if b == 0x0a {
        seq!['\\', 'n']
    } else if b == 0x5c {
        seq!['\\', '\\']
    } else if b == 0x27 {
        seq!['\\', '\'']
    } else if b == 0x22 {
        seq!['\\', '"']
    } else if 0x20 <= b && b <= 0x7e {
        seq![b as char]
    } else {
        seq!['\\', 'x', hex_char((b / 16) as int), hex_char((b % 16) as int)]
    }
}

/// One lowercase hex digit, as a character.
pub open spec fn hex_char(d: int) -> char
    recommends
        0 <= d < 16,
{
    if d < 10 {
        ((0x30 + d) as u8) as char
    } else {
        ((0x57 + d) as u8) as char
    }
}

/// The escapes of every byte, in order.
pub open spec fn escape_bytes(s: Seq<u8>) -> Seq<char>
    decreases s.len(),
{
    if s.len() == 0 {
        Seq::empty()
    } else {
        escape_byte(s[0]) + escape_bytes(s.skip(1))
    }
}

/// Make an ASCII-safe string.
pub fn ascii_escape(s: &[u8]) -> (r: String)
    ensures
        r@ == escape_bytes(s@),
{
    let n = s.len();
    let mut out: Vec<char> = Vec::new();
    let mut i: usize = 0;
    proof {
        assert(s@.skip(0) =~= s@);
        assert(out@ =~= Seq::<char>::empty());
    }
    while i < n
        invariant
            i <= n,
            n == s@.len(),
            escape_bytes(s@) == out@ + escape_bytes(s@.skip(i as int)),
        decreases n - i,
    {
        let b = s[i];
        proof {
            assert(s@.skip(i as int)[0] == s@[i as int]);
            assert(s@.skip(i as int).skip(1) =~= s@.skip(i + 1));
        }
        let ghost before = out@;
        if b == 0x09 {
            out.push('\\');
            out.push('t');
        } else if b == 0x0d {
            out.push('\\');
            out.push('r');
        } else if b == 0x0a {
            out.push('\\');
            out.push('n');
        } else if b == 0x5c {
            out.push('\\');
            out.push('\\');
        } else if b == 0x27 {
            out.push('\\');
            out.push('\'');
        } else if b == 0x22 {
            out.push('\\');
            out.push('"');
        } else if 0x20 <= b && b <= 0x7e {
            out.push(b as char);
        } else {
            out.push('\\');
            out.push('x');
            let hi = b / 16;
            let lo = b % 16;
            out.push(
                (if hi < 10 {
                    0x30 + hi
                } else {
                    0x57 + hi
                }) as char,
            );
            out.push(
                (if lo < 10 {
                    0x30 + lo
                } else {
                    0x57 + lo
                }) as char,
            );
        }
        proof {
            assert(out@ =~= before + escape_byte(s@[i as int]));
            assert(before + (escape_byte(s@[i as int]) + escape_bytes(s@.skip(i + 1))) =~= (before
                + escape_byte(s@[i as int])) + escape_bytes(s@.skip(i + 1)));
        }
        i = i + 1;
    }
    proof {
        assert(s@.skip(n as int) =~= Seq::<u8>::empty());
        assert(out@ + Seq::<char>::empty() =~= out@);
    }
    crate::headers::chars_to_string(&out)
}

} // verus!
