//! Deterministic synthetic identities. Error entries and derived content get
//! a guid computed as an FNV-1a digest of their discriminating fields,
//! rendered as sixteen upper-case hex digits. Determinism within a round is
//! the requirement; cryptographic strength is not.

use vstd::prelude::*;
use vstd::string::StringExecFns;
use vstd::utf8::encode_utf8;

verus! {

pub const FNV_OFFSET: u64 = 0xcbf29ce484222325;

pub const FNV_PRIME: u64 = 0x100000001b3;

/// One FNV-1a step: fold a byte into the running digest.
pub open spec fn fnv_byte(h: u64, b: u8) -> u64 {
    (h ^ (b as u64)).wrapping_mul(FNV_PRIME)
}

/// Fold a byte sequence into the running digest, left to right.
pub open spec fn fnv_bytes(h: u64, s: Seq<u8>) -> u64
    decreases s.len(),
{
    if s.len() == 0 {
        h
    } else {
        fnv_byte(fnv_bytes(h, s.drop_last()), s.last())
    }
}

/// Fold a 64-bit value into the digest, least-significant byte first.
pub open spec fn fnv_u64(h: u64, x: u64) -> u64 {
    let h0 = fnv_byte(h, (x & 0xFF) as u8);
    let h1 = fnv_byte(h0, ((x >> 8) & 0xFF) as u8);
    let h2 = fnv_byte(h1, ((x >> 16) & 0xFF) as u8);
    let h3 = fnv_byte(h2, ((x >> 24) & 0xFF) as u8);
    let h4 = fnv_byte(h3, ((x >> 32) & 0xFF) as u8);
    let h5 = fnv_byte(h4, ((x >> 40) & 0xFF) as u8);
    let h6 = fnv_byte(h5, ((x >> 48) & 0xFF) as u8);
    fnv_byte(h6, ((x >> 56) & 0xFF) as u8)
}

/// Hex digit for a nibble, upper case.
pub open spec fn nibble_char(n: u8) -> char {
    if n == 0 {
        '0'
    } else if n == 1 {
        '1'
    } else if n == 2 {
        '2'
    } else if n == 3 {
        '3'
    } else if n == 4 {
        '4'
    } else if n == 5 {
        '5'
    } else if n == 6 {
        '6'
    } else if n == 7 {
        '7'
    } else if n == 8 {
        '8'
    } else if n == 9 {
        '9'
    } else if n == 10 {
        'A'
    } else if n == 11 {
        'B'
    } else if n == 12 {
        'C'
    } else if n == 13 {
        'D'
    } else if n == 14 {
        'E'
    } else {
        'F'
    }
}

/// The nibble of `h` at position `i`, most significant first.
pub open spec fn nibble_at(h: u64, i: int) -> u8 {
    ((h >> (((15 - i) * 4) as u64)) & 0xF) as u8
}

/// Sixteen hex digits of a 64-bit digest, most significant first.
pub open spec fn hex64(h: u64) -> Seq<char> {
    Seq::new(16, |i: int| nibble_char(nibble_at(h, i)))
}

/// Digest of a string: FNV-1a over its UTF-8 bytes, as hex digits.
pub open spec fn hash_of(s: Seq<char>) -> Seq<char> {
    hex64(fnv_bytes(FNV_OFFSET, encode_utf8(s)))
}

/// Synthetic identity of a derived entry: a digest of the timestamp and the
/// two discriminating strings, separated so distinct field splits cannot
/// collide on concatenation.
pub open spec fn guid_of(now: i64, title: Seq<char>, msg: Seq<char>) -> Seq<char> {
    let h0 = fnv_u64(FNV_OFFSET, now as u64);
    let h1 = fnv_bytes(h0, encode_utf8(title));
    let h2 = fnv_byte(h1, 0x1F);
    hex64(fnv_bytes(h2, encode_utf8(msg)))
}

fn fnv_byte_x(h: u64, b: u8) -> (r: u64)
    ensures
        r == fnv_byte(h, b),
{
    (h ^ (b as u64)).wrapping_mul(FNV_PRIME)
}

#[verifier::loop_isolation(false)]
fn fnv_bytes_x(h: u64, s: &[u8]) -> (r: u64)
    ensures
        r == fnv_bytes(h, s@),
{
    let mut acc = h;
    let n = s.len();
    for i in 0..n
        invariant
            n == s@.len(),
            acc == fnv_bytes(h, s@.subrange(0, i as int)),
    {
        acc = fnv_byte_x(acc, s[i]);
        proof {
            assert(s@.subrange(0, i + 1).drop_last() =~= s@.subrange(0, i as int));
        }
    }
    proof {
        assert(s@.subrange(0, n as int) =~= s@);
    }
    acc
}

fn fnv_u64_x(h: u64, x: u64) -> (r: u64)
    ensures
        r == fnv_u64(h, x),
{
    let mut acc = h;
    acc = fnv_byte_x(acc, (x & 0xFF) as u8);
    acc = fnv_byte_x(acc, ((x >> 8) & 0xFF) as u8);
    acc = fnv_byte_x(acc, ((x >> 16) & 0xFF) as u8);
    acc = fnv_byte_x(acc, ((x >> 24) & 0xFF) as u8);
    acc = fnv_byte_x(acc, ((x >> 32) & 0xFF) as u8);
    acc = fnv_byte_x(acc, ((x >> 40) & 0xFF) as u8);
    acc = fnv_byte_x(acc, ((x >> 48) & 0xFF) as u8);
    acc = fnv_byte_x(acc, ((x >> 56) & 0xFF) as u8);
    acc
}

fn nibble_str(n: u8) -> (r: &'static str)
    requires
        n < 16,
    ensures
        r@ == seq![nibble_char(n)],
{
    if n == 0 {
        proof {
            reveal_strlit("0");
            assert("0"@ =~= seq![nibble_char(n)]);
        }
        "0"
    } else if n == 1 {
        proof {
            reveal_strlit("1");
            assert("1"@ =~= seq![nibble_char(n)]);
        }
        "1"
    } else if n == 2 {
        proof {
            reveal_strlit("2");
            assert("2"@ =~= seq![nibble_char(n)]);
        }
        "2"
    } else if n == 3 {
        proof {
            reveal_strlit("3");
            assert("3"@ =~= seq![nibble_char(n)]);
        }
        "3"
    } else if n == 4 {
        proof {
            reveal_strlit("4");
            assert("4"@ =~= seq![nibble_char(n)]);
        }
        "4"
    } else if n == 5 {
        proof {
            reveal_strlit("5");
            assert("5"@ =~= seq![nibble_char(n)]);
        }
        "5"
    } else if n == 6 {
        proof {
            reveal_strlit("6");
            assert("6"@ =~= seq![nibble_char(n)]);
        }
        "6"
    } else if n == 7 {
        proof {
            reveal_strlit("7");
            assert("7"@ =~= seq![nibble_char(n)]);
        }
        "7"
    } else if n == 8 {
        proof {
            reveal_strlit("8");
            assert("8"@ =~= seq![nibble_char(n)]);
        }
        "8"
    } else if n == 9 {
        proof {
            reveal_strlit("9");
            assert("9"@ =~= seq![nibble_char(n)]);
        }
        "9"
    } else if n == 10 {
        proof {
            reveal_strlit("A");
            assert("A"@ =~= seq![nibble_char(n)]);
        }
        "A"
    } else if n == 11 {
        proof {
            reveal_strlit("B");
            assert("B"@ =~= seq![nibble_char(n)]);
        }
        "B"
    } else if n == 12 {
        proof {
            reveal_strlit("C");
            assert("C"@ =~= seq![nibble_char(n)]);
        }
        "C"
    } else if n == 13 {
        proof {
            reveal_strlit("D");
            assert("D"@ =~= seq![nibble_char(n)]);
        }
        "D"
    } else if n == 14 {
        proof {
            reveal_strlit("E");
            assert("E"@ =~= seq![nibble_char(n)]);
        }
        "E"
    } else {
        proof {
            reveal_strlit("F");
            assert("F"@ =~= seq![nibble_char(n)]);
        }
        "F"
    }
}

#[verifier::loop_isolation(false)]
fn hex64_x(h: u64) -> (r: String)
    ensures
        r@ == hex64(h),
{
    let mut s = String::new();
    for i in 0..16usize
        invariant
            s@ =~= hex64(h).subrange(0, i as int),
    {
        let shift: u64 = ((15 - i) * 4) as u64;
        let raw = (h >> shift) & 0xF;
        assert(raw < 16) by (bit_vector)
            requires
                raw == (h >> shift) & 0xF,
        ;
        let nib = raw as u8;
        assert(nib == nibble_at(h, i as int));
        s.append(nibble_str(nib));
        proof {
            assert(s@ =~= hex64(h).subrange(0, i + 1));
        }
    }
    proof {
        assert(hex64(h).subrange(0, 16) =~= hex64(h));
    }
    s
}

/// Deterministic digest of a string: the same text always yields the same
/// sixteen hex digits, across rounds and processes.
pub fn hash(data: &str) -> (r: String)
    ensures
        r@ == hash_of(data@),
        r@.len() == 16,
{
    let h = fnv_bytes_x(FNV_OFFSET, data.as_bytes());
    hex64_x(h)
}

/// Synthetic guid for a derived entry; never empty.
pub fn guid_for(now: i64, title: &str, msg: &str) -> (r: String)
    ensures
        r@ == guid_of(now, title@, msg@),
        r@.len() == 16,
{
    let mut h = fnv_u64_x(FNV_OFFSET, now as u64);
    h = fnv_bytes_x(h, title.as_bytes());
    h = fnv_byte_x(h, 0x1F);
    h = fnv_bytes_x(h, msg.as_bytes());
    hex64_x(h)
}

} // verus!
