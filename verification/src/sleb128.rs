//! Signed LEB128, the variable-length integer encoding of WebAssembly.
use vstd::prelude::*;

verus! {

/// The signed LEB128 encoding of `v`: seven bits per byte, least significant
/// group first, the high bit set on every byte but the last, and as few bytes
/// as the sign bit (bit 6 of the last byte) allows.
pub open spec fn sleb128(v: int) -> Seq<u8>
    decreases (if v >= 0 { v } else { -v }),
{
    let low = v % 128;
    let rest = v / 128;
    if (rest == 0 && low < 64) || (rest == -1 && low >= 64) {
        seq![low as u8]
    } else {
        seq![(low + 128) as u8] + sleb128(rest)
    }
}

/// The integer that a signed LEB128 encoding at the front of `bytes` stands for
/// (bytes after the first one without the high bit are not read).
pub open spec fn sleb128_decode(bytes: Seq<u8>) -> int
    decreases bytes.len(),
{
    if bytes.len() == 0 {
        0
    } else if bytes[0] < 128 {
        if bytes[0] < 64 {
            bytes[0] as int
        } else {
            bytes[0] - 128
        }
    } else {
        (bytes[0] - 128) + 128 * sleb128_decode(bytes.drop_first())
    }
}

/// Decoding an encoding gives the value back, whatever bytes follow it.
pub proof fn lemma_sleb128_roundtrip(v: int, rest: Seq<u8>)
    ensures
        sleb128_decode(sleb128(v) + rest) == v,
    decreases (if v >= 0 { v } else { -v }),
{
    let low = v % 128;
    let r = v / 128;
    let s = sleb128(v) + rest;
    if (r == 0 && low < 64) || (r == -1 && low >= 64) {
        assert(s[0] == low as u8);
    } else {
        lemma_sleb128_roundtrip(r, rest);
        assert(s.drop_first() =~= sleb128(r) + rest);
    }
}

/// Every byte of an encoding but the last has the high bit set; the last has it
/// clear. An `i32` takes one to five bytes.
pub proof fn lemma_sleb128_shape(v: int)
    ensures
        sleb128(v).len() >= 1,
        forall|i: int| 0 <= i < sleb128(v).len() - 1 ==> #[trigger] sleb128(v)[i] >= 128,
        sleb128(v).last() < 128,
        i32::MIN <= v <= i32::MAX ==> sleb128(v).len() <= 5,
    decreases (if v >= 0 { v } else { -v }),
{
    let low = v % 128;
    let r = v / 128;
    if (r == 0 && low < 64) || (r == -1 && low >= 64) {
    } else {
        lemma_sleb128_shape(r);
        let t = sleb128(r);
        assert forall|i: int| 0 <= i < sleb128(v).len() - 1 implies #[trigger] sleb128(v)[i]
            >= 128 by {
            if i > 0 {
                assert(sleb128(v)[i] == t[i - 1]);
            }
        }
        if i32::MIN <= v <= i32::MAX {
            lemma_sleb128_len_bound(v);
        }
    }
}

/// An `i32` takes at most five bytes: four divisions by 128 bring it into `[-64, 64)`.
proof fn lemma_sleb128_len_bound(v: int)
    requires
        i32::MIN <= v <= i32::MAX,
    ensures
        sleb128(v).len() <= 5,
{
    let r1 = v / 128;
    let r2 = r1 / 128;
    let r3 = r2 / 128;
    let r4 = r3 / 128;
    assert(-64 <= r4 < 64);
    reveal_with_fuel(sleb128, 5);
}

/// Appends the signed LEB128 encoding of `val` to `vec`.
pub fn write_sleb128(vec: &mut Vec<u8>, val: i32)
    ensures
        final(vec)@ == old(vec)@ + sleb128(val as int),
{
    let ghost orig = val as int;
    let mut val = val;
    loop
        invariant_except_break
            old(vec)@ + sleb128(orig) == vec@ + sleb128(val as int),
        ensures
            vec@ == old(vec)@ + sleb128(orig),
        decreases (if val >= 0 { val as int } else { -(val as int) }),
    {
        let ghost v = val as int;
        let byte = (val & 0x7F) as u8;
        proof {
            let w = val;
            assert((w >> 7u32) * 128 + (w & 0x7F) == w && 0 <= (w & 0x7F) < 128) by (bit_vector);
            assert(byte as int == v % 128);
            assert((val >> 7u32) as int == v / 128);
        }
        val >>= 7;
        if (val == 0 && (byte & 0x40) == 0) || (val == -1 && (byte & 0x40) != 0) {
            proof {
                let b = byte;
                assert(b < 128 ==> ((b & 0x40) == 0 <==> b < 64)) by (bit_vector);
                assert(sleb128(v) =~= seq![byte]);
            }
            vec.push(byte);
            break;
        } else {
            proof {
                let b = byte;
                assert(b < 128 ==> ((b & 0x40) == 0 <==> b < 64)) by (bit_vector);
                assert(b < 128 ==> (b | 0x80) == b + 128) by (bit_vector);
            }
            let ghost before = vec@;
            vec.push(byte | 0x80);
            assert(vec@ + sleb128(val as int) =~= before + sleb128(v));
        }
    }
}

} // verus!
