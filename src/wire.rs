//! The wire form of a payload: its UTF-8 bytes followed by one terminator.
use vstd::prelude::*;
use vstd::string::StringSliceAdditionalSpecFns;
use vstd::utf8::{
    char_is_scalar, char_u32_cast, encode_scalar, encode_utf8, has_width_1_encoding, is_scalar,
};

verus! {

/// The terminator that ends every buffer on the wire.
pub const TERMINATOR: u8 = 0;

/// The bytes hold a terminator, which the wire form cannot carry inside a
/// payload.
pub open spec fn has_terminator(bytes: Seq<u8>) -> bool {
    exists|i: int| 0 <= i < bytes.len() && bytes[i] == TERMINATOR
}

/// The wire form of payload bytes that hold no terminator.
pub open spec fn wire_of(bytes: Seq<u8>) -> Seq<u8> {
    bytes.push(TERMINATOR)
}

proof fn lemma_scalar_terminator(v: u32)
    requires
        is_scalar(v),
    ensures
        has_terminator(encode_scalar(v)) <==> v == 0,
{
    let e = encode_scalar(v);
    assert(forall|y: u8| #![auto] (0x80u8 | y) >= 0x80) by (bit_vector);
    if has_width_1_encoding(v) {
        assert((v & 0x7F) as u8 == 0 <==> v == 0) by (bit_vector)
            requires
                v <= 0x7F,
        ;
        assert(e.len() == 1 && e[0] == (v & 0x7F) as u8);
    } else {
        assert(forall|y: u8| #![auto] (0xC0u8 | y) >= 0x80) by (bit_vector);
        assert(forall|y: u8| #![auto] (0xE0u8 | y) >= 0x80) by (bit_vector);
        assert(forall|y: u8| #![auto] (0xF0u8 | y) >= 0x80) by (bit_vector);
        assert(forall|i: int| 0 <= i < e.len() ==> e[i] >= 0x80);
    }
}

/// Text holds a terminator byte in its UTF-8 form exactly when it holds the
/// terminator character.
pub proof fn lemma_terminator_byte_iff_char(chars: Seq<char>)
    ensures
        has_terminator(encode_utf8(chars)) <==> chars.contains('\0'),
    decreases chars.len(),
{
    if chars.len() > 0 {
        let rest = chars.drop_first();
        lemma_terminator_byte_iff_char(rest);
        char_is_scalar(chars[0]);
        char_u32_cast(chars[0], chars[0] as u32);
        assert('\0' as u32 == 0);
        assert(chars[0] as u32 == 0 <==> chars[0] == '\0');
        lemma_scalar_terminator(chars[0] as u32);
        let head = encode_scalar(chars[0] as u32);
        let tail = encode_utf8(rest);
        assert(encode_utf8(chars) == head + tail);
        if has_terminator(head + tail) {
            let i = choose|i: int| 0 <= i < (head + tail).len() && (head + tail)[i] == TERMINATOR;
            if i >= head.len() {
                assert(tail[i - head.len()] == TERMINATOR);
            }
        }
        if has_terminator(head) {
            let i = choose|i: int| 0 <= i < head.len() && head[i] == TERMINATOR;
            assert((head + tail)[i] == TERMINATOR);
        }
        if has_terminator(tail) {
            let i = choose|i: int| 0 <= i < tail.len() && tail[i] == TERMINATOR;
            assert((head + tail)[head.len() + i] == TERMINATOR);
        }
        if chars.contains('\0') {
            let i = choose|i: int| 0 <= i < chars.len() && chars[i] == '\0';
            if i > 0 {
                assert(rest[i - 1] == '\0');
            }
        }
        if rest.contains('\0') {
            let i = choose|i: int| 0 <= i < rest.len() && rest[i] == '\0';
            assert(chars[i + 1] == '\0');
        }
    }
}

/// Encodes `payload` for the wire: `None` if the payload holds a terminator,
/// else its bytes followed by one terminator.
pub fn encode_wire(payload: &str) -> (r: Option<Vec<u8>>)
    ensures
        r is None <==> payload@.contains('\0'),
        match r {
            Some(w) => !has_terminator(payload.spec_bytes()) && w@ == wire_of(
                payload.spec_bytes(),
            ),
            None => has_terminator(payload.spec_bytes()),
        },
{
    proof {
        lemma_terminator_byte_iff_char(payload@);
        assert(payload.spec_bytes() == encode_utf8(payload@));
    }
    let bytes = payload.as_bytes();
    let mut out: Vec<u8> = Vec::new();
    let mut i: usize = 0;
    while i < bytes.len()
        invariant
            bytes@ == payload.spec_bytes(),
            has_terminator(payload.spec_bytes()) <==> payload@.contains('\0'),
            i <= bytes@.len(),
            out@ == bytes@.subrange(0, i as int),
            forall|j: int| 0 <= j < i ==> bytes@[j] != TERMINATOR,
        decreases bytes@.len() - i,
    {
        if bytes[i] == TERMINATOR {
            assert(has_terminator(payload.spec_bytes())) by {
                assert(payload.spec_bytes()[i as int] == TERMINATOR);
            }
            return None;
        }
        out.push(bytes[i]);
        i = i + 1;
        proof {
            assert(out@ == bytes@.subrange(0, i as int));
        }
    }
    out.push(TERMINATOR);
    proof {
        assert(bytes@.subrange(0, bytes@.len() as int) == bytes@);
    }
    Some(out)
}

} // verus!
