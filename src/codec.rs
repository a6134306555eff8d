//! The fixed-size wire formats: the 128-byte command frame and the 64-byte
//! value with its metadata tail.

use vstd::prelude::*;

verus! {

/// Length of a key in bytes.
pub const KEY_LEN: usize = 63;

/// Length of a raw value (payload plus metadata tail) in bytes.
pub const VALUE_LEN: usize = 64;

/// Length of the opaque user payload at the front of a raw value.
pub const PAYLOAD_LEN: usize = 56;

/// Length of one command frame in bytes.
pub const FRAME_LEN: usize = 128;

/// The largest creation timestamp the 6-byte field can carry.
pub const MAX_TIMESTAMP: u64 = 0xffff_ffff_ffff;

/// True when every byte of `k` is zero: the reserved, never-stored key.
pub open spec fn is_empty_key(k: Seq<u8>) -> bool {
    forall|i: int| 0 <= i < k.len() ==> k[i] == 0u8
}

/// The opaque payload of a raw value.
pub open spec fn payload_of(raw: Seq<u8>) -> Seq<u8> {
    raw.subrange(0, PAYLOAD_LEN as int)
}

/// The big-endian 48-bit creation timestamp held in bytes 56..62 of a raw value.
pub open spec fn timestamp_field(raw: Seq<u8>) -> int {
    raw[56] * 0x100_0000_0000 + raw[57] * 0x1_0000_0000 + raw[58] * 0x100_0000
        + raw[59] * 0x1_0000 + raw[60] * 0x100 + raw[61]
}

/// The big-endian 16-bit expiration offset held in bytes 62..64 of a raw value.
pub open spec fn offset_field(raw: Seq<u8>) -> int {
    raw[62] * 0x100 + raw[63]
}

/// The opcode of a frame.
pub open spec fn frame_opcode(f: Seq<u8>) -> u8 {
    f[0]
}

/// The key carried by a frame.
pub open spec fn frame_key(f: Seq<u8>) -> Seq<u8> {
    f.subrange(1, 64)
}

/// The raw value carried by a frame.
pub open spec fn frame_value(f: Seq<u8>) -> Seq<u8> {
    f.subrange(64, 128)
}

/// The whole frames at the front of a byte chunk, in order; trailing bytes that do
/// not fill a frame are not a frame.
pub open spec fn chunk_frames(b: Seq<u8>) -> Seq<Seq<u8>> {
    Seq::new((b.len() / 128) as nat, |i: int| b.subrange(128 * i, 128 * i + 128))
}

/// Tells whether a key is the reserved all-zero key.
pub fn is_empty_key_bytes(key: &[u8; 63]) -> (r: bool)
    ensures
        r == is_empty_key(key@),
{
    let mut i: usize = 0;
    while i < KEY_LEN
        invariant
            0 <= i <= KEY_LEN,
            forall|j: int| 0 <= j < i ==> key@[j] == 0u8,
        decreases KEY_LEN - i,
    {
        if key[i] != 0 {
            return false;
        }
        i = i + 1;
    }
    true
}

/// Splits a frame into its opcode, key and raw value. Every 128-byte input is a
/// frame; what the opcode means is left to the dispatcher.
pub fn decode_frame(input: &[u8; 128]) -> (r: (u8, [u8; 63], [u8; 64]))
    ensures
        r.0 == frame_opcode(input@),
        r.1@ == frame_key(input@),
        r.2@ == frame_value(input@),
{
    let mut key = [0u8; 63];
    let mut i: usize = 0;
    while i < KEY_LEN
        invariant
            0 <= i <= KEY_LEN,
            forall|j: int| 0 <= j < i ==> key@[j] == input@[j + 1],
        decreases KEY_LEN - i,
    {
        key[i] = input[i + 1];
        i = i + 1;
    }
    let mut value = [0u8; 64];
    let mut i: usize = 0;
    while i < VALUE_LEN
        invariant
            0 <= i <= VALUE_LEN,
            forall|j: int| 0 <= j < i ==> value@[j] == input@[j + 64],
        decreases VALUE_LEN - i,
    {
        value[i] = input[i + 64];
        i = i + 1;
    }
    assert(key@ =~= frame_key(input@));
    assert(value@ =~= frame_value(input@));
    (input[0], key, value)
}

/// Reads the 48-bit creation timestamp of a raw value.
pub fn read_timestamp(raw: &[u8; 64]) -> (r: u64)
    ensures
        r == timestamp_field(raw@),
        r <= MAX_TIMESTAMP,
{
    (raw[56] as u64) * 0x100_0000_0000 + (raw[57] as u64) * 0x1_0000_0000 + (raw[58] as u64)
        * 0x100_0000 + (raw[59] as u64) * 0x1_0000 + (raw[60] as u64) * 0x100 + (raw[61] as u64)
}

/// Reads the 16-bit expiration offset of a raw value; zero means "never expires".
pub fn read_offset(raw: &[u8; 64]) -> (r: u16)
    ensures
        r == offset_field(raw@),
{
    (raw[62] as u16) * 0x100 + (raw[63] as u16)
}

/// Packs a payload, a creation timestamp and an expiration offset into a raw value.
pub fn encode_value(payload: &[u8; 56], created_at: u64, expire_seconds: u16) -> (r: [u8; 64])
    requires
        created_at <= MAX_TIMESTAMP,
    ensures
        payload_of(r@) == payload@,
        timestamp_field(r@) == created_at,
        offset_field(r@) == expire_seconds,
{
    let mut out = [0u8; 64];
    let mut i: usize = 0;
    while i < PAYLOAD_LEN
        invariant
            0 <= i <= PAYLOAD_LEN,
            forall|j: int| 0 <= j < i ==> out@[j] == payload@[j],
        decreases PAYLOAD_LEN - i,
    {
        out[i] = payload[i];
        i = i + 1;
    }
    let t = created_at;
    let b0: u64 = t >> 40u64;
    let b1: u64 = (t >> 32u64) & 0xff;
    let b2: u64 = (t >> 24u64) & 0xff;
    let b3: u64 = (t >> 16u64) & 0xff;
    let b4: u64 = (t >> 8u64) & 0xff;
    let b5: u64 = t & 0xff;
    proof {
        lemma_split_timestamp(t);
    }
    out[56] = b0 as u8;
    out[57] = b1 as u8;
    out[58] = b2 as u8;
    out[59] = b3 as u8;
    out[60] = b4 as u8;
    out[61] = b5 as u8;
    let hi: u16 = expire_seconds >> 8u16;
    let lo: u16 = expire_seconds & 0xff;
    proof {
        lemma_split_offset(expire_seconds);
    }
    out[62] = hi as u8;
    out[63] = lo as u8;
    assert(payload_of(out@) =~= payload@);
    out
}

proof fn lemma_split_timestamp(t: u64)
    requires
        t <= MAX_TIMESTAMP,
    ensures
        t >> 40u64 < 0x100,
        (t >> 32u64) & 0xff < 0x100,
        (t >> 24u64) & 0xff < 0x100,
        (t >> 16u64) & 0xff < 0x100,
        (t >> 8u64) & 0xff < 0x100,
        t & 0xff < 0x100,
        (t >> 40u64) * 0x100_0000_0000 + ((t >> 32u64) & 0xff) * 0x1_0000_0000 + ((t >> 24u64)
            & 0xff) * 0x100_0000 + ((t >> 16u64) & 0xff) * 0x1_0000 + ((t >> 8u64) & 0xff) * 0x100
            + (t & 0xff) == t,
{
    assert(t >> 40u64 < 0x100) by (bit_vector)
        requires
            t <= 0xffff_ffff_ffff,
    ;
    assert((t >> 32u64) & 0xff < 0x100) by (bit_vector);
    assert((t >> 24u64) & 0xff < 0x100) by (bit_vector);
    assert((t >> 16u64) & 0xff < 0x100) by (bit_vector);
    assert((t >> 8u64) & 0xff < 0x100) by (bit_vector);
    assert(t & 0xff < 0x100) by (bit_vector);
    assert((t >> 40u64) * 0x100_0000_0000 + ((t >> 32u64) & 0xff) * 0x1_0000_0000 + ((t >> 24u64)
        & 0xff) * 0x100_0000 + ((t >> 16u64) & 0xff) * 0x1_0000 + ((t >> 8u64) & 0xff) * 0x100 + (t
        & 0xff) == t) by (bit_vector)
        requires
            t <= 0xffff_ffff_ffff,
    ;
}

proof fn lemma_split_offset(v: u16)
    ensures
        v >> 8u16 < 0x100,
        v & 0xff < 0x100,
        (v >> 8u16) * 0x100 + (v & 0xff) == v,
{
    assert((v >> 8u16) * 0x100 + (v & 0xff) == v) by (bit_vector);
    assert(v >> 8u16 < 0x100) by (bit_vector);
    assert(v & 0xff < 0x100) by (bit_vector);
}

/// Cuts a chunk of input bytes into whole frames, dropping a trailing partial frame.
pub fn split_frames(bytes: &[u8]) -> (r: Vec<[u8; 128]>)
    ensures
        r@.len() == chunk_frames(bytes@).len(),
        forall|i: int| 0 <= i < r@.len() ==> (#[trigger] r@[i])@ == chunk_frames(bytes@)[i],
{
    let len = bytes.len();
    let n = len / FRAME_LEN;
    let mut out: Vec<[u8; 128]> = Vec::new();
    let mut i: usize = 0;
    while i < n
        invariant
            0 <= i <= n,
            len == bytes@.len(),
            n == len / 128,
            out@.len() == i,
            forall|j: int| 0 <= j < i ==> (#[trigger] out@[j])@ == chunk_frames(bytes@)[j],
        decreases n - i,
    {
        assert(i * 128 + 128 <= len) by (nonlinear_arith)
            requires
                i < n,
                n == len / 128,
        ;
        let base: usize = i * 128;
        let mut frame = [0u8; 128];
        let mut j: usize = 0;
        while j < FRAME_LEN
            invariant
                0 <= j <= FRAME_LEN,
                base + 128 <= len,
                len == bytes@.len(),
                forall|m: int| 0 <= m < j ==> frame@[m] == bytes@[base + m],
            decreases FRAME_LEN - j,
        {
            frame[j] = bytes[base + j];
            j = j + 1;
        }
        assert(frame@ =~= chunk_frames(bytes@)[i as int]);
        out.push(frame);
        i = i + 1;
    }
    out
}

} // verus!
