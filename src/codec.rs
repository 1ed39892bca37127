use vstd::prelude::*;
use vstd::utf8::{decode_utf8, encode_utf8, valid_utf8};
use crate::api::{
    ConfigView, MAX_TEXT_BYTES, MAX_WAV_BUF_SAMPLES, TtsBackendConfig, TtsBackendData,
    TtsBackendMsg, TtsBeControl, TtsBeOpcode, TtsError,
};

verus! {

broadcast use vstd::utf8::group_utf8_lib;

/// Encoded size of a backend configuration.
pub const CONFIG_WIRE_LEN: usize = 25;

/// Encoded size of an audio chunk: length word, every sample slot, marker tag.
pub const CHUNK_WIRE_LEN: usize = 2053;

/// Little-endian bytes of a 32-bit word.
pub open spec fn le32(x: u32) -> Seq<u8> {
    seq![(x & 0xff) as u8, ((x >> 8) & 0xff) as u8, ((x >> 16) & 0xff) as u8, ((x >> 24) & 0xff) as u8]
}

/// The 32-bit word stored little-endian at `b[at..at + 4]`.
pub open spec fn read_le32(b: Seq<u8>, at: int) -> u32 {
    (b[at] as u32) | ((b[at + 1] as u32) << 8) | ((b[at + 2] as u32) << 16) | ((b[at + 3] as u32) << 24)
}

/// Little-endian bytes of a sample.
pub open spec fn le16(x: u16) -> Seq<u8> {
    seq![(x & 0xff) as u8, ((x >> 8) & 0xff) as u8]
}

/// The sample stored little-endian at `b[at..at + 2]`.
pub open spec fn read_le16(b: Seq<u8>, at: int) -> u16 {
    (b[at] as u16) | ((b[at + 1] as u16) << 8)
}

/// Samples laid out back to back, two bytes each.
pub open spec fn samples_bytes(s: Seq<u16>) -> Seq<u8>
    decreases s.len(),
{
    if s.len() == 0 {
        Seq::empty()
    } else {
        samples_bytes(s.drop_last()) + le16(s.last())
    }
}

/// Samples read back from bytes laid out by `samples_bytes`.
pub open spec fn samples_from(b: Seq<u8>) -> Seq<u16>
    decreases b.len(),
{
    if b.len() < 2 {
        Seq::empty()
    } else {
        samples_from(b.subrange(0, b.len() - 2)) + seq![read_le16(b, b.len() - 2)]
    }
}

/// Tag byte of an optional control marker.
pub open spec fn control_tag(c: Option<TtsBeControl>) -> u8 {
    match c {
        None => 0,
        Some(TtsBeControl::Abort) => 1,
        Some(TtsBeControl::End) => 2,
    }
}

/// Control marker named by a tag byte, for tags 0 to 2.
pub open spec fn tag_control(t: u8) -> Option<TtsBeControl> {
    if t == 1 {
        Some(TtsBeControl::Abort)
    } else if t == 2 {
        Some(TtsBeControl::End)
    } else {
        None
    }
}

/// Wire form of a configuration: four address words, the opcode, then a tag
/// byte (1 when a hint is present) and the hint word (0 when absent).
pub open spec fn config_bytes(c: ConfigView) -> Seq<u8> {
    le32(c.sid[0]) + le32(c.sid[1]) + le32(c.sid[2]) + le32(c.sid[3]) + le32(c.op) + match c.samples_per_cb {
        None => seq![0u8] + le32(0),
        Some(h) => seq![1u8] + le32(h),
    }
}

/// Whether `b` starts with the wire form of some configuration.
pub open spec fn config_wire_ok(b: Seq<u8>) -> bool {
    &&& b.len() >= CONFIG_WIRE_LEN
    &&& (b[20] == 0 || b[20] == 1)
    &&& b[20] == 0 ==> read_le32(b, 21) == 0
}

/// The configuration that wire bytes describe.
pub open spec fn config_from(b: Seq<u8>) -> ConfigView {
    ConfigView {
        sid: seq![read_le32(b, 0), read_le32(b, 4), read_le32(b, 8), read_le32(b, 12)],
        op: read_le32(b, 16),
        samples_per_cb: if b[20] == 1 { Some(read_le32(b, 21)) } else { None },
    }
}

/// Wire form of a synthesis request: byte length, then the UTF-8 bytes.
pub open spec fn request_bytes(text: Seq<char>) -> Seq<u8> {
    le32(encode_utf8(text).len() as u32) + encode_utf8(text)
}

/// Wire form of an audio chunk: valid length, all sample slots, marker tag.
pub open spec fn chunk_bytes(d: TtsBackendData) -> Seq<u8> {
    le32(d.len) + samples_bytes(d.data@) + seq![control_tag(d.control)]
}

/// Whether `b` starts with the wire form of a well-formed chunk.
pub open spec fn chunk_wire_ok(b: Seq<u8>) -> bool {
    &&& b.len() >= CHUNK_WIRE_LEN
    &&& read_le32(b, 0) <= MAX_WAV_BUF_SAMPLES
    &&& b[CHUNK_WIRE_LEN - 1] <= 2
}

proof fn lemma_le32_round_trip(x: u32)
    ensures
        read_le32(le32(x), 0) == x,
{
    let b = le32(x);
    let (b0, b1, b2, b3) = (b[0], b[1], b[2], b[3]);
    assert(b0 == (x & 0xff) as u8 && b1 == ((x >> 8) & 0xff) as u8 && b2 == ((x >> 16) & 0xff) as u8
        && b3 == ((x >> 24) & 0xff) as u8);
    assert(b0 == (x & 0xff) as u8 && b1 == ((x >> 8) & 0xff) as u8 && b2 == ((x >> 16) & 0xff) as u8
        && b3 == ((x >> 24) & 0xff) as u8 ==> (b0 as u32) | ((b1 as u32) << 8) | ((b2 as u32) << 16)
        | ((b3 as u32) << 24) == x) by (bit_vector);
}

proof fn lemma_read_le32_bytes(b: Seq<u8>, at: int)
    requires
        0 <= at,
        at + 4 <= b.len(),
    ensures
        le32(read_le32(b, at)) == b.subrange(at, at + 4),
{
    let (b0, b1, b2, b3) = (b[at], b[at + 1], b[at + 2], b[at + 3]);
    let x = read_le32(b, at);
    assert(x == (b0 as u32) | ((b1 as u32) << 8) | ((b2 as u32) << 16) | ((b3 as u32) << 24));
    assert(x == (b0 as u32) | ((b1 as u32) << 8) | ((b2 as u32) << 16) | ((b3 as u32) << 24) ==> b0
        == (x & 0xff) as u8 && b1 == ((x >> 8) & 0xff) as u8 && b2 == ((x >> 16) & 0xff) as u8 && b3
        == ((x >> 24) & 0xff) as u8) by (bit_vector);
    assert(le32(x) =~= b.subrange(at, at + 4));
}

proof fn lemma_le16_round_trip(x: u16)
    ensures
        read_le16(le16(x), 0) == x,
{
    let b = le16(x);
    let (b0, b1) = (b[0], b[1]);
    assert(b0 == (x & 0xff) as u8 && b1 == ((x >> 8) & 0xff) as u8);
    assert(b0 == (x & 0xff) as u8 && b1 == ((x >> 8) & 0xff) as u8 ==> (b0 as u16) | ((b1 as u16) << 8)
        == x) by (bit_vector);
}

proof fn lemma_samples_bytes_len(s: Seq<u16>)
    ensures
        samples_bytes(s).len() == 2 * s.len(),
    decreases s.len(),
{
    if s.len() > 0 {
        lemma_samples_bytes_len(s.drop_last());
    }
}

proof fn lemma_samples_round_trip(s: Seq<u16>)
    ensures
        samples_from(samples_bytes(s)) == s,
    decreases s.len(),
{
    if s.len() > 0 {
        let b = samples_bytes(s);
        let front = samples_bytes(s.drop_last());
        lemma_samples_bytes_len(s);
        lemma_samples_bytes_len(s.drop_last());
        assert(b.subrange(0, b.len() - 2) =~= front);
        assert(b.subrange(b.len() - 2, b.len() as int) =~= le16(s.last()));
        lemma_le16_round_trip(s.last());
        assert(read_le16(b, b.len() - 2) == read_le16(le16(s.last()), 0));
        lemma_samples_round_trip(s.drop_last());
        assert(s.drop_last() + seq![s.last()] =~= s);
    }
}

/// Appends the little-endian bytes of `x`.
fn put_u32(out: &mut Vec<u8>, x: u32)
    ensures
        final(out)@ == old(out)@ + le32(x),
{
    out.push((x & 0xff) as u8);
    out.push(((x >> 8) & 0xff) as u8);
    out.push(((x >> 16) & 0xff) as u8);
    out.push(((x >> 24) & 0xff) as u8);
    assert(final(out)@ =~= old(out)@ + le32(x));
}

/// Reads the little-endian word at `b[at..at + 4]`.
fn get_u32(b: &[u8], at: usize) -> (r: u32)
    requires
        at + 4 <= b@.len(),
    ensures
        r == read_le32(b@, at as int),
{
    (b[at] as u32) | ((b[at + 1] as u32) << 8) | ((b[at + 2] as u32) << 16) | ((b[at + 3] as u32) << 24)
}

/// Encodes a configuration into its fixed-size wire form.
pub fn encode_config(c: &TtsBackendConfig) -> (r: Vec<u8>)
    ensures
        r@ == config_bytes(c@),
        r@.len() == CONFIG_WIRE_LEN,
{
    let mut r: Vec<u8> = Vec::new();
    put_u32(&mut r, c.sid[0]);
    put_u32(&mut r, c.sid[1]);
    put_u32(&mut r, c.sid[2]);
    put_u32(&mut r, c.sid[3]);
    put_u32(&mut r, c.op);
    match c.samples_per_cb {
        None => {
            r.push(0u8);
            put_u32(&mut r, 0);
        },
        Some(h) => {
            r.push(1u8);
            put_u32(&mut r, h);
        },
    }
    assert(r@ =~= config_bytes(c@));
    r
}

/// Decodes the configuration at the front of `b`; a lent buffer spans whole
/// pages, so what follows the message is ignored.
pub fn decode_config(b: &[u8]) -> (r: Result<TtsBackendConfig, TtsError>)
    ensures
        r is Ok <==> config_wire_ok(b@),
        r matches Ok(c) ==> c@ == config_from(b@),
        r matches Err(e) ==> (e == TtsError::WrongSize <==> b@.len() < CONFIG_WIRE_LEN),
        r matches Err(e) ==> e == TtsError::WrongSize || e == TtsError::BadTag,
{
    if b.len() < CONFIG_WIRE_LEN {
        return Err(TtsError::WrongSize);
    }
    let tag = b[20];
    let hint = get_u32(b, 21);
    let samples_per_cb = if tag == 0 && hint == 0 {
        None
    } else if tag == 1 {
        Some(hint)
    } else {
        return Err(TtsError::BadTag);
    };
    let c = TtsBackendConfig {
        sid: [get_u32(b, 0), get_u32(b, 4), get_u32(b, 8), get_u32(b, 12)],
        op: get_u32(b, 16),
        samples_per_cb,
    };
    assert(c@.sid =~= config_from(b@).sid);
    Ok(c)
}

/// A configuration survives encoding and decoding unchanged.
pub proof fn lemma_config_round_trip(c: ConfigView)
    requires
        c.sid.len() == 4,
    ensures
        config_wire_ok(config_bytes(c)),
        config_from(config_bytes(c)) == c,
{
    let b = config_bytes(c);
    let h = match c.samples_per_cb {
        None => 0u32,
        Some(x) => x,
    };
    assert(b.subrange(0, 4) =~= le32(c.sid[0]));
    assert(b.subrange(4, 8) =~= le32(c.sid[1]));
    assert(b.subrange(8, 12) =~= le32(c.sid[2]));
    assert(b.subrange(12, 16) =~= le32(c.sid[3]));
    assert(b.subrange(16, 20) =~= le32(c.op));
    assert(b.subrange(21, 25) =~= le32(h));
    lemma_le32_round_trip(c.sid[0]);
    lemma_le32_round_trip(c.sid[1]);
    lemma_le32_round_trip(c.sid[2]);
    lemma_le32_round_trip(c.sid[3]);
    lemma_le32_round_trip(c.op);
    lemma_le32_round_trip(h);
    assert(read_le32(b, 0) == read_le32(b.subrange(0, 4), 0));
    assert(read_le32(b, 4) == read_le32(b.subrange(4, 8), 0));
    assert(read_le32(b, 8) == read_le32(b.subrange(8, 12), 0));
    assert(read_le32(b, 12) == read_le32(b.subrange(12, 16), 0));
    assert(read_le32(b, 16) == read_le32(b.subrange(16, 20), 0));
    assert(read_le32(b, 21) == read_le32(b.subrange(21, 25), 0));
    assert(config_from(b).sid =~= c.sid);
}

/// Every accepted configuration buffer starts with the encoding of what it
/// decodes to.
pub proof fn lemma_config_canonical(b: Seq<u8>)
    requires
        config_wire_ok(b),
    ensures
        config_bytes(config_from(b)) == b.take(CONFIG_WIRE_LEN as int),
{
    lemma_read_le32_bytes(b, 0);
    lemma_read_le32_bytes(b, 4);
    lemma_read_le32_bytes(b, 8);
    lemma_read_le32_bytes(b, 12);
    lemma_read_le32_bytes(b, 16);
    lemma_read_le32_bytes(b, 21);
    assert(config_bytes(config_from(b)) =~= b.take(CONFIG_WIRE_LEN as int));
}

/// The text bytes of a request buffer, as its length word gives them.
pub open spec fn request_text(b: Seq<u8>) -> Seq<u8> {
    b.subrange(4, 4 + read_le32(b, 0))
}

/// Whether `b` starts with the wire form of a request: a length word of at
/// most `MAX_TEXT_BYTES`, followed by that many bytes of valid UTF-8.
pub open spec fn request_wire_ok(b: Seq<u8>) -> bool {
    &&& b.len() >= 4
    &&& read_le32(b, 0) <= MAX_TEXT_BYTES
    &&& b.len() >= 4 + read_le32(b, 0)
    &&& valid_utf8(request_text(b))
}

/// A request text within bounds survives encoding and decoding unchanged.
pub proof fn lemma_request_round_trip(text: Seq<char>)
    requires
        encode_utf8(text).len() <= MAX_TEXT_BYTES,
    ensures
        request_wire_ok(request_bytes(text)),
        decode_utf8(request_text(request_bytes(text))) == text,
{
    let e = encode_utf8(text);
    let b = request_bytes(text);
    lemma_le32_round_trip(e.len() as u32);
    assert(b.subrange(0, 4) =~= le32(e.len() as u32));
    assert(read_le32(b, 0) == read_le32(b.subrange(0, 4), 0));
    assert(request_text(b) =~= e);
}

/// A well-formed chunk survives encoding and decoding unchanged.
pub proof fn lemma_chunk_round_trip(d: TtsBackendData)
    requires
        d.wf(),
    ensures
        chunk_wire_ok(chunk_bytes(d)),
        read_le32(chunk_bytes(d), 0) == d.len,
        samples_from(chunk_bytes(d).subrange(4, CHUNK_WIRE_LEN - 1)) == d.data@,
        tag_control(chunk_bytes(d)[CHUNK_WIRE_LEN - 1]) == d.control,
{
    let b = chunk_bytes(d);
    lemma_samples_bytes_len(d.data@);
    lemma_le32_round_trip(d.len);
    assert(b.subrange(0, 4) =~= le32(d.len));
    assert(read_le32(b, 0) == read_le32(b.subrange(0, 4), 0));
    assert(b.subrange(4, CHUNK_WIRE_LEN - 1) =~= samples_bytes(d.data@));
    lemma_samples_round_trip(d.data@);
}

proof fn lemma_samples_canonical(b: Seq<u8>)
    requires
        b.len() % 2 == 0,
    ensures
        samples_bytes(samples_from(b)) == b,
    decreases b.len(),
{
    if b.len() >= 2 {
        let front = b.subrange(0, b.len() - 2);
        let x = read_le16(b, b.len() - 2);
        lemma_samples_canonical(front);
        let s = samples_from(b);
        assert(s.drop_last() =~= samples_from(front));
        let (b0, b1) = (b[b.len() - 2], b[b.len() - 1]);
        assert(x == (b0 as u16) | ((b1 as u16) << 8));
        assert(x == (b0 as u16) | ((b1 as u16) << 8) ==> b0 == (x & 0xff) as u8 && b1 == ((x >> 8) & 0xff)
            as u8) by (bit_vector);
        assert(samples_bytes(s) =~= b);
    } else {
        assert(b =~= Seq::<u8>::empty());
    }
}

/// Every accepted chunk buffer starts with the encoding of the chunk it
/// decodes to: decoding loses nothing of the message.
pub proof fn lemma_chunk_canonical(b: Seq<u8>, d: TtsBackendData)
    requires
        chunk_wire_ok(b),
        d.len == read_le32(b, 0),
        d.data@ == samples_from(b.subrange(4, CHUNK_WIRE_LEN - 1)),
        d.control == tag_control(b[CHUNK_WIRE_LEN - 1]),
    ensures
        chunk_bytes(d) == b.take(CHUNK_WIRE_LEN as int),
{
    lemma_read_le32_bytes(b, 0);
    lemma_samples_canonical(b.subrange(4, CHUNK_WIRE_LEN - 1));
    assert(chunk_bytes(d) =~= b.take(CHUNK_WIRE_LEN as int));
}

/// Every accepted request buffer starts with the encoding of the text it
/// decodes to.
pub proof fn lemma_request_canonical(b: Seq<u8>)
    requires
        request_wire_ok(b),
    ensures
        request_bytes(decode_utf8(request_text(b))) == b.take(4 + read_le32(b, 0)),
{
    let t = request_text(b);
    vstd::utf8::decode_utf8_encode_utf8(t);
    lemma_read_le32_bytes(b, 0);
    assert(t.len() == read_le32(b, 0));
    assert(request_bytes(decode_utf8(t)) =~= b.take(4 + read_le32(b, 0)));
}

proof fn lemma_samples_from_index(b: Seq<u8>, at: int, k: int)
    requires
        0 <= at,
        0 <= k,
        at + 2 * k <= b.len(),
    ensures
        samples_from(b.subrange(at, at + 2 * k)) =~= Seq::new(k as nat, |j: int| read_le16(b, at + 2 * j)),
    decreases k,
{
    let sub = b.subrange(at, at + 2 * k);
    if k > 0 {
        assert(sub.subrange(0, sub.len() - 2) =~= b.subrange(at, at + 2 * (k - 1)));
        lemma_samples_from_index(b, at, k - 1);
        assert(read_le16(sub, sub.len() - 2) == read_le16(b, at + 2 * (k - 1)));
    }
}

/// Relies on `String::from_utf8`: it succeeds exactly on valid UTF-8 and then
/// holds the characters that the bytes encode.
#[verifier::external_body]
fn string_from_utf8(v: Vec<u8>) -> (r: Option<String>)
    ensures
        r is Some <==> valid_utf8(v@),
        r matches Some(s) ==> s@ == decode_utf8(v@),
{
    String::from_utf8(v).ok()
}

/// Encodes a synthesis request: its byte length, then its UTF-8 bytes.
pub fn encode_request(m: &TtsBackendMsg) -> (r: Vec<u8>)
    requires
        m.wf(),
    ensures
        r@ == request_bytes(m.text@),
        r@.len() <= 4 + MAX_TEXT_BYTES,
{
    let bytes = m.text.as_str().as_bytes();
    let mut r: Vec<u8> = Vec::new();
    put_u32(&mut r, bytes.len() as u32);
    let ghost head = r@;
    let mut i: usize = 0;
    while i < bytes.len()
        invariant
            i <= bytes@.len(),
            r@ == head + bytes@.take(i as int),
        decreases bytes@.len() - i,
    {
        r.push(bytes[i]);
        i = i + 1;
        assert(r@ =~= head + bytes@.take(i as int));
    }
    assert(bytes@.take(i as int) =~= bytes@);
    r
}

/// Decodes the synthesis request at the front of `b`, rejecting a buffer
/// too short for its length word, an oversized text and bytes that are not
/// UTF-8.
pub fn decode_request(b: &[u8]) -> (r: Result<TtsBackendMsg, TtsError>)
    ensures
        r is Ok <==> request_wire_ok(b@),
        r matches Ok(m) ==> m.wf() && m.text@ == decode_utf8(request_text(b@)),
        r matches Err(e) ==> (e == TtsError::LengthTooLarge <==> b@.len() >= 4 && read_le32(b@, 0) > MAX_TEXT_BYTES),
        r matches Err(e) ==> (e == TtsError::WrongSize <==> b@.len() < 4 || (read_le32(b@, 0) <= MAX_TEXT_BYTES && b@.len() < 4 + read_le32(b@, 0))),
        r matches Err(e) ==> e == TtsError::WrongSize || e == TtsError::LengthTooLarge || e == TtsError::NotUtf8,
{
    if b.len() < 4 {
        return Err(TtsError::WrongSize);
    }
    let n = get_u32(b, 0);
    if n as usize > MAX_TEXT_BYTES {
        return Err(TtsError::LengthTooLarge);
    }
    let end = 4 + n as usize;
    if b.len() < end {
        return Err(TtsError::WrongSize);
    }
    let mut bytes: Vec<u8> = Vec::new();
    let mut i: usize = 4;
    while i < end
        invariant
            4 <= i <= end <= b@.len(),
            end == 4 + read_le32(b@, 0),
            bytes@ == b@.subrange(4, i as int),
        decreases end - i,
    {
        bytes.push(b[i]);
        i = i + 1;
        assert(bytes@ =~= b@.subrange(4, i as int));
    }
    match string_from_utf8(bytes) {
        Some(text) => {
            proof {
                vstd::utf8::decode_utf8_encode_utf8(request_text(b@));
            }
            Ok(TtsBackendMsg { text })
        },
        None => Err(TtsError::NotUtf8),
    }
}

/// Encodes a chunk into its fixed-size wire form.
pub fn encode_chunk(d: &TtsBackendData) -> (r: Vec<u8>)
    ensures
        r@ == chunk_bytes(*d),
        r@.len() == CHUNK_WIRE_LEN,
{
    let mut r: Vec<u8> = Vec::new();
    put_u32(&mut r, d.len);
    let ghost head = r@;
    let mut i: usize = 0;
    while i < MAX_WAV_BUF_SAMPLES
        invariant
            i <= MAX_WAV_BUF_SAMPLES,
            d.data@.len() == MAX_WAV_BUF_SAMPLES,
            r@ == head + samples_bytes(d.data@.take(i as int)),
        decreases MAX_WAV_BUF_SAMPLES - i,
    {
        let x = d.data[i];
        r.push((x & 0xff) as u8);
        r.push(((x >> 8) & 0xff) as u8);
        proof {
            let t = d.data@.take(i + 1);
            assert(t.drop_last() =~= d.data@.take(i as int));
            assert(t.last() == x);
        }
        i = i + 1;
        assert(r@ =~= head + samples_bytes(d.data@.take(i as int)));
    }
    assert(d.data@.take(i as int) =~= d.data@);
    let tag: u8 = match d.control {
        None => 0,
        Some(TtsBeControl::Abort) => 1,
        Some(TtsBeControl::End) => 2,
    };
    r.push(tag);
    proof {
        lemma_samples_bytes_len(d.data@);
    }
    r
}

/// Decodes the chunk at the front of `b`, as received from the backend. A
/// buffer too short, a length above `MAX_WAV_BUF_SAMPLES` or an unknown
/// marker tag is rejected.
pub fn decode_chunk(b: &[u8]) -> (r: Result<TtsBackendData, TtsError>)
    ensures
        r is Ok <==> chunk_wire_ok(b@),
        r matches Ok(d) ==> {
            &&& d.wf()
            &&& d.len == read_le32(b@, 0)
            &&& d.data@ == samples_from(b@.subrange(4, CHUNK_WIRE_LEN - 1))
            &&& d.control == tag_control(b@[CHUNK_WIRE_LEN - 1])
        },
        r matches Err(e) ==> (e == TtsError::WrongSize <==> b@.len() < CHUNK_WIRE_LEN),
        r matches Err(e) ==> (e == TtsError::LengthTooLarge <==> b@.len() >= CHUNK_WIRE_LEN && read_le32(b@, 0) > MAX_WAV_BUF_SAMPLES),
        r matches Err(e) ==> e == TtsError::WrongSize || e == TtsError::LengthTooLarge || e == TtsError::BadTag,
{
    if b.len() < CHUNK_WIRE_LEN {
        return Err(TtsError::WrongSize);
    }
    let len = get_u32(b, 0);
    if len as usize > MAX_WAV_BUF_SAMPLES {
        return Err(TtsError::LengthTooLarge);
    }
    let tag = b[CHUNK_WIRE_LEN - 1];
    let control = if tag == 0 {
        None
    } else if tag == 1 {
        Some(TtsBeControl::Abort)
    } else if tag == 2 {
        Some(TtsBeControl::End)
    } else {
        return Err(TtsError::BadTag);
    };
    let mut data = [0u16; MAX_WAV_BUF_SAMPLES];
    let mut i: usize = 0;
    while i < MAX_WAV_BUF_SAMPLES
        invariant
            i <= MAX_WAV_BUF_SAMPLES,
            b@.len() >= CHUNK_WIRE_LEN,
            data@.len() == MAX_WAV_BUF_SAMPLES,
            forall|j: int| 0 <= j < i ==> data@[j] == read_le16(b@, 4 + 2 * j),
        decreases MAX_WAV_BUF_SAMPLES - i,
    {
        data[i] = (b[4 + 2 * i] as u16) | ((b[5 + 2 * i] as u16) << 8);
        i = i + 1;
    }
    proof {
        lemma_samples_from_index(b@, 4, MAX_WAV_BUF_SAMPLES as int);
        assert(data@ =~= samples_from(b@.subrange(4, CHUNK_WIRE_LEN - 1)));
    }
    Ok(TtsBackendData { data, len, control })
}

/// A message to the backend, decoded from its opcode and lent buffer.
#[derive(Debug, Clone, PartialEq, Eq)]
pub enum Command {
    /// Register callback routing.
    Configure(TtsBackendConfig),
    /// Speak this text, superseding any request in flight.
    Speak(TtsBackendMsg),
    /// Exit the backend.
    Quit,
}

/// Decodes a message to the backend: `opcode` picks the operation and
/// `payload` holds its argument, if it has one.
pub fn decode_command(opcode: u32, payload: &[u8]) -> (r: Result<Command, TtsError>)
    ensures
        r is Ok <==> {
            ||| opcode == TtsBeOpcode::StrToWav.code() && request_wire_ok(payload@)
            ||| opcode == TtsBeOpcode::RegisterCb.code() && config_wire_ok(payload@)
            ||| opcode == TtsBeOpcode::Quit.code()
        },
        r matches Ok(Command::Configure(c)) ==> opcode == TtsBeOpcode::RegisterCb.code() && c@ == config_from(payload@),
        r matches Ok(Command::Speak(m)) ==> opcode == TtsBeOpcode::StrToWav.code() && m.wf()
            && m.text@ == decode_utf8(request_text(payload@)),
        r matches Ok(Command::Quit) ==> opcode == TtsBeOpcode::Quit.code(),
        r matches Err(e) ==> (e == TtsError::UnknownOpcode <==> opcode > 2),
{
    match TtsBeOpcode::from_u32(opcode) {
        Some(TtsBeOpcode::StrToWav) => match decode_request(payload) {
            Ok(m) => Ok(Command::Speak(m)),
            Err(e) => Err(e),
        },
        Some(TtsBeOpcode::RegisterCb) => match decode_config(payload) {
            Ok(c) => Ok(Command::Configure(c)),
            Err(e) => Err(e),
        },
        Some(TtsBeOpcode::Quit) => Ok(Command::Quit),
        None => Err(TtsError::UnknownOpcode),
    }
}

} // verus!
