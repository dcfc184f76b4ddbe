//! Length-prefixed framing of encoded messages on the reliable stream.
//!
//! A frame is a four-byte big-endian length followed by exactly that many
//! payload bytes.

use vstd::prelude::*;

verus! {

/// Number of bytes in the length prefix of a frame.
pub const HEADER_LEN: usize = 4;

/// The number that four bytes spell in big-endian order.
pub open spec fn be_value(b: Seq<u8>) -> nat
    recommends
        b.len() >= 4,
{
    (b[0] as nat) * 16777216 + (b[1] as nat) * 65536 + (b[2] as nat) * 256 + (b[3] as nat)
}

/// The four bytes that spell `n` in big-endian order.
pub open spec fn be_bytes(n: nat) -> Seq<u8>
    recommends
        n <= u32::MAX,
{
    seq![
        (n / 16777216) as u8,
        ((n / 65536) % 256) as u8,
        ((n / 256) % 256) as u8,
        (n % 256) as u8,
    ]
}

/// A payload behind its length prefix.
pub open spec fn framed(payload: Seq<u8>) -> Seq<u8>
    recommends
        payload.len() <= u32::MAX,
{
    be_bytes(payload.len()) + payload
}

/// Whether `buf` starts with a whole frame: the prefix and every byte that
/// the prefix declares.
pub open spec fn holds_frame(buf: Seq<u8>) -> bool {
    buf.len() >= 4 && buf.len() >= 4 + be_value(buf)
}

/// The payload of the frame that `buf` starts with.
pub open spec fn frame_payload(buf: Seq<u8>) -> Seq<u8>
    recommends
        holds_frame(buf),
{
    buf.subrange(4, 4 + be_value(buf) as int)
}

/// How many more bytes a reader has to wait for before `buf` starts with a
/// whole frame; zero when it already does.
pub open spec fn missing_bytes(buf: Seq<u8>) -> nat {
    if buf.len() < 4 {
        (4 - buf.len()) as nat
    } else if buf.len() < 4 + be_value(buf) {
        (4 + be_value(buf) - buf.len()) as nat
    } else {
        0
    }
}

/// Big-endian encoding followed by decoding gives the number back.
pub proof fn lemma_be_round_trip(n: nat)
    requires
        n <= u32::MAX,
    ensures
        be_bytes(n).len() == 4,
        be_value(be_bytes(n)) == n,
{
    let x = n as int;
    let q1 = x / 256;
    let q2 = q1 / 256;
    let q3 = q2 / 256;
    vstd::arithmetic::div_mod::lemma_fundamental_div_mod(x, 256);
    vstd::arithmetic::div_mod::lemma_fundamental_div_mod(q1, 256);
    vstd::arithmetic::div_mod::lemma_fundamental_div_mod(q2, 256);
    vstd::arithmetic::div_mod::lemma_div_denominator(x, 256, 256);
    vstd::arithmetic::div_mod::lemma_div_denominator(x, 65536, 256);
    assert(q2 == x / 65536);
    assert(q3 == x / 16777216);
    assert(0 <= q3 < 256);
    assert(x == 16777216 * q3 + 65536 * (q2 % 256) + 256 * (q1 % 256) + x % 256);
}

/// Puts the length prefix in front of an encoded message. A payload too long
/// for a four-byte length has no frame.
pub fn frame(payload: &[u8]) -> (out: Option<Vec<u8>>)
    ensures
        payload@.len() <= u32::MAX ==> (out matches Some(v) && v@ == framed(payload@)),
        payload@.len() > u32::MAX ==> out is None,
{
    let len: usize = payload.len();
    if len > 0xffff_ffff {
        return None;
    }
    let mut buf: Vec<u8> = Vec::new();
    buf.push((len / 16777216) as u8);
    buf.push(((len / 65536) % 256) as u8);
    buf.push(((len / 256) % 256) as u8);
    buf.push((len % 256) as u8);
    buf.extend_from_slice(payload);
    assert(buf@ =~= framed(payload@));
    Some(buf)
}

/// Reads the length that a frame's prefix declares. Fewer than four bytes
/// declare nothing.
pub fn declared_length(header: &[u8]) -> (len: Option<u32>)
    ensures
        header@.len() < 4 ==> len is None,
        header@.len() >= 4 ==> len == Some(be_value(header@) as u32) && be_value(header@)
            <= u32::MAX,
{
    if header.len() < 4 {
        return None;
    }
    let b0: u32 = header[0] as u32;
    let b1: u32 = header[1] as u32;
    let b2: u32 = header[2] as u32;
    let b3: u32 = header[3] as u32;
    Some(b0 * 16777216 + b1 * 65536 + b2 * 256 + b3)
}

/// Takes the first frame off a buffer of received bytes. The result is
/// `None` exactly while the prefix or a part of the declared payload is still
/// to come; otherwise it is the payload and the number of bytes the frame
/// took.
pub fn next_frame(buf: &[u8]) -> (out: Option<(Vec<u8>, usize)>)
    ensures
        holds_frame(buf@) <==> out is Some,
        out matches Some((payload, consumed)) ==> payload@ == frame_payload(buf@) && consumed
            == 4 + be_value(buf@),
{
    let declared: u32 = match declared_length(buf) {
        Some(n) => n,
        None => {
            return None;
        },
    };
    let total: u64 = 4 + declared as u64;
    if (buf.len() as u64) < total {
        return None;
    }
    let end: usize = total as usize;
    let mut payload: Vec<u8> = Vec::new();
    payload.extend_from_slice(vstd::slice::slice_subrange(buf, 4, end));
    assert(payload@ =~= frame_payload(buf@));
    Some((payload, end))
}

/// Tells a blocking reader how many bytes to wait for before the buffer
/// starts with a whole frame.
pub fn bytes_missing(buf: &[u8]) -> (n: u64)
    ensures
        n == missing_bytes(buf@),
        n == 0 <==> holds_frame(buf@),
{
    match declared_length(buf) {
        None => (4 - buf.len()) as u64,
        Some(declared) => {
            let total: u64 = 4 + declared as u64;
            if (buf.len() as u64) < total {
                total - buf.len() as u64
            } else {
                0
            }
        },
    }
}

/// A frame, whatever follows it in the buffer, is read back as the payload
/// it was made of, and takes the prefix and the payload off the buffer.
pub proof fn lemma_frame_round_trip(payload: Seq<u8>, rest: Seq<u8>)
    requires
        payload.len() <= u32::MAX,
    ensures
        holds_frame(framed(payload) + rest),
        frame_payload(framed(payload) + rest) == payload,
        missing_bytes(framed(payload) + rest) == 0,
        (framed(payload) + rest).subrange(4 + payload.len() as int, (framed(payload) + rest).len() as int)
            == rest,
{
    lemma_be_round_trip(payload.len());
    let buf = framed(payload) + rest;
    assert(buf[0] == be_bytes(payload.len())[0]);
    assert(buf[1] == be_bytes(payload.len())[1]);
    assert(buf[2] == be_bytes(payload.len())[2]);
    assert(buf[3] == be_bytes(payload.len())[3]);
    assert(be_value(buf) == payload.len());
    assert(frame_payload(buf) =~= payload);
    assert(buf.subrange(4 + payload.len() as int, buf.len() as int) =~= rest);
}

/// A buffer that is one whole frame and nothing more is the frame of its
/// own payload.
pub proof fn lemma_payload_round_trip(buf: Seq<u8>)
    requires
        holds_frame(buf),
        buf.len() == 4 + be_value(buf),
    ensures
        frame_payload(buf).len() <= u32::MAX,
        framed(frame_payload(buf)) == buf,
{
    let n = be_value(buf) as int;
    let b0 = buf[0] as int;
    let b1 = buf[1] as int;
    let b2 = buf[2] as int;
    let b3 = buf[3] as int;
    vstd::arithmetic::div_mod::lemma_fundamental_div_mod_converse(
        n,
        16777216,
        b0,
        b1 * 65536 + b2 * 256 + b3,
    );
    vstd::arithmetic::div_mod::lemma_fundamental_div_mod_converse(
        n,
        65536,
        b0 * 256 + b1,
        b2 * 256 + b3,
    );
    vstd::arithmetic::div_mod::lemma_fundamental_div_mod_converse(b0 * 256 + b1, 256, b0, b1);
    vstd::arithmetic::div_mod::lemma_fundamental_div_mod_converse(
        n,
        256,
        b0 * 65536 + b1 * 256 + b2,
        b3,
    );
    vstd::arithmetic::div_mod::lemma_fundamental_div_mod_converse(
        b0 * 65536 + b1 * 256 + b2,
        256,
        b0 * 256 + b1,
        b2,
    );
    assert(be_bytes(n as nat) =~= buf.subrange(0, 4));
    assert(framed(frame_payload(buf)) =~= buf);
}

/// A buffer that holds fewer bytes than its prefix declares is no frame,
/// however many of them have come.
pub proof fn lemma_short_buffer_is_no_frame(buf: Seq<u8>)
    requires
        buf.len() < 4 || buf.len() < 4 + be_value(buf),
    ensures
        !holds_frame(buf),
        missing_bytes(buf) > 0,
{
}

/// What a reader does next, given the bytes that have come since the last
/// frame and whether the connection has ended.
#[derive(Debug, PartialEq, Eq)]
pub enum ReadStep {
    /// No whole frame yet: wait for `missing` more bytes, and act on
    /// nothing until they have come.
    Wait { missing: u64 },
    /// A whole frame has come: its payload, and the bytes that it took.
    Frame { payload: Vec<u8>, consumed: usize },
    /// The connection ended within the prefix or within the payload.
    Closed,
}

/// A [`ReadStep`] with its payload as a sequence.
pub enum ReadStepView {
    Wait { missing: nat },
    Frame { payload: Seq<u8>, consumed: nat },
    Closed,
}

impl View for ReadStep {
    type V = ReadStepView;

    open spec fn view(&self) -> ReadStepView {
        match *self {
            ReadStep::Wait { missing } => ReadStepView::Wait { missing: missing as nat },
            ReadStep::Frame { payload, consumed } => ReadStepView::Frame {
                payload: payload@,
                consumed: consumed as nat,
            },
            ReadStep::Closed => ReadStepView::Closed,
        }
    }
}

/// The reader's rule. A whole frame is handed on as exactly the bytes that
/// its prefix declares. Short of that the reader waits for the bytes that
/// are missing, and a connection that ends first is closed: a part of a frame
/// is never handed on.
pub open spec fn read_model(buf: Seq<u8>, closed: bool) -> ReadStepView {
    if holds_frame(buf) {
        ReadStepView::Frame { payload: frame_payload(buf), consumed: 4 + be_value(buf) }
    } else if closed {
        ReadStepView::Closed
    } else {
        ReadStepView::Wait { missing: missing_bytes(buf) }
    }
}

/// Decides the reader's next step.
pub fn read_step(buf: &[u8], closed: bool) -> (step: ReadStep)
    ensures
        step@ == read_model(buf@, closed),
{
    match next_frame(buf) {
        Some((payload, consumed)) => ReadStep::Frame { payload, consumed },
        None => {
            if closed {
                ReadStep::Closed
            } else {
                ReadStep::Wait { missing: bytes_missing(buf) }
            }
        },
    }
}

} // verus!
