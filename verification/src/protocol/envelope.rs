//! The zerowire envelope.
//!
//! Every byte on the wire after the TLS handshake is one of these frames.
//! It exists so USB/IP transfers and the HID fast lane can share a single
//! TCP socket without a new transport.
//!
//! ```text
//!  0               1               2               3
//!  +---------------+---------------+---------------+---------------+
//!  | magic 'Z' 'W'                 | version (u8)  | channel (u8)  |
//!  +---------------+---------------+---------------+---------------+
//!  | length (u32 big-endian, payload bytes)                        |
//!  +---------------------------------------------------------------+
//!  | payload ...                                                   |
//!  +---------------------------------------------------------------+
//! ```

use vstd::prelude::*;

use crate::bytes::{
    be32, be32_at, lemma_be32_canonical, lemma_be32_round_trip, push_bytes, push_u32, read_u32,
};
use crate::text::{dec, hex, pad_front, push_dec, push_hex, push_str};

verus! {

/// Two-byte magic: ASCII `Z` `W`.
pub const MAGIC: [u8; 2] = [0x5A, 0x57];

/// Current protocol version. Bumped on breaking changes only.
pub const PROTOCOL_VERSION: u8 = 1;

/// Fixed envelope header size on the wire.
pub const HEADER_LEN: usize = 8;

/// Cap on a single envelope payload: 1 MiB. It is enforced from the header
/// alone, so a hostile peer cannot ask for gigabytes to be allocated.
pub const MAX_PAYLOAD: usize = 0x10_0000;

/// Logical channels multiplexed over the envelope.
#[derive(Copy, Clone, Debug, PartialEq, Eq, Structural)]
pub enum Channel {
    /// Handshake, capability negotiation, device list, pairing: JSON.
    Control,
    /// USB/IP protocol packets with a 4-byte `import_id` prefix.
    Usbip,
    /// HID fast lane (mouse, keyboard, gamepad input).
    Hid,
    /// Empty payload, every 5 s when idle.
    Keepalive,
}

impl Channel {
    /// The channel's byte on the wire.
    pub open spec fn code(self) -> u8 {
        match self {
            Channel::Control => 0x01,
            Channel::Usbip => 0x02,
            Channel::Hid => 0x03,
            Channel::Keepalive => 0x7F,
        }
    }

    /// The channel whose wire byte is `v`, if there is one.
    pub open spec fn of_code(v: u8) -> Option<Channel> {
        if v == 0x01 {
            Some(Channel::Control)
        } else if v == 0x02 {
            Some(Channel::Usbip)
        } else if v == 0x03 {
            Some(Channel::Hid)
        } else if v == 0x7F {
            Some(Channel::Keepalive)
        } else {
            None
        }
    }

    /// The channel's byte on the wire.
    pub fn as_u8(self) -> (v: u8)
        ensures
            v == self.code(),
    {
        match self {
            Channel::Control => 0x01,
            Channel::Usbip => 0x02,
            Channel::Hid => 0x03,
            Channel::Keepalive => 0x7F,
        }
    }

    /// The channel of a wire byte.
    pub fn from_u8(v: u8) -> (r: Result<Channel, EnvelopeError>)
        ensures
            r == match Channel::of_code(v) {
                Some(c) => Ok::<Channel, EnvelopeError>(c),
                None => Err(EnvelopeError::UnknownChannel(v)),
            },
    {
        match v {
            0x01 => Ok(Channel::Control),
            0x02 => Ok(Channel::Usbip),
            0x03 => Ok(Channel::Hid),
            0x7F => Ok(Channel::Keepalive),
            other => Err(EnvelopeError::UnknownChannel(other)),
        }
    }
}

/// Why bytes are not an envelope, or a payload does not fit into one.
#[derive(Debug, PartialEq, Eq)]
pub enum EnvelopeError {
    /// Fewer bytes than a header.
    Short(usize),
    /// The first two bytes are not the magic.
    BadMagic([u8; 2]),
    /// Not the version this library speaks.
    BadVersion(u8),
    /// No channel has this byte.
    UnknownChannel(u8),
    /// A payload of more than `MAX_PAYLOAD` bytes.
    TooLarge(usize),
}

impl EnvelopeError {
    /// The human-readable text of the error.
    pub open spec fn text(self) -> Seq<char> {
        match self {
            EnvelopeError::Short(n) => "buffer too short for an envelope header ("@ + dec(n as nat)
                + " < 8)"@,
            EnvelopeError::BadMagic(m) => "bad magic: ["@ + dec(m@[0] as nat) + ", "@ + dec(
                m@[1] as nat,
            ) + "]"@,
            EnvelopeError::BadVersion(v) => "unsupported protocol version: "@ + dec(v as nat),
            EnvelopeError::UnknownChannel(c) => "unknown channel byte: 0x"@ + pad_front(
                hex(c as nat),
                2,
                '0',
            ),
            EnvelopeError::TooLarge(n) => "payload too large: "@ + dec(n as nat) + " > 1048576"@,
        }
    }

    /// The human-readable text of the error.
    pub fn message(&self) -> (s: String)
        ensures
            s@ == self.text(),
    {
        let mut s = String::new();
        match self {
            EnvelopeError::Short(n) => {
                push_str(&mut s, "buffer too short for an envelope header (");
                push_dec(&mut s, *n as u64);
                push_str(&mut s, " < 8)");
            },
            EnvelopeError::BadMagic(m) => {
                push_str(&mut s, "bad magic: [");
                push_dec(&mut s, m[0] as u64);
                push_str(&mut s, ", ");
                push_dec(&mut s, m[1] as u64);
                push_str(&mut s, "]");
            },
            EnvelopeError::BadVersion(v) => {
                push_str(&mut s, "unsupported protocol version: ");
                push_dec(&mut s, *v as u64);
            },
            EnvelopeError::UnknownChannel(c) => {
                push_str(&mut s, "unknown channel byte: 0x");
                push_hex(&mut s, *c as u64, 2);
            },
            EnvelopeError::TooLarge(n) => {
                push_str(&mut s, "payload too large: ");
                push_dec(&mut s, *n as u64);
                push_str(&mut s, " > 1048576");
            },
        }
        assert(s@ =~= self.text());
        s
    }
}

/// The bytes of the envelope that carries `payload` on `channel`.
pub open spec fn envelope_bytes(channel: Channel, payload: Seq<u8>) -> Seq<u8> {
    MAGIC@ + seq![PROTOCOL_VERSION, channel.code()] + be32(payload.len() as u32) + payload
}

/// What the eight header bytes at the front of `b` say: the channel and the
/// number of payload bytes, or the first thing that is wrong with them.
pub open spec fn header_outcome(b: Seq<u8>) -> Result<(Channel, nat), EnvelopeError> {
    if b[0] != MAGIC@[0] || b[1] != MAGIC@[1] {
        Err(EnvelopeError::BadMagic([b[0], b[1]]))
    } else if b[2] != PROTOCOL_VERSION {
        Err(EnvelopeError::BadVersion(b[2]))
    } else {
        match Channel::of_code(b[3]) {
            None => Err(EnvelopeError::UnknownChannel(b[3])),
            Some(channel) => {
                let len = be32_at(b, 4);
                if len > MAX_PAYLOAD {
                    Err(EnvelopeError::TooLarge(len as usize))
                } else {
                    Ok((channel, len as nat))
                }
            },
        }
    }
}

/// The outcome of looking for one envelope at the front of `b`: its channel,
/// its payload and the number of bytes it takes; nothing while bytes are
/// missing; or a protocol error.
pub open spec fn parse_outcome(b: Seq<u8>) -> Result<Option<(Channel, Seq<u8>, nat)>, EnvelopeError> {
    if b.len() < HEADER_LEN {
        Ok(None)
    } else {
        match header_outcome(b) {
            Err(e) => Err(e),
            Ok((channel, len)) => if b.len() < HEADER_LEN + len {
                Ok(None)
            } else {
                Ok(
                    Some(
                        (
                            channel,
                            b.subrange(HEADER_LEN as int, HEADER_LEN + len),
                            (HEADER_LEN + len) as nat,
                        ),
                    ),
                )
            },
        }
    }
}

/// The model of a parse result: payload bytes in place of the borrowed slice.
pub open spec fn parse_view(
    r: Result<Option<(Envelope<'_>, usize)>, EnvelopeError>,
) -> Result<Option<(Channel, Seq<u8>, nat)>, EnvelopeError> {
    match r {
        Err(e) => Err(e),
        Ok(None) => Ok(None),
        Ok(Some((env, n))) => Ok(Some((env.channel, env.payload@, n as nat))),
    }
}

/// Reads an envelope header: the channel and the number of payload bytes that
/// follow. It says so before any payload byte is read or room is made for it.
pub fn parse_header(hdr: &[u8]) -> (r: Result<(Channel, usize), EnvelopeError>)
    requires
        hdr@.len() >= HEADER_LEN,
    ensures
        match r {
            Ok((channel, len)) => header_outcome(hdr@) == Ok::<(Channel, nat), EnvelopeError>(
                (channel, len as nat),
            ),
            Err(e) => header_outcome(hdr@) == Err::<(Channel, nat), EnvelopeError>(e),
        },
        r matches Ok((_, len)) ==> len <= MAX_PAYLOAD,
        r matches Ok((channel, len)) ==> len == be32_at(hdr@, 4) && channel.code() == hdr@[3],
        r is Ok <==> hdr@[0] == 0x5A && hdr@[1] == 0x57 && hdr@[2] == 1 && (1 <= hdr@[3] <= 3
            || hdr@[3] == 0x7F) && be32_at(hdr@, 4) <= 0x10_0000,
{
    if hdr[0] != MAGIC[0] || hdr[1] != MAGIC[1] {
        let found: [u8; 2] = [hdr[0], hdr[1]];
        return Err(EnvelopeError::BadMagic(found));
    }
    if hdr[2] != PROTOCOL_VERSION {
        return Err(EnvelopeError::BadVersion(hdr[2]));
    }
    let channel = match Channel::from_u8(hdr[3]) {
        Ok(c) => c,
        Err(e) => return Err(e),
    };
    let len: usize = read_u32(hdr, 4) as usize;
    if len > MAX_PAYLOAD {
        return Err(EnvelopeError::TooLarge(len));
    }
    Ok((channel, len))
}

/// A parsed envelope. The payload is borrowed to avoid copies on the hot path.
#[derive(Debug, PartialEq, Eq)]
pub struct Envelope<'a> {
    pub channel: Channel,
    pub payload: &'a [u8],
}

impl<'a> Envelope<'a> {
    /// An envelope with this payload on this channel.
    pub fn new(channel: Channel, payload: &'a [u8]) -> (env: Envelope<'a>)
        ensures
            env.channel == channel,
            env.payload@ == payload@,
    {
        Envelope { channel, payload }
    }

    /// Appends this envelope to `out` and returns the number of bytes written.
    pub fn encode_into(&self, out: &mut Vec<u8>) -> (r: Result<usize, EnvelopeError>)
        ensures
            self.payload@.len() > MAX_PAYLOAD ==> r == Err::<usize, EnvelopeError>(
                EnvelopeError::TooLarge(self.payload@.len() as usize),
            ) && final(out)@ == old(out)@,
            self.payload@.len() <= MAX_PAYLOAD ==> r == Ok::<usize, EnvelopeError>(
                (HEADER_LEN + self.payload@.len()) as usize,
            ) && final(out)@ == old(out)@ + envelope_bytes(self.channel, self.payload@),
    {
        if self.payload.len() > MAX_PAYLOAD {
            return Err(EnvelopeError::TooLarge(self.payload.len()));
        }
        push_bytes(out, &MAGIC);
        out.push(PROTOCOL_VERSION);
        out.push(self.channel.as_u8());
        push_u32(out, self.payload.len() as u32);
        push_bytes(out, self.payload);
        assert(out@ =~= old(out)@ + envelope_bytes(self.channel, self.payload@));
        Ok(HEADER_LEN + self.payload.len())
    }

    /// Encodes to a fresh `Vec`.
    pub fn encode(&self) -> (r: Result<Vec<u8>, EnvelopeError>)
        ensures
            match r {
                Ok(v) => self.payload@.len() <= MAX_PAYLOAD && v@ == envelope_bytes(
                    self.channel,
                    self.payload@,
                ),
                Err(e) => self.payload@.len() > MAX_PAYLOAD && e == EnvelopeError::TooLarge(
                    self.payload@.len() as usize,
                ),
            },
    {
        let mut buf: Vec<u8> = Vec::new();
        match self.encode_into(&mut buf) {
            Ok(_) => {
                assert(buf@ =~= envelope_bytes(self.channel, self.payload@));
                Ok(buf)
            },
            Err(e) => Err(e),
        }
    }

    /// Tries to parse one envelope out of `buf`.
    ///
    /// Returns `Ok(Some((env, consumed)))` on success, `Ok(None)` if the
    /// buffer does not yet hold a full frame, or `Err` on a hard protocol
    /// error (the caller should close the connection).
    pub fn parse(buf: &'a [u8]) -> (r: Result<Option<(Envelope<'a>, usize)>, EnvelopeError>)
        ensures
            parse_view(r) == parse_outcome(buf@),
            r matches Ok(Some((env, n))) ==> n == 8 + be32_at(buf@, 4) && n <= buf@.len()
                && env.payload@.len() == be32_at(buf@, 4) && forall|i: int|
                0 <= i < env.payload@.len() ==> #[trigger] env.payload@[i] == buf@[8 + i],
            buf@.len() < 8 ==> r matches Ok(None),
    {
        if buf.len() < HEADER_LEN {
            return Ok(None);
        }
        let (channel, len) = match parse_header(buf) {
            Ok(h) => h,
            Err(e) => return Err(e),
        };
        let total: usize = HEADER_LEN + len;
        if buf.len() < total {
            return Ok(None);
        }
        let payload = vstd::slice::slice_subrange(buf, HEADER_LEN, total);
        Ok(Some((Envelope { channel, payload }, total)))
    }
}

/// Every channel byte names the channel that wrote it, and no other does.
pub proof fn lemma_channel_round_trip(c: Channel, v: u8)
    ensures
        Channel::of_code(c.code()) == Some(c),
        Channel::of_code(v) is Some ==> Channel::of_code(v)->Some_0.code() == v,
{
}

/// Reading an encoded envelope gives back its channel and payload and takes
/// exactly its bytes, whatever follows in the buffer.
pub proof fn lemma_envelope_round_trip(channel: Channel, payload: Seq<u8>, rest: Seq<u8>)
    requires
        payload.len() <= MAX_PAYLOAD,
    ensures
        parse_outcome(envelope_bytes(channel, payload) + rest) == Ok::<
            Option<(Channel, Seq<u8>, nat)>,
            EnvelopeError,
        >(Some((channel, payload, envelope_bytes(channel, payload).len()))),
{
    let b = envelope_bytes(channel, payload) + rest;
    lemma_be32_round_trip(payload.len() as u32);
    assert(b.subrange(4, 8) =~= be32(payload.len() as u32));
    assert(be32_at(b, 4) == be32_at(b.subrange(4, 8), 0));
    assert(b.subrange(HEADER_LEN as int, HEADER_LEN + payload.len()) =~= payload);
}

/// A proper prefix of an encoded envelope is never an error and never a frame:
/// the reader waits for more bytes.
pub proof fn lemma_envelope_prefix_waits(channel: Channel, payload: Seq<u8>, n: int)
    requires
        payload.len() <= MAX_PAYLOAD,
        0 <= n < envelope_bytes(channel, payload).len(),
    ensures
        parse_outcome(envelope_bytes(channel, payload).take(n)) == Ok::<
            Option<(Channel, Seq<u8>, nat)>,
            EnvelopeError,
        >(None),
{
    let b = envelope_bytes(channel, payload);
    let p = b.take(n);
    lemma_be32_round_trip(payload.len() as u32);
    assert(b.subrange(4, 8) =~= be32(payload.len() as u32));
    if n >= HEADER_LEN {
        assert(be32_at(p, 4) == be32_at(b.subrange(4, 8), 0));
    }
}

/// The bytes that a successful parse takes are exactly the encoding of what
/// it returns: no two byte strings stand for the same envelope.
pub proof fn lemma_envelope_canonical(b: Seq<u8>)
    requires
        parse_outcome(b) matches Ok(Some(_)),
    ensures
        parse_outcome(b) matches Ok(Some((channel, payload, n))) && n <= b.len() && payload.len()
            <= MAX_PAYLOAD && b.take(n as int) == envelope_bytes(channel, payload),
{
    if let Ok(Some((channel, payload, n))) = parse_outcome(b) {
        lemma_be32_canonical(b, 4);
        assert(b.take(n as int) =~= envelope_bytes(channel, payload));
    }
}

/// Once a header is complete, later bytes never change what it says: an error
/// stays the same error and a frame stays the same frame.
pub proof fn lemma_envelope_outcome_stable(b: Seq<u8>, more: Seq<u8>)
    requires
        parse_outcome(b) != Ok::<Option<(Channel, Seq<u8>, nat)>, EnvelopeError>(None),
    ensures
        parse_outcome(b + more) == parse_outcome(b),
{
    assert(header_outcome(b + more) == header_outcome(b));
    if let Ok((_, len)) = header_outcome(b) {
        assert((b + more).subrange(HEADER_LEN as int, HEADER_LEN + len) =~= b.subrange(
            HEADER_LEN as int,
            HEADER_LEN + len,
        ));
    }
}

/// No frame ever carries more than `MAX_PAYLOAD` bytes, and a header that
/// announces more is refused from its eight bytes alone.
pub proof fn lemma_envelope_size_cap(b: Seq<u8>)
    ensures
        parse_outcome(b) matches Ok(Some((_, payload, _))) ==> payload.len() <= MAX_PAYLOAD,
        b.len() >= HEADER_LEN && be32_at(b, 4) > MAX_PAYLOAD ==> parse_outcome(b) is Err,
        b.len() >= HEADER_LEN && header_outcome(b) is Err ==> parse_outcome(b) == Err::<
            Option<(Channel, Seq<u8>, nat)>,
            EnvelopeError,
        >(header_outcome(b)->Err_0),
{
}

/// Different channels or payloads never encode to the same bytes.
pub proof fn lemma_envelope_injective(c1: Channel, p1: Seq<u8>, c2: Channel, p2: Seq<u8>)
    requires
        p1.len() <= MAX_PAYLOAD,
        p2.len() <= MAX_PAYLOAD,
        envelope_bytes(c1, p1) == envelope_bytes(c2, p2),
    ensures
        c1 == c2,
        p1 == p2,
{
    lemma_envelope_round_trip(c1, p1, Seq::empty());
    lemma_envelope_round_trip(c2, p2, Seq::empty());
}

/// The bytes of several envelopes, one after another.
pub open spec fn stream_bytes(envelopes: Seq<(Channel, Seq<u8>)>) -> Seq<u8>
    decreases envelopes.len(),
{
    if envelopes.len() == 0 {
        Seq::empty()
    } else {
        envelope_bytes(envelopes[0].0, envelopes[0].1) + stream_bytes(envelopes.skip(1))
    }
}

/// The envelopes that a reader takes off the front of `b`, and what is left
/// when it has to wait for more or meets an error.
pub open spec fn stream_read(b: Seq<u8>) -> (Seq<(Channel, Seq<u8>)>, Seq<u8>)
    decreases b.len(),
{
    match parse_outcome(b) {
        Ok(Some((channel, payload, n))) => {
            let (later, rest) = stream_read(b.skip(n as int));
            (seq![(channel, payload)] + later, rest)
        },
        _ => (Seq::empty(), b),
    }
}

proof fn lemma_concat_associates(a: Seq<u8>, b: Seq<u8>, c: Seq<u8>)
    ensures
        (a + b) + c == a + (b + c),
{
    assert((a + b) + c =~= a + (b + c));
}

/// A reader takes the first envelope and then reads on behind it.
proof fn lemma_stream_read_first(channel: Channel, payload: Seq<u8>, more: Seq<u8>)
    requires
        payload.len() <= MAX_PAYLOAD,
    ensures
        stream_read(envelope_bytes(channel, payload) + more) == (
            seq![(channel, payload)] + stream_read(more).0,
            stream_read(more).1,
        ),
{
    lemma_envelope_round_trip(channel, payload, more);
    let first = envelope_bytes(channel, payload);
    assert((first + more).skip(first.len() as int) =~= more);
}

/// A reader takes exactly the envelopes that were written, in order, and is
/// left with the bytes behind them as long as these are no whole envelope.
pub proof fn lemma_stream_round_trip(envelopes: Seq<(Channel, Seq<u8>)>, rest: Seq<u8>)
    requires
        forall|i: int|
            0 <= i < envelopes.len() ==> (#[trigger] envelopes[i]).1.len() <= MAX_PAYLOAD,
        !(parse_outcome(rest) matches Ok(Some(_))),
    ensures
        stream_read(stream_bytes(envelopes) + rest) == (envelopes, rest),
    decreases envelopes.len(),
{
    let b = stream_bytes(envelopes) + rest;
    if envelopes.len() == 0 {
        assert(b =~= rest);
        assert(stream_read(b).0 =~= envelopes);
    } else {
        let (channel, payload) = envelopes[0];
        let tail = envelopes.skip(1);
        assert forall|i: int| 0 <= i < tail.len() implies (#[trigger] tail[i]).1.len()
            <= MAX_PAYLOAD by {
            assert(tail[i] == envelopes[i + 1]);
        }
        lemma_stream_round_trip(tail, rest);
        lemma_stream_read_first(channel, payload, stream_bytes(tail) + rest);
        lemma_concat_associates(envelope_bytes(channel, payload), stream_bytes(tail), rest);
        assert(seq![(channel, payload)] + tail =~= envelopes);
    }
}

/// The layout of an envelope: `Z`, `W`, version 1, the channel's byte, the
/// payload's length as a big-endian word, then the payload as it is.
pub proof fn lemma_envelope_layout(channel: Channel, payload: Seq<u8>)
    requires
        payload.len() <= 0x10_0000,
    ensures
        envelope_bytes(channel, payload).len() == 8 + payload.len(),
        envelope_bytes(channel, payload)[0] == 0x5A,
        envelope_bytes(channel, payload)[1] == 0x57,
        envelope_bytes(channel, payload)[2] == 1,
        channel == Channel::Control <==> envelope_bytes(channel, payload)[3] == 1,
        channel == Channel::Usbip <==> envelope_bytes(channel, payload)[3] == 2,
        channel == Channel::Hid <==> envelope_bytes(channel, payload)[3] == 3,
        channel == Channel::Keepalive <==> envelope_bytes(channel, payload)[3] == 0x7F,
        be32_at(envelope_bytes(channel, payload), 4) == payload.len(),
        forall|i: int|
            0 <= i < payload.len() ==> #[trigger] envelope_bytes(channel, payload)[8 + i]
                == payload[i],
{
    let b = envelope_bytes(channel, payload);
    lemma_be32_round_trip(payload.len() as u32);
    assert(b.subrange(4, 8) =~= be32(payload.len() as u32));
    assert(be32_at(b, 4) == be32_at(b.subrange(4, 8), 0));
}

/// When a buffer is refused, and as what: the magic is looked at first, then the
/// version, the channel and the length, which may be one MiB at most.
pub proof fn lemma_envelope_refusals(b: Seq<u8>)
    requires
        b.len() >= 8,
    ensures
        parse_outcome(b) matches Err(EnvelopeError::BadMagic(m)) ==> m@[0] == b[0] && m@[1] == b[1],
        parse_outcome(b) matches Err(EnvelopeError::BadMagic(_)) <==> !(b[0] == 0x5A && b[1]
            == 0x57),
        parse_outcome(b) matches Err(EnvelopeError::BadVersion(_)) <==> b[0] == 0x5A && b[1] == 0x57
            && b[2] != 1,
        parse_outcome(b) matches Err(EnvelopeError::BadVersion(v)) ==> v == b[2],
        parse_outcome(b) matches Err(EnvelopeError::UnknownChannel(_)) <==> b[0] == 0x5A && b[1]
            == 0x57 && b[2] == 1 && !(1 <= b[3] <= 3 || b[3] == 0x7F),
        parse_outcome(b) matches Err(EnvelopeError::UnknownChannel(c)) ==> c == b[3],
        parse_outcome(b) matches Err(EnvelopeError::TooLarge(_)) <==> b[0] == 0x5A && b[1] == 0x57
            && b[2] == 1 && (1 <= b[3] <= 3 || b[3] == 0x7F) && be32_at(b, 4) > 0x10_0000,
        parse_outcome(b) matches Err(EnvelopeError::TooLarge(n)) ==> n == be32_at(b, 4),
        !(parse_outcome(b) matches Err(EnvelopeError::Short(_))),
{
    let found: [u8; 2] = [b[0], b[1]];
    assert(found@[0] == b[0] && found@[1] == b[1]);
}

/// What a reader takes: from a sound header that announces `n` bytes, once all
/// are there, the channel of the fourth byte and just the `n` bytes behind the
/// header; while some are missing, nothing.
pub proof fn lemma_envelope_taken(b: Seq<u8>)
    requires
        b.len() >= 8,
        b[0] == 0x5A,
        b[1] == 0x57,
        b[2] == 1,
        1 <= b[3] <= 3 || b[3] == 0x7F,
        be32_at(b, 4) <= 0x10_0000,
    ensures
        b.len() < 8 + be32_at(b, 4) ==> parse_outcome(b) == Ok::<
            Option<(Channel, Seq<u8>, nat)>,
            EnvelopeError,
        >(None),
        b.len() >= 8 + be32_at(b, 4) ==> (parse_outcome(b) matches Ok(Some((channel, payload, n)))
            && n == 8 + be32_at(b, 4) && payload.len() == be32_at(b, 4) && (channel
            == Channel::Control <==> b[3] == 1) && (channel == Channel::Usbip <==> b[3] == 2) && (
        channel == Channel::Hid <==> b[3] == 3) && (forall|i: int|
            0 <= i < payload.len() ==> #[trigger] payload[i] == b[8 + i])),
{
}

} // verus!
