//! Envelopes on a blocking stream: read the header, then as many bytes as it
//! announces.

use vstd::prelude::*;

use crate::bytes::be32_at;
use crate::protocol::envelope::{
    header_outcome, parse_header, parse_outcome, Channel, Envelope, EnvelopeError, HEADER_LEN,
};

verus! {

/// A received envelope that owns its payload.
#[derive(Debug)]
pub struct OwnedEnvelope {
    pub channel: Channel,
    pub payload: Vec<u8>,
}

/// How many payload bytes follow a header. A header that is no envelope's is
/// refused before anything is read or allocated for it.
pub fn payload_len(header: &[u8]) -> (r: Result<usize, EnvelopeError>)
    requires
        header@.len() == HEADER_LEN,
    ensures
        match r {
            Ok(n) => header_outcome(header@) is Ok && header_outcome(header@)->Ok_0.1 == n,
            Err(e) => header_outcome(header@) == Err::<(Channel, nat), EnvelopeError>(e),
        },
        r matches Ok(n) ==> n == be32_at(header@, 4),
        r is Ok <==> header@[0] == 0x5A && header@[1] == 0x57 && header@[2] == 1 && (1 <= header@[3]
            <= 3 || header@[3] == 0x7F) && be32_at(header@, 4) <= 0x10_0000,
{
    match parse_header(header) {
        Ok((_, n)) => Ok(n),
        Err(e) => Err(e),
    }
}

/// Makes an envelope of a header and the payload it announces. The outcome is
/// that of parsing the bytes as a whole.
pub fn own_envelope(header: &[u8], payload: Vec<u8>) -> (r: Result<OwnedEnvelope, EnvelopeError>)
    requires
        header@.len() == HEADER_LEN,
        header_outcome(header@) matches Ok((_, n)) ==> payload@.len() == n,
    ensures
        match r {
            Ok(e) => parse_outcome(header@ + payload@) == Ok::<
                Option<(Channel, Seq<u8>, nat)>,
                EnvelopeError,
            >(Some((e.channel, e.payload@, (HEADER_LEN + payload@.len()) as nat))) && e.payload@
                == payload@,
            Err(e) => parse_outcome(header@ + payload@) == Err::<
                Option<(Channel, Seq<u8>, nat)>,
                EnvelopeError,
            >(e),
        },
        r matches Ok(e) ==> e.channel.code() == header@[3],
{
    let ghost whole = header@ + payload@;
    assert(header_outcome(whole) == header_outcome(header@));
    assert(whole.subrange(HEADER_LEN as int, HEADER_LEN + payload@.len()) =~= payload@);
    match parse_header(header) {
        Ok((channel, _)) => Ok(OwnedEnvelope { channel, payload }),
        Err(e) => Err(e),
    }
}

/// The bytes to write for a payload.
pub fn envelope_to_send(channel: Channel, payload: &[u8]) -> (r: Result<Vec<u8>, EnvelopeError>)
    ensures
        match r {
            Ok(v) => payload@.len() <= crate::protocol::envelope::MAX_PAYLOAD && v@
                == crate::protocol::envelope::envelope_bytes(channel, payload@),
            Err(e) => payload@.len() > crate::protocol::envelope::MAX_PAYLOAD && e
                == EnvelopeError::TooLarge(payload@.len() as usize),
        },
{
    Envelope::new(channel, payload).encode()
}

/// The payload of a control envelope; anything else is refused with its
/// channel.
pub fn control_payload(env: OwnedEnvelope) -> (r: Result<Vec<u8>, Channel>)
    ensures
        match r {
            Ok(p) => env.channel == Channel::Control && p@ == env.payload@,
            Err(c) => env.channel != Channel::Control && c == env.channel,
        },
{
    match env.channel {
        Channel::Control => Ok(env.payload),
        other => Err(other),
    }
}

} // verus!
