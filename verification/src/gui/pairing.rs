//! The pairing payload that goes into the QR code.
//!
//! ```text
//!   zerowire://pair?host=<HOST>&port=<PORT>&code=<PAIRING_CODE>
//! ```
//!
//! The phone app reads the same format.

use rand::Rng;
use vstd::prelude::*;

use crate::scan::{contains_text, digit_value, find_text, lemma_number_round_trip, stands_at};
use crate::text::{chars_of, dec, digit_char, push_dec, push_str};

verus! {

/// The letters of a pairing code: those that are hard to confuse.
pub const ALPHABET: &'static str = "ABCDEFGHJKLMNPQRSTUVWXYZ23456789";

/// Length of a pairing code.
pub const CODE_LEN: usize = 12;

/// What a phone needs to connect.
#[derive(Clone, Debug)]
pub struct PairingPayload {
    pub host: String,
    pub port: u16,
    pub code: String,
}

/// Why a payload is refused.
#[derive(Clone, Copy, Debug, PartialEq, Eq, Structural)]
pub enum PairingError {
    /// The payload names no port.
    MissingPort,
}

/// Capital letters but I and O, and digits but 0 and 1.
pub open spec fn is_code_char(c: char) -> bool {
    let u = c as u32;
    (0x41 <= u <= 0x5A && u != 0x49 && u != 0x4F) || 0x32 <= u <= 0x39
}

/// The alphabet holds 32 characters, and only such as a code may have.
pub proof fn lemma_alphabet()
    ensures
        ALPHABET@.len() == 32,
        forall|i: int| 0 <= i < 32 ==> is_code_char(#[trigger] ALPHABET@[i]),
{
    reveal_strlit("ABCDEFGHJKLMNPQRSTUVWXYZ23456789");
}

/// `Rng::gen_range` over `0..n` on `rand::thread_rng()`: some index below `n`.
/// Which one is left open: it is drawn at random. `thread_rng` panics where the
/// operating system has no source of randomness, whatever `n` is.
#[verifier::external_body]
fn random_index(n: usize) -> (i: usize)
    requires
        n > 0,
    ensures
        i < n,
{
    rand::thread_rng().gen_range(0..n)
}

/// The code that drawn indices spell.
pub fn code_from(indices: &[usize]) -> (s: String)
    requires
        forall|k: int| 0 <= k < indices@.len() ==> #[trigger] indices@[k] < 32,
    ensures
        s@ == Seq::new(indices@.len(), |k: int| ALPHABET@[indices@[k] as int]),
{
    let letters = chars_of(ALPHABET);
    proof {
        lemma_alphabet();
    }
    let mut s = String::new();
    let mut k: usize = 0;
    while k < indices.len()
        invariant
            k <= indices@.len(),
            letters@ == ALPHABET@,
            letters@.len() == 32,
            forall|j: int| 0 <= j < indices@.len() ==> #[trigger] indices@[j] < 32,
            s@ == Seq::new(k as nat, |j: int| ALPHABET@[indices@[j] as int]),
        decreases indices@.len() - k,
    {
        s.push(letters[indices[k]]);
        k += 1;
        assert(s@ =~= Seq::new(k as nat, |j: int| ALPHABET@[indices@[j] as int]));
    }
    s
}

/// A fresh pairing code: twelve characters of the alphabet, drawn at random.
/// Nobody types it, the QR code carries it, so it can be long.
pub fn random_code() -> (s: String)
    ensures
        s@.len() == CODE_LEN,
        s@.len() == 12,
        forall|k: int| 0 <= k < s@.len() ==> is_code_char(#[trigger] s@[k]),
{
    let mut indices: Vec<usize> = Vec::new();
    while indices.len() < CODE_LEN
        invariant
            indices@.len() <= CODE_LEN,
            forall|j: int| 0 <= j < indices@.len() ==> #[trigger] indices@[j] < 32,
        decreases CODE_LEN - indices@.len(),
    {
        let i: usize = random_index(32);
        indices.push(i);
    }
    let s = code_from(indices.as_slice());
    proof {
        lemma_alphabet();
        assert forall|k: int| 0 <= k < s@.len() implies is_code_char(#[trigger] s@[k]) by {
            assert(indices@[k] < 32);
        }
    }
    s
}

/// `local_ip_address::local_ip`: the machine's address on its local network, as
/// text. Which one, and whether there is one, depends on the machine; the text
/// of an `IpAddr` is never empty.
#[verifier::external_body]
fn local_address() -> (r: Option<String>)
    ensures
        r matches Some(s) ==> s@.len() > 0,
{
    match local_ip_address::local_ip() {
        Ok(ip) => Some(ip.to_string()),
        Err(_) => None,
    }
}

/// Whether a byte stands for itself in a URL.
pub open spec fn url_safe(b: u8) -> bool {
    ||| 0x30 <= b <= 0x39
    ||| 0x41 <= b <= 0x5A
    ||| 0x61 <= b <= 0x7A
    ||| b == 0x2D
    ||| b == 0x5F
    ||| b == 0x2E
    ||| b == 0x7E
}

/// A hexadecimal digit in upper case.
pub open spec fn upper_digit(d: u8) -> char {
    if d < 10 {
        (0x30 + d) as u8 as char
    } else {
        (0x37 + d) as u8 as char
    }
}

/// A byte in a URL: itself where that is safe, else a percent sign and two
/// hexadecimal digits.
pub open spec fn url_byte(b: u8) -> Seq<char> {
    if url_safe(b) {
        seq![b as char]
    } else {
        seq!['%', upper_digit(b / 16), upper_digit(b % 16)]
    }
}

/// Bytes in a URL.
pub open spec fn url_bytes(b: Seq<u8>) -> Seq<char>
    decreases b.len(),
{
    if b.len() == 0 {
        Seq::empty()
    } else {
        url_byte(b[0]) + url_bytes(b.skip(1))
    }
}

/// A text in a URL.
pub open spec fn url_text(s: Seq<char>) -> Seq<char> {
    url_bytes(vstd::utf8::encode_utf8(s))
}

fn upper(d: u8) -> (c: char)
    requires
        d < 16,
    ensures
        c == upper_digit(d),
{
    if d < 10 {
        (0x30 + d) as char
    } else {
        (0x37 + d) as char
    }
}

/// Encodes a text for a URL.
pub fn urlencode(s: &str) -> (out: String)
    ensures
        out@ == url_text(s@),
{
    let b = s.as_bytes();
    let mut out = String::new();
    let mut i: usize = 0;
    assert(b@.skip(0) =~= b@);
    assert(out@ + url_bytes(b@) =~= url_bytes(b@));
    while i < b.len()
        invariant
            i <= b@.len(),
            out@ + url_bytes(b@.skip(i as int)) == url_bytes(b@),
        decreases b@.len() - i,
    {
        let c: u8 = b[i];
        let ghost before = out@;
        let ghost here = b@.skip(i as int);
        let safe = (0x30 <= c && c <= 0x39) || (0x41 <= c && c <= 0x5A) || (0x61 <= c && c <= 0x7A)
            || c == 0x2D || c == 0x5F || c == 0x2E || c == 0x7E;
        if safe {
            out.push(c as char);
        } else {
            out.push('%');
            out.push(upper(c / 16));
            out.push(upper(c % 16));
        }
        assert(here[0] == c);
        assert(out@ =~= before + url_byte(c));
        assert(here.skip(1) =~= b@.skip(i + 1));
        i += 1;
        assert(out@ + url_bytes(b@.skip(i as int)) =~= before + url_bytes(here));
    }
    assert(out@ =~= url_bytes(b@));
    out
}

/// The text of a payload.
pub open spec fn payload_text(host: Seq<char>, port: u16, code: Seq<char>) -> Seq<char> {
    "zerowire://pair?host="@ + url_text(host) + "&port="@ + dec(port as nat) + "&code="@ + url_text(
        code,
    )
}

impl PairingPayload {
    /// A payload for the machine's address, or for loopback where it has none.
    pub fn for_host(address: Option<String>, port: u16, code: String) -> (p: PairingPayload)
        ensures
            p.host@ == match address {
                Some(a) => a@,
                None => "127.0.0.1"@,
            },
            p.port == port,
            p.code@ == code@,
    {
        let host = match address {
            Some(a) => a,
            None => "127.0.0.1".to_owned(),
        };
        PairingPayload { host, port, code }
    }

    /// Generates a fresh payload with this machine's address on the LAN, or
    /// loopback where none can be found.
    pub fn generate(port: u16) -> (r: Result<PairingPayload, PairingError>)
        ensures
            r is Ok,
            r->Ok_0.host@.len() > 0,
            r->Ok_0.port == port,
            r->Ok_0.code@.len() == CODE_LEN,
            forall|k: int|
                0 <= k < r->Ok_0.code@.len() ==> is_code_char(#[trigger] r->Ok_0.code@[k]),
    {
        proof {
            reveal_strlit("127.0.0.1");
        }
        Ok(PairingPayload::for_host(local_address(), port, random_code()))
    }

    /// The text that goes into the QR code.
    pub fn encode(&self) -> (s: String)
        ensures
            s@ == payload_text(self.host@, self.port, self.code@),
            s@ == "zerowire://pair?host="@ + url_text(self.host@) + "&port="@ + dec(
                self.port as nat,
            ) + "&code="@ + url_text(self.code@),
    {
        let mut s = String::new();
        push_str(&mut s, "zerowire://pair?host=");
        push_str(&mut s, urlencode(self.host.as_str()).as_str());
        push_str(&mut s, "&port=");
        push_dec(&mut s, self.port as u64);
        push_str(&mut s, "&code=");
        push_str(&mut s, urlencode(self.code.as_str()).as_str());
        assert(s@ =~= payload_text(self.host@, self.port, self.code@));
        s
    }

    /// `host:port`, for connecting by hand.
    pub fn local_endpoint(&self) -> (s: String)
        ensures
            s@ == self.host@ + ":"@ + dec(self.port as nat),
    {
        let mut s = String::new();
        push_str(&mut s, self.host.as_str());
        push_str(&mut s, ":");
        push_dec(&mut s, self.port as u64);
        assert(s@ =~= self.host@ + ":"@ + dec(self.port as nat));
        s
    }
}

/// Checks that a payload names a port.
pub fn ensure_default_port_present(payload: &str) -> (r: Result<(), PairingError>)
    ensures
        r == if contains_text(payload@, "&port="@) {
            Ok::<(), PairingError>(())
        } else {
            Err(PairingError::MissingPort)
        },
{
    let c = chars_of(payload);
    let p = chars_of("&port=");
    match find_text(c.as_slice(), p.as_slice()) {
        Some(i) => {
            assert(stands_at(payload@, "&port="@, i as int));
            Ok(())
        },
        None => Err(PairingError::MissingPort),
    }
}

/// Every payload names its port: the check on it succeeds.
pub proof fn lemma_payload_has_port(host: Seq<char>, port: u16, code: Seq<char>)
    ensures
        contains_text(payload_text(host, port, code), "&port="@),
        contains_text(payload_text(host, port, code), "&port="@ + dec(port as nat)),
        contains_text(payload_text(host, port, code), "&code="@),
{
    let s = payload_text(host, port, code);
    let head = "zerowire://pair?host="@ + url_text(host);
    let p = "&port="@;
    let d = dec(port as nat);
    let i = head.len() as int;
    assert(s.subrange(i, i + p.len()) =~= p);
    assert(stands_at(s, p, i));
    assert(s.subrange(i, i + (p + d).len()) =~= p + d);
    assert(stands_at(s, p + d, i));
    let j = i + p.len() + d.len();
    assert(s.subrange(j, j + "&code="@.len()) =~= "&code="@);
    assert(stands_at(s, "&code="@, j));
}

/// A URL-encoded text holds letters, digits and `-_.~%` only, so neither of the
/// marks that part a payload.
pub proof fn lemma_url_alphabet(b: Seq<u8>)
    ensures
        forall|i: int|
            0 <= i < url_bytes(b).len() ==> {
                let c = #[trigger] url_bytes(b)[i];
                c == '%' || (c as u32 <= 0xFF && url_safe(c as u8))
            },
    decreases b.len(),
{
    if b.len() > 0 {
        let rest = url_bytes(b.skip(1));
        let head = url_byte(b[0]);
        lemma_url_alphabet(b.skip(1));
        assert forall|i: int| 0 <= i < url_bytes(b).len() implies {
            let c = #[trigger] url_bytes(b)[i];
            c == '%' || (c as u32 <= 0xFF && url_safe(c as u8))
        } by {
            if i >= head.len() {
                assert(url_bytes(b)[i] == rest[i - head.len()]);
            } else {
                assert(url_bytes(b)[i] == head[i]);
            }
        }
    }
}

/// The byte that an upper- or lower-case hexadecimal digit stands for.
spec fn digit_of(c: char) -> int {
    match digit_value(c, 16) {
        Some(d) => d as int,
        None => 0,
    }
}

/// Undoes `url_bytes`.
spec fn url_decode(s: Seq<char>) -> Seq<u8>
    decreases s.len(),
{
    if s.len() == 0 {
        Seq::empty()
    } else if s[0] == '%' && s.len() >= 3 {
        seq![(16 * digit_of(s[1]) + digit_of(s[2])) as u8] + url_decode(s.skip(3))
    } else {
        seq![s[0] as u8] + url_decode(s.skip(1))
    }
}

proof fn lemma_url_decode(b: Seq<u8>)
    ensures
        url_decode(url_bytes(b)) == b,
    decreases b.len(),
{
    if b.len() > 0 {
        let s = url_bytes(b);
        let rest = url_bytes(b.skip(1));
        lemma_url_decode(b.skip(1));
        if url_safe(b[0]) {
            assert(s[0] == b[0] as char);
            assert(s.skip(1) =~= rest);
        } else {
            assert(s[0] == '%' && s[1] == upper_digit(b[0] / 16) && s[2] == upper_digit(b[0] % 16));
            assert(s.skip(3) =~= rest);
            assert(digit_of(s[1]) == b[0] / 16);
            assert(digit_of(s[2]) == b[0] % 16);
        }
        assert(url_decode(s) =~= b);
    }
}

/// Different texts are never encoded alike.
pub proof fn lemma_url_text_injective(a: Seq<char>, b: Seq<char>)
    requires
        url_text(a) == url_text(b),
    ensures
        a == b,
{
    lemma_url_decode(vstd::utf8::encode_utf8(a));
    lemma_url_decode(vstd::utf8::encode_utf8(b));
    vstd::utf8::encode_utf8_decode_utf8(a);
    vstd::utf8::encode_utf8_decode_utf8(b);
}

/// What stands before and behind the first mark of a text is determined by it.
proof fn lemma_split_at_mark(
    a: Seq<char>,
    b: Seq<char>,
    c: Seq<char>,
    d: Seq<char>,
    mark: Seq<char>,
)
    requires
        mark.len() > 0,
        !a.contains(mark[0]),
        !c.contains(mark[0]),
        a + mark + b == c + mark + d,
    ensures
        a == c,
        b == d,
{
    let s = a + mark + b;
    let t = c + mark + d;
    assert(s[a.len() as int] == mark[0]);
    assert(t[c.len() as int] == mark[0]);
    if a.len() < c.len() {
        assert(t[a.len() as int] == c[a.len() as int]);
        assert(c.contains(c[a.len() as int]));
    }
    if c.len() < a.len() {
        assert(s[c.len() as int] == a[c.len() as int]);
        assert(a.contains(a[c.len() as int]));
    }
    assert(a =~= s.take(a.len() as int));
    assert(c =~= t.take(c.len() as int));
    assert(b =~= s.skip((a.len() + mark.len()) as int));
    assert(d =~= t.skip((c.len() + mark.len()) as int));
}

proof fn lemma_no_ampersand_in_number(n: nat)
    ensures
        !dec(n).contains('&'),
    decreases n,
{
    let s = dec(n);
    if n >= 10 {
        lemma_no_ampersand_in_number(n / 10);
        let head = dec(n / 10);
        assert(s == head.push(digit_char(n % 10)));
        if s.contains('&') {
            let i = choose|i: int| 0 <= i < s.len() && s[i] == '&';
            if i < head.len() {
                assert(head[i] == '&');
            }
        }
    }
}

/// A payload says exactly one host, port and code: different ones never give
/// the same text.
pub proof fn lemma_payload_injective(
    host1: Seq<char>,
    port1: u16,
    code1: Seq<char>,
    host2: Seq<char>,
    port2: u16,
    code2: Seq<char>,
)
    requires
        payload_text(host1, port1, code1) == payload_text(host2, port2, code2),
    ensures
        host1 == host2,
        port1 == port2,
        code1 == code2,
{
    reveal_strlit("&port=");
    reveal_strlit("&code=");
    let head = "zerowire://pair?host="@;
    let s1 = payload_text(host1, port1, code1);
    let s2 = payload_text(host2, port2, code2);
    let (h1, h2) = (url_text(host1), url_text(host2));
    let (p1, p2) = (dec(port1 as nat), dec(port2 as nat));
    let (c1, c2) = (url_text(code1), url_text(code2));
    let r1 = p1 + "&code="@ + c1;
    let r2 = p2 + "&code="@ + c2;
    assert(s1.skip(head.len() as int) =~= h1 + "&port="@ + r1);
    assert(s2.skip(head.len() as int) =~= h2 + "&port="@ + r2);
    lemma_url_alphabet(vstd::utf8::encode_utf8(host1));
    lemma_url_alphabet(vstd::utf8::encode_utf8(host2));
    assert(!h1.contains('&'));
    assert(!h2.contains('&'));
    lemma_split_at_mark(h1, r1, h2, r2, "&port="@);
    lemma_no_ampersand_in_number(port1 as nat);
    lemma_no_ampersand_in_number(port2 as nat);
    lemma_split_at_mark(p1, c1, p2, c2, "&code="@);
    lemma_url_text_injective(host1, host2);
    lemma_url_text_injective(code1, code2);
    lemma_number_round_trip(port1 as nat, 10, 0xFFFF);
    lemma_number_round_trip(port2 as nat, 10, 0xFFFF);
}

/// A pairing code needs no escapes: it stands in the payload as it is.
pub proof fn lemma_code_is_url_safe(code: Seq<char>)
    requires
        forall|k: int| 0 <= k < code.len() ==> is_code_char(#[trigger] code[k]),
    ensures
        url_text(code) == code,
{
    let b = vstd::utf8::encode_utf8(code);
    assert forall|i: int| 0 <= i < code.len() implies '\0' <= #[trigger] code[i] <= '\u{7f}' by {
        assert(is_code_char(code[i]));
        vstd::utf8::char_u32_cast(code[i], code[i] as u32);
    }
    vstd::utf8::is_ascii_chars_encode_utf8(code);
    assert forall|i: int| 0 <= i < b.len() implies url_safe(#[trigger] b[i]) by {
        assert(is_code_char(code[i]));
    }
    lemma_safe_bytes(b);
    assert(url_bytes(b) =~= code);
}

proof fn lemma_safe_bytes(b: Seq<u8>)
    requires
        forall|i: int| 0 <= i < b.len() ==> url_safe(#[trigger] b[i]),
    ensures
        url_bytes(b) == Seq::new(b.len(), |i: int| b[i] as char),
    decreases b.len(),
{
    if b.len() > 0 {
        let rest = b.skip(1);
        assert forall|i: int| 0 <= i < rest.len() implies url_safe(#[trigger] rest[i]) by {
            assert(rest[i] == b[i + 1]);
        }
        lemma_safe_bytes(rest);
    }
    assert(url_bytes(b) =~= Seq::new(b.len(), |i: int| b[i] as char));
}

/// How a byte is written in a URL: letters, digits and `-_.~` as they are, any
/// other as a percent sign and its two hexadecimal digits in upper case, the
/// high one first.
pub proof fn lemma_url_byte(b: u8)
    ensures
        ({
            let plain = '0' as int <= b <= '9' as int || 'A' as int <= b <= 'Z' as int || 'a' as int
                <= b <= 'z' as int || b == '-' as int || b == '_' as int || b == '.' as int || b
                == '~' as int;
            let t = url_byte(b);
            &&& plain ==> t.len() == 1 && t[0] as int == b
            &&& !plain ==> t.len() == 3 && t[0] == '%' && digit_value(t[1], 16) == Some(
                (b / 16) as nat,
            ) && digit_value(t[2], 16) == Some((b % 16) as nat)
            &&& !plain ==> !('a' as int <= t[1] as int <= 'f' as int) && !('a' as int
                <= t[2] as int <= 'f' as int)
        }),
{
}

/// A text in a URL is its bytes one after another.
pub proof fn lemma_url_bytes_in_order(b: Seq<u8>, next: u8)
    ensures
        url_bytes(Seq::<u8>::empty()) == Seq::<char>::empty(),
        url_bytes(b.push(next)) == url_bytes(b) + url_byte(next),
    decreases b.len(),
{
    let all = b.push(next);
    if b.len() == 0 {
        assert(all[0] == next);
        assert(all.skip(1) =~= b);
        assert(url_bytes(b) =~= Seq::<char>::empty());
        assert(url_bytes(all) =~= url_bytes(b) + url_byte(next));
    } else {
        assert(all[0] == b[0]);
        assert(all.skip(1) =~= b.skip(1).push(next));
        lemma_url_bytes_in_order(b.skip(1), next);
        assert(url_bytes(all) =~= url_bytes(b) + url_byte(next));
    }
}

/// The characters of a code: capital letters without I and O, digits without 0
/// and 1; none is mistaken for another.
pub proof fn lemma_code_characters(c: char)
    ensures
        is_code_char(c) <==> ('A' as int <= c as int <= 'Z' as int && c != 'I' && c != 'O') || '2' as int
            <= c as int <= '9' as int,
{
}

} // verus!
