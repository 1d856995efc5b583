//! What the receiver makes of the senders it finds on the LAN.

use vstd::prelude::*;

use crate::protocol::discovery::{
    join_commas, join_texts, lemma_join_split, pairs_model, split_commas, txt, txt_model,
    ResolvedModel, ResolvedSender,
};
use crate::scan::{
    contains_text, find_char, find_text, lemma_index_of, lemma_number_round_trip, number,
    parse_number,
};
use crate::text::{chars_of, dec, push_dec, push_str, same_text, string_of, texts};

verus! {

/// The value of the last property with the given key.
pub open spec fn txt_get(pairs: Seq<(Seq<char>, Seq<char>)>, key: Seq<char>) -> Option<Seq<char>>
    decreases pairs.len(),
{
    if pairs.len() == 0 {
        None
    } else if pairs.last().0 == key {
        Some(pairs.last().1)
    } else {
        txt_get(pairs.drop_last(), key)
    }
}

/// The value of the last property with the given key.
pub fn txt_value<'a>(pairs: &'a [(String, String)], key: &str) -> (r: Option<&'a str>)
    ensures
        match r {
            Some(v) => txt_get(pairs_model(pairs@), key@) == Some(v@),
            None => txt_get(pairs_model(pairs@), key@) is None,
        },
        match r {
            Some(v) => exists|k: int|
                0 <= k < pairs@.len() && (#[trigger] pairs@[k]).0@ == key@ && pairs@[k].1@ == v@
                    && forall|j: int| k < j < pairs@.len() ==> (#[trigger] pairs@[j]).0@ != key@,
            None => forall|j: int| 0 <= j < pairs@.len() ==> (#[trigger] pairs@[j]).0@ != key@,
        },
{
    let ghost all = pairs_model(pairs@);
    let mut i: usize = pairs.len();
    assert(all.take(i as int) =~= all);
    while i > 0
        invariant
            i <= pairs@.len(),
            all == pairs_model(pairs@),
            txt_get(all, key@) == txt_get(all.take(i as int), key@),
            forall|j: int| i <= j < pairs@.len() ==> (#[trigger] pairs@[j]).0@ != key@,
        decreases i,
    {
        let ghost here = all.take(i as int);
        assert(here.last() == all[i - 1]);
        assert(here.drop_last() =~= all.take(i - 1));
        i -= 1;
        if same_text(pairs[i].0.as_str(), key) {
            return Some(pairs[i].1.as_str());
        }
    }
    None
}

/// What the receiver makes of a resolved service: properties of the TXT record
/// come first, what the record does not say comes from the service itself.
pub open spec fn resolved_model(
    pairs: Seq<(Seq<char>, Seq<char>)>,
    address: Option<Seq<char>>,
    hostname: Seq<char>,
    srv_port: u16,
    fullname: Seq<char>,
) -> ResolvedModel {
    ResolvedModel {
        sender_id: match txt_get(pairs, txt::SENDER_ID@) {
            Some(id) => id,
            None => Seq::empty(),
        },
        name: match txt_get(pairs, txt::NAME@) {
            Some(n) => n,
            None => fullname,
        },
        host: match address {
            Some(a) => a,
            None => hostname,
        },
        port: match txt_get(pairs, txt::PORT@) {
            Some(p) => match number(p, 10, 0xFFFF) {
                Some(n) => n as u16,
                None => srv_port,
            },
            None => srv_port,
        },
        capabilities: match txt_get(pairs, txt::CAPABILITIES@) {
            Some(c) => split_commas(c),
            None => Seq::empty(),
        },
        version: match txt_get(pairs, txt::VERSION@) {
            Some(v) => match number(v, 10, 0xFF) {
                Some(n) => n as u8,
                None => 1,
            },
            None => 1,
        },
    }
}

/// What stands between the commas of a text.
fn split_list(s: &str) -> (v: Vec<String>)
    ensures
        texts(v@) == split_commas(s@),
{
    let c = chars_of(s);
    let mut v: Vec<String> = Vec::new();
    let mut at: usize = 0;
    assert(c@.skip(0) =~= c@);
    assert(texts(v@) + split_commas(c@) =~= split_commas(c@));
    loop
        invariant
            at <= c@.len(),
            c@ == s@,
            texts(v@) + split_commas(c@.skip(at as int)) == split_commas(s@),
        decreases c@.len() - at,
    {
        let ghost here = c@.skip(at as int);
        let ghost before = v@;
        let n: usize = find_char(c.as_slice(), at, ',');
        proof {
            lemma_index_of(here, ',');
        }
        let item = string_of(vstd::slice::slice_subrange(c.as_slice(), at, n));
        assert(item@ =~= here.take(n - at));
        v.push(item);
        assert(texts(v@) =~= texts(before).push(item@));
        if n == c.len() {
            assert(here.take(n - at) =~= here);
            assert(texts(v@) =~= split_commas(s@));
            return v;
        }
        assert(here.skip(n - at + 1) =~= c@.skip(n + 1));
        assert(texts(v@) + split_commas(c@.skip(n + 1)) =~= texts(before) + split_commas(here));
        at = n + 1;
    }
}

fn number_or(s: Option<&str>, max: u64, other: u64) -> (n: u64)
    requires
        max <= 0xFFFF_FFFF,
        other <= max,
    ensures
        n == match s {
            Some(t) => match number(t@, 10, max as nat) {
                Some(k) => k,
                None => other as nat,
            },
            None => other as nat,
        },
        n <= max,
{
    match s {
        Some(t) => {
            let c = chars_of(t);
            match parse_number(c.as_slice(), 10, max) {
                Some(k) => k,
                None => other,
            }
        },
        None => other,
    }
}

/// Makes a sender of a resolved service: the properties of its TXT record, the
/// first of its addresses if it has any, its host name, its port and its full
/// name.
pub fn resolve_sender(
    pairs: &[(String, String)],
    address: Option<&str>,
    hostname: &str,
    srv_port: u16,
    fullname: &str,
) -> (s: ResolvedSender)
    ensures
        s@ == resolved_model(
            pairs_model(pairs@),
            match address {
                Some(a) => Some(a@),
                None => None,
            },
            hostname@,
            srv_port,
            fullname@,
        ),
{
    let sender_id = match txt_value(pairs, txt::SENDER_ID) {
        Some(id) => id.to_owned(),
        None => String::new(),
    };
    let name = match txt_value(pairs, txt::NAME) {
        Some(n) => n.to_owned(),
        None => fullname.to_owned(),
    };
    let host = match address {
        Some(a) => a.to_owned(),
        None => hostname.to_owned(),
    };
    let port: u16 = number_or(txt_value(pairs, txt::PORT), 0xFFFF, srv_port as u64) as u16;
    let version: u8 = number_or(txt_value(pairs, txt::VERSION), 0xFF, 1) as u8;
    let capabilities: Vec<String> = match txt_value(pairs, txt::CAPABILITIES) {
        Some(c) => split_list(c),
        None => {
            let none: Vec<String> = Vec::new();
            assert(texts(none@) =~= Seq::<Seq<char>>::empty());
            none
        },
    };
    assert(sender_id@ =~= match txt_get(pairs_model(pairs@), txt::SENDER_ID@) {
        Some(id) => id,
        None => Seq::empty(),
    });
    ResolvedSender { sender_id, name, host, port, capabilities, version }
}

/// What a sender advertises is what a receiver resolves, whatever the service
/// record says besides: id, name, port, version 1 and the capabilities, as
/// long as there is at least one and none holds a comma.
pub proof fn lemma_advertised_is_resolved(
    sender_id: Seq<char>,
    name: Seq<char>,
    port: u16,
    capabilities: Seq<Seq<char>>,
    address: Option<Seq<char>>,
    hostname: Seq<char>,
    srv_port: u16,
    fullname: Seq<char>,
)
    requires
        capabilities.len() > 0,
        forall|i: int|
            0 <= i < capabilities.len() ==> !(#[trigger] capabilities[i]).contains(','),
    ensures
        resolved_model(
            txt_model(sender_id, name, port, capabilities),
            address,
            hostname,
            srv_port,
            fullname,
        ) == (ResolvedModel {
            sender_id,
            name,
            host: match address {
                Some(a) => a,
                None => hostname,
            },
            port,
            capabilities,
            version: 1,
        }),
{
    let pairs = txt_model(sender_id, name, port, capabilities);
    reveal_strlit("v");
    reveal_strlit("id");
    reveal_strlit("n");
    reveal_strlit("caps");
    reveal_strlit("port");
    reveal_strlit("1");
    assert(txt::VERSION@[0] == 'v' && txt::VERSION@.len() == 1);
    assert(txt::NAME@[0] == 'n' && txt::NAME@.len() == 1);
    assert(txt::SENDER_ID@.len() == 2);
    assert(txt::PORT@[0] == 'p' && txt::PORT@.len() == 4);
    assert(txt::CAPABILITIES@[0] == 'c' && txt::CAPABILITIES@.len() == 4);
    let p4 = pairs.drop_last();
    let p3 = p4.drop_last();
    let p2 = p3.drop_last();
    let p1 = p2.drop_last();
    assert(txt_get(pairs, txt::CAPABILITIES@) == Some(join_commas(capabilities)));
    assert(txt_get(p4, txt::PORT@) == Some(dec(port as nat)));
    assert(txt_get(p3, txt::NAME@) == Some(name));
    assert(txt_get(p2, txt::SENDER_ID@) == Some(sender_id));
    assert(txt_get(p1, txt::VERSION@) == Some("1"@));
    assert(txt_get(pairs, txt::PORT@) == txt_get(p4, txt::PORT@));
    assert(txt_get(pairs, txt::NAME@) == txt_get(p4, txt::NAME@));
    assert(txt_get(p4, txt::NAME@) == txt_get(p3, txt::NAME@));
    assert(txt_get(pairs, txt::SENDER_ID@) == txt_get(p4, txt::SENDER_ID@));
    assert(txt_get(p4, txt::SENDER_ID@) == txt_get(p3, txt::SENDER_ID@));
    assert(txt_get(p3, txt::SENDER_ID@) == txt_get(p2, txt::SENDER_ID@));
    assert(txt_get(pairs, txt::VERSION@) == txt_get(p4, txt::VERSION@));
    assert(txt_get(p4, txt::VERSION@) == txt_get(p3, txt::VERSION@));
    assert(txt_get(p3, txt::VERSION@) == txt_get(p2, txt::VERSION@));
    assert(txt_get(p2, txt::VERSION@) == txt_get(p1, txt::VERSION@));
    lemma_number_round_trip(port as nat, 10, 0xFFFF);
    lemma_number_round_trip(1, 10, 0xFF);
    assert("1"@ =~= dec(1));
    lemma_join_split(capabilities);
}

/// The text that std's `str::to_lowercase` gives.
pub uninterp spec fn lowercase(s: Seq<char>) -> Seq<char>;

/// `str::to_lowercase`: Unicode lower-casing, a function of the text alone. The
/// contract only names its result.
#[verifier::external_body]
fn to_lower(s: &str) -> (r: String)
    ensures
        r@ == lowercase(s@),
{
    s.to_lowercase()
}

/// The choice among names: an exact match, else one that is equal in lower
/// case, else one that holds the wanted text in lower case. Always the first.
pub open spec fn name_choice(
    names: Seq<Seq<char>>,
    lowered: Seq<Seq<char>>,
    name: Seq<char>,
    lowered_name: Seq<char>,
    r: Option<int>,
) -> bool {
    let n = names.len() as int;
    let no_exact = forall|j: int| 0 <= j < n ==> #[trigger] names[j] != name;
    let no_equal = forall|j: int| 0 <= j < n ==> #[trigger] lowered[j] != lowered_name;
    match r {
        Some(i) => {
            &&& 0 <= i < n
            &&& {
                ||| names[i] == name && forall|j: int| 0 <= j < i ==> #[trigger] names[j] != name
                ||| no_exact && lowered[i] == lowered_name && forall|j: int|
                    0 <= j < i ==> #[trigger] lowered[j] != lowered_name
                ||| no_exact && no_equal && contains_text(lowered[i], lowered_name) && forall|
                    j: int,
                |
                    0 <= j < i ==> !contains_text(#[trigger] lowered[j], lowered_name)
            }
        },
        None => no_exact && no_equal && forall|j: int|
            0 <= j < n ==> !contains_text(#[trigger] lowered[j], lowered_name),
    }
}

/// Chooses among names, given the names and the wanted name in lower case too.
pub fn choose_name(
    names: &[String],
    lowered: &[String],
    name: &str,
    lowered_name: &str,
) -> (r: Option<usize>)
    requires
        names@.len() == lowered@.len(),
    ensures
        name_choice(
            texts(names@),
            texts(lowered@),
            name@,
            lowered_name@,
            match r {
                Some(i) => Some(i as int),
                None => None,
            },
        ),
        r matches Some(i) ==> i < names@.len(),
{
    let ghost all = texts(names@);
    let ghost low = texts(lowered@);
    let mut i: usize = 0;
    while i < names.len()
        invariant
            i <= names@.len(),
            names@.len() == lowered@.len(),
            all == texts(names@),
            forall|j: int| 0 <= j < i ==> #[trigger] all[j] != name@,
        decreases names@.len() - i,
    {
        assert(all[i as int] == names@[i as int]@);
        if same_text(names[i].as_str(), name) {
            return Some(i);
        }
        i += 1;
    }
    i = 0;
    while i < lowered.len()
        invariant
            i <= lowered@.len(),
            names@.len() == lowered@.len(),
            all == texts(names@),
            low == texts(lowered@),
            forall|j: int| 0 <= j < names@.len() ==> #[trigger] all[j] != name@,
            forall|j: int| 0 <= j < i ==> #[trigger] low[j] != lowered_name@,
        decreases lowered@.len() - i,
    {
        assert(low[i as int] == lowered@[i as int]@);
        if same_text(lowered[i].as_str(), lowered_name) {
            return Some(i);
        }
        i += 1;
    }
    let wanted = chars_of(lowered_name);
    i = 0;
    while i < lowered.len()
        invariant
            i <= lowered@.len(),
            names@.len() == lowered@.len(),
            wanted@ == lowered_name@,
            all == texts(names@),
            low == texts(lowered@),
            forall|j: int| 0 <= j < names@.len() ==> #[trigger] all[j] != name@,
            forall|j: int| 0 <= j < names@.len() ==> #[trigger] low[j] != lowered_name@,
            forall|j: int| 0 <= j < i ==> !contains_text(#[trigger] low[j], lowered_name@),
        decreases lowered@.len() - i,
    {
        assert(low[i as int] == lowered@[i as int]@);
        let c = chars_of(lowered[i].as_str());
        if let Some(at) = find_text(c.as_slice(), wanted.as_slice()) {
            assert(crate::scan::stands_at(c@, wanted@, at as int));
            return Some(i);
        }
        i += 1;
    }
    None
}

/// Whether a name picks the sender with index `r`, or none: the first that has
/// just this name, else the first whose name is equal in lower case, else the
/// first whose name holds the wanted one in lower case.
pub open spec fn picks(senders: Seq<ResolvedSender>, name: Seq<char>, r: Option<int>) -> bool {
    let n = senders.len() as int;
    let wanted = lowercase(name);
    let no_exact = forall|j: int| 0 <= j < n ==> (#[trigger] senders[j]).name@ != name;
    let no_equal = forall|j: int| 0 <= j < n ==> lowercase((#[trigger] senders[j]).name@) != wanted;
    match r {
        Some(i) => {
            &&& 0 <= i < n
            &&& {
                ||| senders[i].name@ == name && forall|j: int|
                    0 <= j < i ==> (#[trigger] senders[j]).name@ != name
                ||| no_exact && lowercase(senders[i].name@) == wanted && forall|j: int|
                    0 <= j < i ==> lowercase((#[trigger] senders[j]).name@) != wanted
                ||| no_exact && no_equal && contains_text(lowercase(senders[i].name@), wanted)
                    && forall|j: int|
                    0 <= j < i ==> !contains_text(lowercase((#[trigger] senders[j]).name@), wanted)
            }
        },
        None => no_exact && no_equal && forall|j: int|
            0 <= j < n ==> !contains_text(lowercase((#[trigger] senders[j]).name@), wanted),
    }
}

/// A choice among the senders' names picks a sender.
proof fn lemma_choice_picks(
    senders: Seq<ResolvedSender>,
    names: Seq<Seq<char>>,
    lowered: Seq<Seq<char>>,
    name: Seq<char>,
    r: Option<int>,
)
    requires
        names.len() == senders.len(),
        lowered.len() == senders.len(),
        forall|j: int| 0 <= j < senders.len() ==> #[trigger] names[j] == senders[j].name@,
        forall|j: int| 0 <= j < senders.len() ==> #[trigger] lowered[j] == lowercase(senders[j].name@),
        name_choice(names, lowered, name, lowercase(name), r),
    ensures
        picks(senders, name, r),
{
    assert forall|j: int| 0 <= j < senders.len() implies (#[trigger] senders[j]).name@ == names[j]
        && lowercase(senders[j].name@) == lowered[j] by {
        assert(names[j] == senders[j].name@);
        assert(lowered[j] == lowercase(senders[j].name@));
    }
}

/// A name picks at most one sender.
pub proof fn lemma_pick_is_unique(
    senders: Seq<ResolvedSender>,
    name: Seq<char>,
    a: Option<int>,
    b: Option<int>,
)
    requires
        picks(senders, name, a),
        picks(senders, name, b),
    ensures
        a == b,
{
    match (a, b) {
        (Some(i), Some(j)) => {
            assert(senders[i] == senders[i] && senders[j] == senders[j]);
        },
        (Some(i), None) => {
            assert(senders[i] == senders[i]);
        },
        (None, Some(j)) => {
            assert(senders[j] == senders[j]);
        },
        (None, None) => {},
    }
}

/// Picks one sender by its display name: exact match, then equal in lower
/// case, then containing the name in lower case; the first of several.
pub fn pick_by_name(senders: &[ResolvedSender], name: &str) -> (r: Option<ResolvedSender>)
    ensures
        match r {
            Some(s) => exists|i: int|
                0 <= i < senders@.len() && s@ == (#[trigger] senders@[i])@ && picks(
                    senders@,
                    name@,
                    Some(i),
                ),
            None => picks(senders@, name@, None),
        },
{
    let mut names: Vec<String> = Vec::new();
    let mut lowered: Vec<String> = Vec::new();
    let mut i: usize = 0;
    while i < senders.len()
        invariant
            i <= senders@.len(),
            names@.len() == i,
            lowered@.len() == i,
            forall|j: int| 0 <= j < i ==> (#[trigger] names@[j])@ == senders@[j].name@,
            forall|j: int|
                0 <= j < i ==> (#[trigger] lowered@[j])@ == lowercase(senders@[j].name@),
        decreases senders@.len() - i,
    {
        names.push(senders[i].name.clone());
        lowered.push(to_lower(senders[i].name.as_str()));
        i += 1;
    }
    let wanted = to_lower(name);
    let ghost all = texts(names@);
    let ghost low = texts(lowered@);
    assert forall|j: int| 0 <= j < senders@.len() implies #[trigger] all[j] == senders@[j].name@ by {
        assert(names@[j]@ == senders@[j].name@);
    }
    assert forall|j: int| 0 <= j < senders@.len() implies #[trigger] low[j] == lowercase(
        senders@[j].name@,
    ) by {
        assert(lowered@[j]@ == lowercase(senders@[j].name@));
    }
    match choose_name(names.as_slice(), lowered.as_slice(), name, wanted.as_str()) {
        Some(i) => {
            let s = senders[i].clone();
            proof {
                lemma_choice_picks(senders@, all, low, name@, Some(i as int));
            }
            assert(s@ == senders@[i as int]@);
            assert(picks(senders@, name@, Some(i as int)));
            Some(s)
        },
        None => {
            proof {
                lemma_choice_picks(senders@, all, low, name@, None);
            }
            None
        },
    }
}

/// The line that lists a sender.
pub open spec fn sender_text(s: ResolvedModel) -> Seq<char> {
    s.name + " @ "@ + s.host + ":"@ + dec(s.port as nat) + "  id="@ + s.sender_id + "  v="@ + dec(
        s.version as nat,
    ) + "  caps="@ + join_commas(s.capabilities)
}

/// The line that lists a sender.
pub fn sender_line(s: &ResolvedSender) -> (t: String)
    ensures
        t@ == sender_text(s@),
        t@ == s.name@ + " @ "@ + s.host@ + ":"@ + dec(s.port as nat) + "  id="@ + s.sender_id@
            + "  v="@ + dec(s.version as nat) + "  caps="@ + join_commas(texts(s.capabilities@)),
{
    let mut t = String::new();
    push_str(&mut t, s.name.as_str());
    push_str(&mut t, " @ ");
    push_str(&mut t, s.host.as_str());
    push_str(&mut t, ":");
    push_dec(&mut t, s.port as u64);
    push_str(&mut t, "  id=");
    push_str(&mut t, s.sender_id.as_str());
    push_str(&mut t, "  v=");
    push_dec(&mut t, s.version as u64);
    push_str(&mut t, "  caps=");
    push_str(&mut t, join_texts(&s.capabilities).as_str());
    assert(t@ =~= sender_text(s@));
    t
}

/// The `host:port` to dial for a sender.
pub fn dial_target(s: &ResolvedSender) -> (t: String)
    ensures
        t@ == s.host@ + ":"@ + dec(s.port as nat),
{
    let mut t = String::new();
    push_str(&mut t, s.host.as_str());
    push_str(&mut t, ":");
    push_dec(&mut t, s.port as u64);
    assert(t@ =~= s.host@ + ":"@ + dec(s.port as nat));
    t
}

/// Why there is no sender to dial.
#[derive(Clone, Copy, Debug, PartialEq, Eq, Structural)]
pub enum TargetError {
    /// No sender was found.
    NoSenders,
    /// No sender goes by the wanted name.
    NoMatch,
}

/// Whether `t` is the `host:port` of a sender that goes by the wanted name.
pub open spec fn is_target_for(senders: Seq<ResolvedSender>, name: Seq<char>, t: Seq<char>) -> bool {
    exists|i: int|
        0 <= i < senders.len() && t == (#[trigger] senders[i]).host@ + ":"@ + dec(
            senders[i].port as nat,
        ) && picks(senders, name, Some(i))
}

/// The `host:port` to dial: that of the sender with the wanted name.
pub fn receive_target(senders: &[ResolvedSender], name: &str) -> (r: Result<String, TargetError>)
    ensures
        match r {
            Ok(t) => is_target_for(senders@, name@, t@),
            Err(TargetError::NoSenders) => senders@.len() == 0,
            Err(TargetError::NoMatch) => senders@.len() > 0 && picks(senders@, name@, None),
        },
{
    if senders.len() == 0 {
        return Err(TargetError::NoSenders);
    }
    match pick_by_name(senders, name) {
        Some(s) => {
            let t = dial_target(&s);
            assert(is_target_for(senders@, name@, t@));
            Ok(t)
        },
        None => Err(TargetError::NoMatch),
    }
}

/// The value of a key is that of its last property: a later property hides the
/// earlier ones of its own key and no others.
pub proof fn lemma_last_property_counts(
    pairs: Seq<(Seq<char>, Seq<char>)>,
    key: Seq<char>,
    value: Seq<char>,
    other: Seq<char>,
)
    ensures
        txt_get(Seq::<(Seq<char>, Seq<char>)>::empty(), key) is None,
        txt_get(pairs.push((key, value)), key) == Some(value),
        other != key ==> txt_get(pairs.push((other, value)), key) == txt_get(pairs, key),
{
    assert(pairs.push((other, value)).drop_last() =~= pairs);
}

/// What each part of a resolved sender comes from: where the TXT record has the
/// property, that; else the full name for the name, the service's port for the
/// port, version 1, no id and no capabilities. A port or version that is no
/// number counts as missing. The address comes before the host name.
pub proof fn lemma_resolved_from(
    pairs: Seq<(Seq<char>, Seq<char>)>,
    address: Seq<char>,
    hostname: Seq<char>,
    srv_port: u16,
    fullname: Seq<char>,
)
    ensures
        ({
            let r = resolved_model(pairs, None, hostname, srv_port, fullname);
            let with_address = resolved_model(
                pairs,
                Some(address),
                hostname,
                srv_port,
                fullname,
            );
            &&& r.host == hostname
            &&& with_address == (ResolvedModel { host: address, ..r })
            &&& txt_get(pairs, "id"@) is None ==> r.sender_id.len() == 0
            &&& txt_get(pairs, "id"@) is Some ==> Some(r.sender_id) == txt_get(pairs, "id"@)
            &&& txt_get(pairs, "n"@) is None ==> r.name == fullname
            &&& txt_get(pairs, "n"@) is Some ==> Some(r.name) == txt_get(pairs, "n"@)
            &&& txt_get(pairs, "caps"@) is None ==> r.capabilities.len() == 0
            &&& txt_get(pairs, "caps"@) matches Some(c) ==> r.capabilities == split_commas(c)
            &&& txt_get(pairs, "port"@) is None ==> r.port == srv_port
            &&& txt_get(pairs, "port"@) matches Some(p) ==> if number(p, 10, 65535) is Some {
                number(p, 10, 65535) == Some(r.port as nat)
            } else {
                r.port == srv_port
            }
            &&& txt_get(pairs, "v"@) is None ==> r.version == 1
            &&& txt_get(pairs, "v"@) matches Some(v) ==> if number(v, 10, 255) is Some {
                number(v, 10, 255) == Some(r.version as nat)
            } else {
                r.version == 1
            }
        }),
{
}

/// Which sender a name picks: the first that has just this name, whatever the
/// others are called; where none has it, the first whose name is equal in lower
/// case; where there is none of these either, the first whose name holds the
/// wanted one in lower case.
pub proof fn lemma_who_is_picked(
    senders: Seq<ResolvedSender>,
    name: Seq<char>,
    k: int,
    r: Option<int>,
)
    requires
        0 <= k < senders.len(),
        picks(senders, name, r),
    ensures
        senders[k].name@ == name && (forall|j: int|
            0 <= j < k ==> (#[trigger] senders[j]).name@ != name) ==> r == Some(k),
        (forall|j: int| 0 <= j < senders.len() ==> (#[trigger] senders[j]).name@ != name)
            && lowercase(senders[k].name@) == lowercase(name) && (forall|j: int|
            0 <= j < k ==> lowercase((#[trigger] senders[j]).name@) != lowercase(name)) ==> r
            == Some(k),
        (forall|j: int|
            0 <= j < senders.len() ==> (#[trigger] senders[j]).name@ != name && lowercase(
                senders[j].name@,
            ) != lowercase(name)) && contains_text(lowercase(senders[k].name@), lowercase(name)) && (
        forall|j: int|
            0 <= j < k ==> !contains_text(
                lowercase((#[trigger] senders[j]).name@),
                lowercase(name),
            )) ==> r == Some(k),
        r is None ==> senders[k].name@ != name && lowercase(senders[k].name@) != lowercase(name)
            && !contains_text(lowercase(senders[k].name@), lowercase(name)),
        r == Some(k) ==> senders[k].name@ == name || lowercase(senders[k].name@) == lowercase(name)
            || contains_text(lowercase(senders[k].name@), lowercase(name)),
{
    assert(senders[k] == senders[k]);
    if let Some(i) = r {
        assert(senders[i] == senders[i]);
    }
}

/// The sender that is dialled is the picked one: at its own host and port.
pub proof fn lemma_target_is_picked(
    senders: Seq<ResolvedSender>,
    name: Seq<char>,
    t: Seq<char>,
    k: int,
)
    requires
        is_target_for(senders, name, t),
        picks(senders, name, Some(k)),
    ensures
        t == senders[k].host@ + ":"@ + dec(senders[k].port as nat),
{
    let i = choose|i: int|
        0 <= i < senders.len() && t == (#[trigger] senders[i]).host@ + ":"@ + dec(
            senders[i].port as nat,
        ) && picks(senders, name, Some(i));
    lemma_pick_is_unique(senders, name, Some(i), Some(k));
}

} // verus!
