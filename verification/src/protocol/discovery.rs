//! mDNS service constants and TXT-record helpers.

use vstd::prelude::*;

use crate::scan::{index_of, lemma_index_of};
use crate::text::{clone_texts, dec, push_dec, push_str, texts};

pub mod txt;

verus! {

/// Service type registered on the LAN, fully-qualified mDNS form.
pub const SERVICE_TYPE: &'static str = "_zerowire._tcp.local.";

/// Default TCP port, also published in the SRV record. Stable across versions
/// so that manual `host:port` setups work too.
pub const DEFAULT_PORT: u16 = 47823;

/// A snapshot of one resolved zerowire service on the LAN.
#[derive(Debug, PartialEq, Eq)]
pub struct ResolvedSender {
    pub sender_id: String,
    pub name: String,
    pub host: String,
    pub port: u16,
    pub capabilities: Vec<String>,
    pub version: u8,
}

/// Model of a `ResolvedSender`.
pub struct ResolvedModel {
    pub sender_id: Seq<char>,
    pub name: Seq<char>,
    pub host: Seq<char>,
    pub port: u16,
    pub capabilities: Seq<Seq<char>>,
    pub version: u8,
}

impl View for ResolvedSender {
    type V = ResolvedModel;

    open spec fn view(&self) -> ResolvedModel {
        ResolvedModel {
            sender_id: self.sender_id@,
            name: self.name@,
            host: self.host@,
            port: self.port,
            capabilities: texts(self.capabilities@),
            version: self.version,
        }
    }
}

impl Clone for ResolvedSender {
    fn clone(&self) -> (r: ResolvedSender)
        ensures
            r@ == self@,
    {
        ResolvedSender {
            sender_id: self.sender_id.clone(),
            name: self.name.clone(),
            host: self.host.clone(),
            port: self.port,
            capabilities: clone_texts(&self.capabilities),
            version: self.version,
        }
    }
}

/// Texts with a comma between them.
pub open spec fn join_commas(items: Seq<Seq<char>>) -> Seq<char>
    decreases items.len(),
{
    if items.len() == 0 {
        Seq::empty()
    } else if items.len() == 1 {
        items[0]
    } else {
        items[0] + ","@ + join_commas(items.skip(1))
    }
}

/// What stands between the commas of a text.
pub open spec fn split_commas(s: Seq<char>) -> Seq<Seq<char>>
    decreases s.len(),
{
    let n = index_of(s, ',');
    if n >= s.len() {
        seq![s]
    } else {
        seq![s.take(n as int)] + split_commas(s.skip(n as int + 1))
    }
}

/// Splitting what was joined gives back the items, where there is at least one
/// and none holds a comma.
pub proof fn lemma_join_split(items: Seq<Seq<char>>)
    requires
        items.len() > 0,
        forall|i: int| 0 <= i < items.len() ==> !(#[trigger] items[i]).contains(','),
    ensures
        split_commas(join_commas(items)) == items,
    decreases items.len(),
{
    let s = join_commas(items);
    reveal_strlit(",");
    lemma_index_of(s, ',');
    let n = index_of(s, ',');
    if items.len() == 1 {
        if n < s.len() {
            assert(items[0].contains(s[n as int]));
        }
        assert(split_commas(s) =~= items);
    } else {
        let first = items[0];
        let rest = items.skip(1);
        assert forall|i: int| 0 <= i < rest.len() implies !(#[trigger] rest[i]).contains(',') by {
            assert(rest[i] == items[i + 1]);
        }
        lemma_join_split(rest);
        assert(s[first.len() as int] == ',');
        if n < first.len() {
            assert(first[n as int] == s[n as int]);
            assert(first.contains(','));
        }
        assert(n == first.len());
        assert(s.take(n as int) =~= first);
        assert(s.skip(n as int + 1) =~= join_commas(rest));
        assert(split_commas(s) =~= items);
    }
}

/// Model of a list of borrowed texts.
pub open spec fn strs(v: Seq<&str>) -> Seq<Seq<char>> {
    Seq::new(v.len(), |i: int| v[i]@)
}

/// Appends texts with a comma between them.
fn push_joined(out: &mut String, items: &[&str])
    ensures
        final(out)@ == old(out)@ + join_commas(strs(items@)),
{
    let ghost all = strs(items@);
    let mut i: usize = 0;
    assert(all.skip(0) =~= all);
    while i < items.len()
        invariant
            i <= items@.len(),
            all == strs(items@),
            old(out)@ + join_commas(all) == out@ + (if i == 0 || i == all.len() {
                join_commas(all.skip(i as int))
            } else {
                ","@ + join_commas(all.skip(i as int))
            }),
        decreases items@.len() - i,
    {
        let ghost before = out@;
        if i > 0 {
            push_str(out, ",");
        }
        push_str(out, items[i]);
        let ghost here = all.skip(i as int);
        assert(here[0] == items@[i as int]@);
        assert(here.skip(1) =~= all.skip(i + 1));
        i += 1;
        proof {
            if i == all.len() {
                assert(all.skip(i as int).len() == 0);
                assert(out@ + join_commas(all.skip(i as int)) =~= old(out)@ + join_commas(all));
            } else {
                assert(out@ + (","@ + join_commas(all.skip(i as int))) =~= old(out)@
                    + join_commas(all));
            }
        }
    }
    assert(all.skip(i as int).len() == 0);
    assert(out@ =~= old(out)@ + join_commas(all));
}

/// A list of texts with a comma between them.
pub fn join_texts(items: &Vec<String>) -> (s: String)
    ensures
        s@ == join_commas(texts(items@)),
{
    let mut parts: Vec<&str> = Vec::new();
    let mut i: usize = 0;
    while i < items.len()
        invariant
            i <= items@.len(),
            parts@.len() == i,
            forall|j: int| 0 <= j < i ==> (#[trigger] parts@[j])@ == items@[j]@,
        decreases items@.len() - i,
    {
        parts.push(items[i].as_str());
        i += 1;
    }
    assert(strs(parts@) =~= texts(items@));
    let mut s = String::new();
    push_joined(&mut s, parts.as_slice());
    assert(s@ =~= join_commas(texts(items@)));
    s
}

/// Model of a list of TXT properties.
pub open spec fn pairs_model(v: Seq<(String, String)>) -> Seq<(Seq<char>, Seq<char>)> {
    Seq::new(v.len(), |i: int| (v[i].0@, v[i].1@))
}

/// The TXT properties that a sender should advertise.
pub open spec fn txt_model(
    sender_id: Seq<char>,
    name: Seq<char>,
    port: u16,
    capabilities: Seq<Seq<char>>,
) -> Seq<(Seq<char>, Seq<char>)> {
    seq![
        (txt::VERSION@, "1"@),
        (txt::SENDER_ID@, sender_id),
        (txt::NAME@, name),
        (txt::PORT@, dec(port as nat)),
        (txt::CAPABILITIES@, join_commas(capabilities)),
    ]
}

/// Builds the TXT properties that a sender should advertise.
pub fn build_txt(sender_id: &str, name: &str, port: u16, capabilities: &[&str]) -> (v: Vec<
    (String, String),
>)
    ensures
        pairs_model(v@) == txt_model(sender_id@, name@, port, strs(capabilities@)),
{
    let mut port_text = String::new();
    push_dec(&mut port_text, port as u64);
    assert(port_text@ =~= dec(port as nat));
    let mut caps = String::new();
    push_joined(&mut caps, capabilities);
    assert(caps@ =~= join_commas(strs(capabilities@)));
    let mut v: Vec<(String, String)> = Vec::new();
    v.push((txt::VERSION.to_owned(), "1".to_owned()));
    v.push((txt::SENDER_ID.to_owned(), sender_id.to_owned()));
    v.push((txt::NAME.to_owned(), name.to_owned()));
    v.push((txt::PORT.to_owned(), port_text));
    v.push((txt::CAPABILITIES.to_owned(), caps));
    assert(pairs_model(v@) =~= txt_model(sender_id@, name@, port, strs(capabilities@)));
    v
}

/// Joining puts one comma between each two texts; splitting cuts at every
/// comma.
pub proof fn lemma_commas(first: Seq<char>, rest: Seq<Seq<char>>, tail: Seq<char>)
    ensures
        join_commas(Seq::<Seq<char>>::empty()) == Seq::<char>::empty(),
        join_commas(seq![first]) == first,
        rest.len() > 0 ==> join_commas(seq![first] + rest) == first + seq![','] + join_commas(rest),
        !first.contains(',') ==> split_commas(first) == seq![first],
        !first.contains(',') ==> split_commas(first + seq![','] + tail) == seq![first]
            + split_commas(tail),
{
    reveal_strlit(",");
    assert(","@ =~= seq![',']);
    if rest.len() > 0 {
        assert((seq![first] + rest).skip(1) =~= rest);
    }
    if !first.contains(',') {
        lemma_index_of(first, ',');
        if index_of(first, ',') < first.len() {
            assert(first.contains(first[index_of(first, ',') as int]));
        }
        let s = first + seq![','] + tail;
        lemma_index_of(s, ',');
        let k = index_of(s, ',');
        assert(s[first.len() as int] == ',');
        if k < first.len() {
            assert(first[k as int] == s[k as int]);
            assert(first.contains(','));
        }
        assert(s.take(first.len() as int) =~= first);
        assert(s.skip(first.len() as int + 1) =~= tail);
    }
}

/// What a sender advertises: five properties, of which version 1, the port in
/// decimal and the capabilities with commas between them.
pub proof fn lemma_advertised_properties(
    sender_id: Seq<char>,
    name: Seq<char>,
    port: u16,
    capabilities: Seq<Seq<char>>,
)
    ensures
        txt_model(sender_id, name, port, capabilities) == seq![
            ("v"@, "1"@),
            ("id"@, sender_id),
            ("n"@, name),
            ("port"@, dec(port as nat)),
            ("caps"@, join_commas(capabilities)),
        ],
{
}

} // verus!
