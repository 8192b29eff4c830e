//! Gossip messages exchanged over UDP: `Ping`, `Pong` and `Announce`, each a
//! CBOR map whose single key names the kind.
use vstd::prelude::*;

use crate::cbor::{
    cbor_pairs_view, cbor_seq_view, entry_matches, find_entry, group_cbor_view, map1, Cbor,
    CborValue, ValueKind,
};
use crate::seqs::first_index;
use crate::cbor::codec::{
    cbor_debug, cbor_decode_error, cbor_decoded, cbor_encodable, cbor_encoded, debug_item, decode_cbor,
    encode_cbor, lemma_encodable_map,
};
use crate::text::concat_str;
pub use crate::text::strings_view;

verus! {

broadcast use group_cbor_view;

/// The version of a node in the gossip network.
/// `counter` grows with each change of the node's state; `generation` is
/// the node's start time, telling restarts apart.
#[derive(PartialEq, Eq, Structural, Clone, Copy, Debug)]
pub struct Version {
    pub counter: u32,
    pub generation: u32,
}

/// What a node knows of a peer.
pub struct PeerInfo {
    pub version: Version,
    pub capabilities: Vec<String>,
    pub recipes: Vec<String>,
}

/// The model of a `PeerInfo`.
#[verifier::ext_equal]
pub struct PeerInfoModel {
    pub version: Version,
    pub capabilities: Seq<Seq<char>>,
    pub recipes: Seq<Seq<char>>,
}

impl View for PeerInfo {
    type V = PeerInfoModel;

    open spec fn view(&self) -> PeerInfoModel {
        PeerInfoModel {
            version: self.version,
            capabilities: strings_view(self.capabilities@),
            recipes: strings_view(self.recipes@),
        }
    }
}

/// The CBOR item that a gossip message carries.
pub struct GossipPayload(pub CborValue);

/// A gossip message.
pub enum GossipMessage {
    Ping(GossipPayload),
    Pong(GossipPayload),
    Announce(GossipPayload),
}

/// Why a CBOR item is no gossip message.
#[derive(PartialEq, Eq, Structural, Clone, Copy, Debug)]
pub enum GossipDecodeError {
    /// The item is not a map.
    NotAMap,
    /// The map has no entry.
    EmptyMap,
    /// The first key is not one of `Ping`, `Pong`, `Announce`.
    UnknownKind,
}

/// The value of the first entry keyed `key` whose value is of kind `kind`.
pub open spec fn find_value(m: Seq<(Cbor, Cbor)>, key: Seq<char>, kind: ValueKind) -> Option<
    Cbor,
> {
    let i = first_index(m, entry_matches(key, kind));
    if i < 0 {
        None
    } else {
        Some(m[i].1)
    }
}

/// The entries of the first map keyed `key`.
pub open spec fn find_map(m: Seq<(Cbor, Cbor)>, key: Seq<char>) -> Option<Seq<(Cbor, Cbor)>> {
    match find_value(m, key, ValueKind::MappingValue) {
        Some(Cbor::Mapping(e)) => Some(e),
        _ => None,
    }
}

/// The first integer keyed `key` that fits a `u32`.
pub open spec fn find_u32(m: Seq<(Cbor, Cbor)>, key: Seq<char>) -> Option<u32> {
    match find_value(m, key, ValueKind::U32Value) {
        Some(Cbor::Integer(i)) => Some(i as u32),
        _ => None,
    }
}

/// The texts of `items`, if every item is text.
pub open spec fn all_texts(items: Seq<Cbor>) -> Option<Seq<Seq<char>>> {
    if forall|i: int| 0 <= i < items.len() ==> (#[trigger] items[i]) is Text {
        Some(items.map_values(|c: Cbor| c->Text_0))
    } else {
        None
    }
}

/// The texts of the first array keyed `key`, if every item is text.
pub open spec fn find_texts(m: Seq<(Cbor, Cbor)>, key: Seq<char>) -> Option<Seq<Seq<char>>> {
    match find_value(m, key, ValueKind::ArrayValue) {
        Some(Cbor::Array(items)) => all_texts(items),
        _ => None,
    }
}

/// The entries of the announcement inside a message.
pub open spec fn spec_announce_map(root: Cbor) -> Option<Seq<(Cbor, Cbor)>> {
    match root {
        Cbor::Mapping(m) => find_map(m, "Announce"@),
        _ => None,
    }
}

/// The version that a map of `version` entries holds.
pub open spec fn version_in(entries: Seq<(Cbor, Cbor)>) -> Option<Version> {
    match find_map(entries, "version"@) {
        None => None,
        Some(vm) => match (find_u32(vm, "counter"@), find_u32(vm, "generation"@)) {
            (Some(c), Some(g)) => Some(Version { counter: c, generation: g }),
            _ => None,
        },
    }
}

/// The version of an announcement.
pub open spec fn spec_version(root: Cbor) -> Option<Version> {
    match spec_announce_map(root) {
        None => None,
        Some(a) => version_in(a),
    }
}

/// The version in the body of a message: the value of its first entry.
pub open spec fn spec_body_version(root: Cbor) -> Option<Version> {
    match root {
        Cbor::Mapping(m) => if m.len() > 0 {
            match m[0].1 {
                Cbor::Mapping(body) => version_in(body),
                _ => None,
            }
        } else {
            None
        },
        _ => None,
    }
}

/// The capabilities of an announcement.
pub open spec fn spec_capabilities(root: Cbor) -> Option<Seq<Seq<char>>> {
    match spec_announce_map(root) {
        None => None,
        Some(a) => find_texts(a, "capabilities"@),
    }
}

/// The recipe names of an announcement.
pub open spec fn spec_recipes(root: Cbor) -> Option<Seq<Seq<char>>> {
    match spec_announce_map(root) {
        None => None,
        Some(a) => find_texts(a, "recipes"@),
    }
}

/// The entries of the first map keyed `key`.
fn get_map<'a>(m: &'a [(CborValue, CborValue)], key: &str) -> (res: Option<
    &'a Vec<(CborValue, CborValue)>,
>)
    ensures
        match res {
            Some(e) => find_map(cbor_pairs_view(m@), key@) == Some(cbor_pairs_view(e@)),
            None => find_map(cbor_pairs_view(m@), key@) is None,
        },
{
    match find_entry(m, key, ValueKind::MappingValue) {
        None => None,
        Some(i) => match &m[i].1 {
            CborValue::Mapping(e) => Some(e),
            _ => None,
        },
    }
}

/// The first integer keyed `key` that fits a `u32`.
fn extract_u32(m: &[(CborValue, CborValue)], key: &str) -> (res: Option<u32>)
    ensures
        res == find_u32(cbor_pairs_view(m@), key@),
{
    match find_entry(m, key, ValueKind::U32Value) {
        None => None,
        Some(i) => match &m[i].1 {
            CborValue::Integer(n) => Some(*n as u32),
            _ => None,
        },
    }
}

/// The texts of `items`, if every item is text.
fn texts_of(items: &[CborValue]) -> (res: Option<Vec<String>>)
    ensures
        match res {
            Some(v) => all_texts(cbor_seq_view(items@)) == Some(strings_view(v@)),
            None => all_texts(cbor_seq_view(items@)) is None,
        },
{
    let ghost sv = cbor_seq_view(items@);
    let mut out: Vec<String> = Vec::new();
    let mut i: usize = 0;
    while i < items.len()
        invariant
            i <= items.len(),
            sv == cbor_seq_view(items@),
            sv.len() == items@.len(),
            out@.len() == i,
            forall|k: int| 0 <= k < i ==> (#[trigger] sv[k]) is Text,
            forall|k: int| 0 <= k < i ==> sv[k]->Text_0 == (#[trigger] out@[k])@,
        decreases items.len() - i,
    {
        match &items[i] {
            CborValue::Text(s) => {
                out.push(s.clone());
            },
            _ => {
                assert(!(sv[i as int] is Text));
                return None;
            },
        }
        i = i + 1;
    }
    assert(strings_view(out@) =~= sv.map_values(|c: Cbor| c->Text_0));
    Some(out)
}

/// The texts of the first array keyed `key`, if every item is text.
fn extract_texts(m: &[(CborValue, CborValue)], key: &str) -> (res: Option<Vec<String>>)
    ensures
        match res {
            Some(v) => find_texts(cbor_pairs_view(m@), key@) == Some(strings_view(v@)),
            None => find_texts(cbor_pairs_view(m@), key@) is None,
        },
{
    match find_entry(m, key, ValueKind::ArrayValue) {
        None => None,
        Some(i) => match &m[i].1 {
            CborValue::Array(items) => texts_of(items.as_slice()),
            _ => None,
        },
    }
}

/// The version held by a map of `version` entries.
fn version_of(entries: &[(CborValue, CborValue)]) -> (res: Option<Version>)
    ensures
        res == version_in(cbor_pairs_view(entries@)),
{
    let vm = match get_map(entries, "version") {
        Some(vm) => vm,
        None => return None,
    };
    let counter = match extract_u32(vm.as_slice(), "counter") {
        Some(c) => c,
        None => return None,
    };
    let generation = match extract_u32(vm.as_slice(), "generation") {
        Some(g) => g,
        None => return None,
    };
    Some(Version { counter, generation })
}

impl GossipPayload {
    /// The entries of the first `Announce` map of the message.
    fn get_announce_map(&self) -> (res: Option<&Vec<(CborValue, CborValue)>>)
        ensures
            match res {
                Some(e) => spec_announce_map(self.0@) == Some(cbor_pairs_view(e@)),
                None => spec_announce_map(self.0@) is None,
            },
    {
        match &self.0 {
            CborValue::Mapping(m) => get_map(m.as_slice(), "Announce"),
            _ => None,
        }
    }

    /// The version of an announcement: its `version` map's `counter` and
    /// `generation`.
    pub fn version(&self) -> (res: Option<Version>)
        ensures
            res == spec_version(self.0@),
    {
        match self.get_announce_map() {
            Some(a) => version_of(a.as_slice()),
            None => None,
        }
    }

    /// The version in the body of the message (a Ping, a Pong, or the inner
    /// map of an Announce): the `version` map inside the value of the first entry.
    pub fn body_version(&self) -> (res: Option<Version>)
        ensures
            res == spec_body_version(self.0@),
    {
        match &self.0 {
            CborValue::Mapping(m) => {
                assert(self.0@ == Cbor::Mapping(cbor_pairs_view(m@)));
                if m.len() == 0 {
                    return None;
                }
                match &m[0].1 {
                    CborValue::Mapping(body) => version_of(body.as_slice()),
                    _ => None,
                }
            },
            _ => None,
        }
    }

    /// The capabilities listed by an announcement.
    pub fn capabilities(&self) -> (res: Option<Vec<String>>)
        ensures
            match res {
                Some(v) => spec_capabilities(self.0@) == Some(strings_view(v@)),
                None => spec_capabilities(self.0@) is None,
            },
    {
        match self.get_announce_map() {
            Some(a) => extract_texts(a.as_slice(), "capabilities"),
            None => None,
        }
    }

    /// The recipe names listed by an announcement.
    pub fn recipes(&self) -> (res: Option<Vec<String>>)
        ensures
            match res {
                Some(v) => spec_recipes(self.0@) == Some(strings_view(v@)),
                None => spec_recipes(self.0@) is None,
            },
    {
        match self.get_announce_map() {
            Some(a) => extract_texts(a.as_slice(), "recipes"),
            None => None,
        }
    }
}

/// The CBOR item that goes on the wire for a message.
pub open spec fn spec_encode(msg: GossipMessage) -> Cbor {
    match msg {
        GossipMessage::Ping(p) => Cbor::Mapping(seq![(Cbor::Text("Ping"@), p.0@)]),
        GossipMessage::Pong(p) => Cbor::Mapping(seq![(Cbor::Text("Pong"@), p.0@)]),
        GossipMessage::Announce(p) => p.0@,
    }
}

/// The kind of message a CBOR item is, told by its first key.
pub open spec fn spec_decode_kind(v: Cbor) -> Result<Seq<char>, GossipDecodeError> {
    match v {
        Cbor::Mapping(m) => if m.len() == 0 {
            Err(GossipDecodeError::EmptyMap)
        } else if m[0].0 == Cbor::Text("Announce"@) {
            Ok("Announce"@)
        } else if m[0].0 == Cbor::Text("Ping"@) {
            Ok("Ping"@)
        } else if m[0].0 == Cbor::Text("Pong"@) {
            Ok("Pong"@)
        } else {
            Err(GossipDecodeError::UnknownKind)
        },
        _ => Err(GossipDecodeError::NotAMap),
    }
}

impl GossipMessage {
    /// The payload the message carries.
    pub open spec fn payload(self) -> GossipPayload {
        match self {
            GossipMessage::Ping(p) => p,
            GossipMessage::Pong(p) => p,
            GossipMessage::Announce(p) => p,
        }
    }

    /// The name of the message's kind.
    pub open spec fn kind(self) -> Seq<char> {
        match self {
            GossipMessage::Ping(_) => "Ping"@,
            GossipMessage::Pong(_) => "Pong"@,
            GossipMessage::Announce(_) => "Announce"@,
        }
    }

    /// The CBOR item to put on the wire: a Ping or Pong payload under the key
    /// of its kind; an Announce payload as it is (it holds its key already).
    pub fn encode(&self) -> (res: CborValue)
        ensures
            res@ == spec_encode(*self),
    {
        match self {
            GossipMessage::Ping(p) => map1("Ping", p.0.deep_clone()),
            GossipMessage::Pong(p) => map1("Pong", p.0.deep_clone()),
            GossipMessage::Announce(p) => p.0.deep_clone(),
        }
    }

    /// The message that a CBOR item read from the wire is: its kind is the
    /// first key of the map, and its payload the whole item.
    pub fn decode(value: CborValue) -> (res: Result<GossipMessage, GossipDecodeError>)
        ensures
            match res {
                Ok(msg) => spec_decode_kind(value@) == Ok::<Seq<char>, GossipDecodeError>(
                    msg.kind(),
                ) && msg.payload().0@ == value@,
                Err(e) => spec_decode_kind(value@) == Err::<Seq<char>, GossipDecodeError>(e),
            },
    {
        let kind = match &value {
            CborValue::Mapping(m) => {
                assert(value@ == Cbor::Mapping(cbor_pairs_view(m@)));
                if m.len() == 0 {
                    return Err(GossipDecodeError::EmptyMap);
                }
                if crate::cbor::is_text(&m[0].0, "Announce") {
                    0u8
                } else if crate::cbor::is_text(&m[0].0, "Ping") {
                    1u8
                } else if crate::cbor::is_text(&m[0].0, "Pong") {
                    2u8
                } else {
                    return Err(GossipDecodeError::UnknownKind);
                }
            },
            _ => return Err(GossipDecodeError::NotAMap),
        };
        assert(spec_decode_kind(value@) == Ok::<Seq<char>, GossipDecodeError>(
            if kind == 0 {
                "Announce"@
            } else if kind == 1 {
                "Ping"@
            } else {
                "Pong"@
            },
        ));
        if kind == 0 {
            Ok(GossipMessage::Announce(GossipPayload(value)))
        } else if kind == 1 {
            Ok(GossipMessage::Ping(GossipPayload(value)))
        } else {
            Ok(GossipMessage::Pong(GossipPayload(value)))
        }
    }
}

impl GossipMessage {
    /// The bytes to send for the message: the CBOR encoding of its item
    /// (see `encode`); `None` exactly when that item cannot be written.
    pub fn encode_bytes(&self) -> (res: Option<Vec<u8>>)
        ensures
            res is Some <==> cbor_encodable(spec_encode(*self)),
            res matches Some(b) ==> b@ == cbor_encoded(spec_encode(*self)),
    {
        let item = self.encode();
        encode_cbor(&item)
    }

    /// The message that received bytes hold; where they hold none, the
    /// text of why: `CBOR decode: ` and `ciborium`'s error when they are no
    /// CBOR item, else the text of `decode`'s refusal (see `decode_error_text`).
    pub fn decode_bytes(bytes: &[u8]) -> (res: Result<GossipMessage, String>)
        ensures
            match cbor_decoded(bytes@) {
                None => res matches Err(t) && t@ == "CBOR decode: "@ + cbor_decode_error(bytes@),
                Some(v) => match spec_decode_kind(v) {
                    Ok(k) => res matches Ok(msg) && msg.kind() == k && msg.payload().0@ == v,
                    Err(e) => res matches Err(t) && t@ == decode_error_text(v, e),
                },
            },
    {
        match decode_cbor(bytes) {
            Err(t) => Err(concat_str("CBOR decode: ", t.as_str())),
            Ok(v) => {
                let copy = v.deep_clone();
                match GossipMessage::decode(copy) {
                    Ok(msg) => Ok(msg),
                    Err(e) => Err(decode_error_message(&v, e)),
                }
            },
        }
    }
}

/// The text of a refusal of `decode`, as `ciborium` prints items:
/// `attendu une map, reçu : <item>`, `map vide`, or `Type inconnu : <first key>`.
pub open spec fn decode_error_text(v: Cbor, e: GossipDecodeError) -> Seq<char> {
    match e {
        GossipDecodeError::NotAMap => "attendu une map, reçu : "@ + cbor_debug(v),
        GossipDecodeError::EmptyMap => "map vide"@,
        GossipDecodeError::UnknownKind => "Type inconnu : "@ + cbor_debug(v->Mapping_0[0].0),
    }
}

/// The text of the refusal `e` of the item `v`.
fn decode_error_message(v: &CborValue, e: GossipDecodeError) -> (res: String)
    requires
        cbor_encodable(v@),
        spec_decode_kind(v@) == Err::<Seq<char>, GossipDecodeError>(e),
    ensures
        res@ == decode_error_text(v@, e),
{
    match e {
        GossipDecodeError::NotAMap => concat_str("attendu une map, reçu : ", debug_item(v).as_str()),
        GossipDecodeError::EmptyMap => "map vide".to_string(),
        GossipDecodeError::UnknownKind => match v {
            CborValue::Mapping(m) => {
                assert(v@ == Cbor::Mapping(cbor_pairs_view(m@)));
                proof {
                    lemma_encodable_map(cbor_pairs_view(m@));
                }
                assert(cbor_pairs_view(m@)[0] == (m@[0].0@, m@[0].1@));
                concat_str("Type inconnu : ", debug_item(&m[0].0).as_str())
            },
            _ => "Type inconnu : ".to_string(),
        },
    }
}

/// A message read back is of the kind it was written as: the item put on
/// the wire for a Ping or a Pong decodes to that kind, and so does that of
/// an Announce whose payload's first key is `Announce`.
pub proof fn lemma_decode_encode_kind(msg: GossipMessage)
    requires
        msg is Announce ==> (msg.payload().0@ matches Cbor::Mapping(m) && m.len() > 0 && m[0].0
            == Cbor::Text("Announce"@)),
    ensures
        spec_decode_kind(spec_encode(msg)) == Ok::<Seq<char>, GossipDecodeError>(msg.kind()),
{
    reveal_strlit("Announce");
    reveal_strlit("Ping");
    reveal_strlit("Pong");
    assert("Ping"@ != "Announce"@) by {
        assert("Ping"@.len() != "Announce"@.len());
    }
    assert("Pong"@ != "Announce"@) by {
        assert("Pong"@.len() != "Announce"@.len());
    }
    assert("Pong"@ != "Ping"@) by {
        assert("Pong"@[1] != "Ping"@[1]);
    }
}

} // verus!
