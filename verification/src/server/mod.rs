//! The state a node keeps of itself and of its peers, and the gossip
//! payloads built from it.
use vstd::prelude::*;

use crate::cbor::{
    cbor_pairs_view, cbor_seq_view, entry_matches, group_cbor_view, map1, text, Cbor, CborValue,
    ValueKind,
};
use crate::protocol::{
    all_texts, find_u32, spec_announce_map, spec_body_version, spec_capabilities, spec_recipes,
    spec_version, strings_view, GossipPayload, PeerInfo, PeerInfoModel, Version,
};
use crate::recipe::{RecipeBook, RecipeModel};
use crate::seqs::{first_index, lemma_first_index, lemma_first_index_at};

pub mod tcp;
pub mod udp;

verus! {

broadcast use group_cbor_view;

/// Reads the system clock (`SystemTime::now().duration_since(UNIX_EPOCH)`,
/// zero before the epoch): whole seconds and the nanoseconds past them. Only
/// the range of the nanoseconds is claimed; the reading itself depends on
/// the machine and the moment.
#[verifier::external_body]
pub(crate) fn time_since_epoch() -> (res: (u64, u32))
    ensures
        res.1 < 1_000_000_000,
{
    let d = std::time::SystemTime::now().duration_since(std::time::UNIX_EPOCH).unwrap_or_default();
    (d.as_secs(), d.subsec_nanos())
}

/// Milliseconds since the epoch for a reading of `secs` seconds and `nanos`
/// nanoseconds (`Duration::as_millis`).
pub open spec fn millis_of(secs: u64, nanos: u32) -> int {
    secs * 1000 + nanos / 1_000_000
}

/// `millis_of` cut to its low 32 bits, as `as u32` does.
pub fn millis_u32(secs: u64, nanos: u32) -> (res: u32)
    ensures
        res as int == millis_of(secs, nanos) % 0x1_0000_0000,
{
    let ms: u128 = secs as u128 * 1000 + (nanos / 1_000_000) as u128;
    (ms % 0x1_0000_0000) as u32
}

/// The clock in milliseconds since the epoch, cut to 32 bits (the node's
/// `generation`).
pub fn now_ms() -> (res: u32)
    ensures
        exists|s: u64, n: u32| n < 1_000_000_000 && res as int == millis_of(s, n) % 0x1_0000_0000,
{
    let (s, n) = time_since_epoch();
    millis_u32(s, n)
}

/// The model of a node's state.
#[verifier::ext_equal]
pub struct GossipStateModel {
    pub own_addr: Seq<char>,
    pub peers: Seq<(Seq<char>, PeerInfoModel)>,
    pub version: Version,
    pub recipes: Seq<RecipeModel>,
    pub capabilities: Seq<Seq<char>>,
}

pub open spec fn peers_view(v: Seq<(String, PeerInfo)>) -> Seq<(Seq<char>, PeerInfoModel)> {
    v.map_values(|p: (String, PeerInfo)| (p.0@, p.1@))
}

/// No two peers share an address.
pub open spec fn distinct_addrs(peers: Seq<(Seq<char>, PeerInfoModel)>) -> bool {
    forall|i: int, j: int|
        0 <= i < peers.len() && 0 <= j < peers.len() && i != j ==> peers[i].0 != peers[j].0
}

/// Whether a peer entry has the address `addr`.
pub open spec fn addr_is(addr: Seq<char>) -> spec_fn((Seq<char>, PeerInfoModel)) -> bool {
    |p: (Seq<char>, PeerInfoModel)| p.0 == addr
}

/// Whether a peer entry lists the capability `action`.
pub open spec fn offers(action: Seq<char>) -> spec_fn((Seq<char>, PeerInfoModel)) -> bool {
    |p: (Seq<char>, PeerInfoModel)| p.1.capabilities.contains(action)
}

/// Whether version `a` is more recent than `b`: a later generation, or the
/// same generation with a higher counter.
pub open spec fn newer(a: Version, b: Version) -> bool {
    a.generation > b.generation || (a.generation == b.generation && a.counter > b.counter)
}

/// Whether the node knows a peer at `addr`.
pub open spec fn knows(m: GossipStateModel, addr: Seq<char>) -> bool {
    first_index(m.peers, addr_is(addr)) >= 0
}

/// Recording what was heard of the peer at `addr`: an unknown peer is
/// added and the node's own counter goes up (the result is then `true`); a
/// known peer's entry is replaced only by a newer version.
pub open spec fn spec_update_peer(m: GossipStateModel, addr: Seq<char>, info: PeerInfoModel) -> (
    GossipStateModel,
    bool,
) {
    let i = first_index(m.peers, addr_is(addr));
    if i < 0 {
        (
            GossipStateModel {
                peers: m.peers.push((addr, info)),
                version: Version { counter: (m.version.counter + 1) as u32, ..m.version },
                ..m
            },
            true,
        )
    } else if newer(info.version, m.peers[i].1.version) {
        (GossipStateModel { peers: m.peers.update(i, (addr, info)), ..m }, false)
    } else {
        (m, false)
    }
}

/// The texts `s`, each as a CBOR text item.
pub open spec fn text_items(s: Seq<Seq<char>>) -> Seq<Cbor> {
    s.map_values(|t: Seq<char>| Cbor::Text(t))
}

/// An address as CBOR: text under tag 260.
pub open spec fn addr_item(a: Seq<char>) -> Cbor {
    Cbor::Tag(260, Box::new(Cbor::Text(a)))
}

/// The `version` map of a node.
pub open spec fn version_item(v: Version) -> Cbor {
    Cbor::Mapping(
        seq![
            (Cbor::Text("counter"@), Cbor::Integer(v.counter as int)),
            (Cbor::Text("generation"@), Cbor::Integer(v.generation as int)),
        ],
    )
}

/// The announcement of a node: its address, capabilities, recipe names,
/// known peers and version, under the key `Announce`.
pub open spec fn spec_announce_payload(m: GossipStateModel) -> Cbor {
    Cbor::Mapping(
        seq![
            (
                Cbor::Text("Announce"@),
                Cbor::Mapping(
                    seq![
                        (Cbor::Text("node_addr"@), addr_item(m.own_addr)),
                        (Cbor::Text("capabilities"@), Cbor::Array(text_items(m.capabilities))),
                        (
                            Cbor::Text("recipes"@),
                            Cbor::Array(
                                text_items(m.recipes.map_values(|r: RecipeModel| r.name)),
                            ),
                        ),
                        (
                            Cbor::Text("peers"@),
                            Cbor::Array(
                                m.peers.map_values(
                                    |p: (Seq<char>, PeerInfoModel)| addr_item(p.0),
                                ),
                            ),
                        ),
                        (Cbor::Text("version"@), version_item(m.version)),
                    ],
                ),
            ),
        ],
    )
}

/// The body of a Ping or Pong: when the node was last seen (tag 1001 over
/// `{-6: milliseconds, 1: seconds}`) and its version.
pub open spec fn spec_ping_pong_payload(m: GossipStateModel, secs: u64, nanos: u32) -> Cbor {
    Cbor::Mapping(
        seq![
            (
                Cbor::Text("last_seen"@),
                Cbor::Tag(
                    1001,
                    Box::new(
                        Cbor::Mapping(
                            seq![
                                (
                                    Cbor::Integer(-6),
                                    Cbor::Integer((millis_of(secs, nanos) as i64) as int),
                                ),
                                (Cbor::Integer(1), Cbor::Integer((secs as i64) as int)),
                            ],
                        ),
                    ),
                ),
            ),
            (Cbor::Text("version"@), version_item(m.version)),
        ],
    )
}

/// A node's own state: its address, the peers it knows, its version, its
/// recipes and its capabilities. No two peers share an address.
pub struct GossipState {
    own_addr: String,
    peers: Vec<(String, PeerInfo)>,
    version: Version,
    recipes: RecipeBook,
    capabilities: Vec<String>,
}

impl View for GossipState {
    type V = GossipStateModel;

    closed spec fn view(&self) -> GossipStateModel {
        GossipStateModel {
            own_addr: self.own_addr@,
            peers: peers_view(self.peers@),
            version: self.version,
            recipes: self.recipes@,
            capabilities: strings_view(self.capabilities@),
        }
    }
}

/// The CBOR array of the texts `v`.
fn text_array(v: &[String]) -> (res: CborValue)
    ensures
        res@ == Cbor::Array(text_items(strings_view(v@))),
{
    let mut out: Vec<CborValue> = Vec::new();
    let mut i: usize = 0;
    while i < v.len()
        invariant
            i <= v.len(),
            out@.len() == i,
            forall|k: int| 0 <= k < i ==> (#[trigger] out@[k])@ == Cbor::Text(v@[k]@),
        decreases v.len() - i,
    {
        out.push(CborValue::Text(v[i].clone()));
        i = i + 1;
    }
    assert(cbor_seq_view(out@) =~= text_items(strings_view(v@)));
    CborValue::Array(out)
}

/// An address as CBOR: text under tag 260.
fn addr_value(a: &String) -> (res: CborValue)
    ensures
        res@ == addr_item(a@),
{
    let inner = CborValue::Text(a.clone());
    assert(inner@ == Cbor::Text(a@));
    let res = CborValue::Tag(260, Box::new(inner));
    assert(res@ == Cbor::Tag(260, Box::new(inner@)));
    res
}

/// The `version` map of a node.
fn version_value(v: Version) -> (res: CborValue)
    ensures
        res@ == version_item(v),
{
    let entries = vec![
        (text("counter"), CborValue::Integer(v.counter as i128)),
        (text("generation"), CborValue::Integer(v.generation as i128)),
    ];
    let ghost e = entries@;
    assert(cbor_pairs_view(e) =~= seq![
        (Cbor::Text("counter"@), Cbor::Integer(v.counter as int)),
        (Cbor::Text("generation"@), Cbor::Integer(v.generation as int)),
    ]);
    CborValue::Mapping(entries)
}

impl GossipState {
    #[verifier::type_invariant]
    closed spec fn addrs_unique(self) -> bool {
        distinct_addrs(peers_view(self.peers@))
    }

    /// A node at `own_addr`, started at `generation`, with its recipes and
    /// capabilities: no peer known yet, version counter 1.
    pub fn new(own_addr: String, generation: u32, recipes: RecipeBook, capabilities: Vec<String>) -> (res: GossipState)
        ensures
            res@ == (GossipStateModel {
                own_addr: own_addr@,
                peers: seq![],
                version: Version { counter: 1, generation },
                recipes: recipes@,
                capabilities: strings_view(capabilities@),
            }),
    {
        let res = GossipState {
            own_addr,
            peers: Vec::new(),
            version: Version { counter: 1, generation },
            recipes,
            capabilities,
        };
        assert(peers_view(res.peers@) =~= seq![]);
        res
    }

    /// This node's address.
    pub fn own_addr(&self) -> (res: &String)
        ensures
            res@ == self@.own_addr,
    {
        &self.own_addr
    }

    /// This node's version.
    pub fn version(&self) -> (res: Version)
        ensures
            res == self@.version,
    {
        self.version
    }

    /// This node's recipes.
    pub fn recipes(&self) -> (res: &RecipeBook)
        ensures
            res@ == self@.recipes,
    {
        &self.recipes
    }

    /// This node's capabilities.
    pub fn capabilities(&self) -> (res: &[String])
        ensures
            strings_view(res@) == self@.capabilities,
    {
        self.capabilities.as_slice()
    }

    /// The peers known, with what is known of each.
    pub fn peers(&self) -> (res: &[(String, PeerInfo)])
        ensures
            peers_view(res@) == self@.peers,
            distinct_addrs(self@.peers),
    {
        proof {
            use_type_invariant(self);
        }
        self.peers.as_slice()
    }

    /// Index of the peer at `addr`.
    fn peer_index(&self, addr: &String) -> (res: Option<usize>)
        ensures
            res is None <==> first_index(self@.peers, addr_is(addr@)) < 0,
            res matches Some(i) ==> i < self.peers.len() && i == first_index(
                self@.peers,
                addr_is(addr@),
            ),
    {
        let ghost pv = self@.peers;
        let ghost p = addr_is(addr@);
        let mut j: usize = 0;
        while j < self.peers.len()
            invariant
                j <= self.peers.len(),
                pv == peers_view(self.peers@),
                p == addr_is(addr@),
                forall|m: int| 0 <= m < j ==> !p(pv[m]),
            decreases self.peers.len() - j,
        {
            if self.peers[j].0 == *addr {
                proof {
                    lemma_first_index_at(pv, p, j as int);
                }
                return Some(j);
            }
            j = j + 1;
        }
        proof {
            lemma_first_index_at(pv, p, pv.len() as int);
        }
        None
    }

    /// Whether a peer at `addr` is known.
    pub fn knows(&self, addr: &String) -> (res: bool)
        ensures
            res == knows(self@, addr@),
    {
        self.peer_index(addr).is_some()
    }

    /// Records what was heard of the peer at `addr`. An unknown peer is added
    /// and this node's version counter goes up: the result is then `true`, and
    /// a new announcement is due so that peers stay consistent with our Pongs.
    /// A known peer's entry is replaced only by a newer version.
    pub fn update_peer(&mut self, addr: String, info: PeerInfo) -> (res: bool)
        requires
            !knows(old(self)@, addr@) ==> old(self)@.version.counter < u32::MAX,
        ensures
            (final(self)@, res) == spec_update_peer(old(self)@, addr@, info@),
    {
        proof {
            use_type_invariant(&*self);
        }
        match self.peer_index(&addr) {
            Some(i) => {
                let existing = self.peers[i].1.version;
                let should_update = info.version.generation > existing.generation || (
                info.version.generation == existing.generation && info.version.counter
                    > existing.counter);
                if !should_update {
                    return false;
                }
                let ghost pv = self@.peers;
                let ghost entry = (addr@, info@);
                let mut peers: Vec<(String, PeerInfo)> = Vec::new();
                std::mem::swap(&mut peers, &mut self.peers);
                peers.set(i, (addr, info));
                assert(peers_view(peers@) =~= pv.update(i as int, entry));
                proof {
                    lemma_first_index(pv, addr_is(entry.0));
                    assert(distinct_addrs(peers_view(peers@)));
                }
                self.peers = peers;
                false
            },
            None => {
                let ghost pv = self@.peers;
                let ghost entry = (addr@, info@);
                let mut peers: Vec<(String, PeerInfo)> = Vec::new();
                std::mem::swap(&mut peers, &mut self.peers);
                peers.push((addr, info));
                assert(peers_view(peers@) =~= pv.push(entry));
                proof {
                    lemma_first_index(pv, addr_is(entry.0));
                    assert(distinct_addrs(peers_view(peers@)));
                }
                self.peers = peers;
                self.bump_version();
                true
            },
        }
    }

    /// Raises this node's version counter by one.
    fn bump_version(&mut self)
        requires
            old(self)@.version.counter < u32::MAX,
        ensures
            final(self)@ == (GossipStateModel {
                version: Version { counter: (old(self)@.version.counter + 1) as u32, ..old(self)@.version },
                ..old(self)@
            }),
    {
        proof {
            use_type_invariant(&*self);
        }
        self.version = Version { counter: self.version.counter + 1, generation: self.version.generation };
    }

    /// Adds a bootstrap peer not yet known, at version 0/0 with nothing
    /// announced; this node's version is left as it is.
    pub fn add_bootstrap_peer(&mut self, addr: String)
        ensures
            final(self)@ == if knows(old(self)@, addr@) {
                old(self)@
            } else {
                GossipStateModel {
                    peers: old(self)@.peers.push(
                        (
                            addr@,
                            PeerInfoModel {
                                version: Version { counter: 0, generation: 0 },
                                capabilities: seq![],
                                recipes: seq![],
                            },
                        ),
                    ),
                    ..old(self)@
                }
            },
    {
        proof {
            use_type_invariant(&*self);
        }
        if self.peer_index(&addr).is_some() {
            return ;
        }
        let info = PeerInfo {
            version: Version { counter: 0, generation: 0 },
            capabilities: Vec::new(),
            recipes: Vec::new(),
        };
        assert(info@ =~= PeerInfoModel {
            version: Version { counter: 0, generation: 0 },
            capabilities: seq![],
            recipes: seq![],
        });
        let ghost pv = self@.peers;
        let ghost entry = (addr@, info@);
        let mut peers: Vec<(String, PeerInfo)> = Vec::new();
        std::mem::swap(&mut peers, &mut self.peers);
        peers.push((addr, info));
        assert(peers_view(peers@) =~= pv.push(entry));
        proof {
            lemma_first_index(pv, addr_is(entry.0));
            assert(distinct_addrs(peers_view(peers@)));
        }
        self.peers = peers;
    }

    /// The addresses of the known peers.
    pub fn peer_addrs(&self) -> (res: Vec<String>)
        ensures
            strings_view(res@) == self@.peers.map_values(|p: (Seq<char>, PeerInfoModel)| p.0),
    {
        let mut out: Vec<String> = Vec::new();
        let mut i: usize = 0;
        while i < self.peers.len()
            invariant
                i <= self.peers.len(),
                out@.len() == i,
                forall|k: int| 0 <= k < i ==> (#[trigger] out@[k])@ == self@.peers[k].0,
            decreases self.peers.len() - i,
        {
            out.push(self.peers[i].0.clone());
            i = i + 1;
        }
        assert(strings_view(out@) =~= self@.peers.map_values(
            |p: (Seq<char>, PeerInfoModel)| p.0,
        ));
        out
    }

    /// The address of the first known peer that lists the capability `action`.
    pub fn find_peer_with_capability(&self, action: &String) -> (res: Option<String>)
        ensures
            res is None <==> first_index(self@.peers, offers(action@)) < 0,
            res matches Some(a) ==> a@ == self@.peers[first_index(self@.peers, offers(action@))].0,
    {
        let ghost pv = self@.peers;
        let ghost p = offers(action@);
        let mut j: usize = 0;
        while j < self.peers.len()
            invariant
                j <= self.peers.len(),
                pv == peers_view(self.peers@),
                p == offers(action@),
                forall|m: int| 0 <= m < j ==> !p(pv[m]),
            decreases self.peers.len() - j,
        {
            if contains_string(self.peers[j].1.capabilities.as_slice(), action) {
                proof {
                    lemma_first_index_at(pv, p, j as int);
                }
                return Some(self.peers[j].0.clone());
            }
            j = j + 1;
        }
        proof {
            lemma_first_index_at(pv, p, pv.len() as int);
        }
        None
    }

    /// Whether this node itself lists the capability `action`.
    pub fn has_capability(&self, action: &String) -> (res: bool)
        ensures
            res == self@.capabilities.contains(action@),
    {
        contains_string(self.capabilities.as_slice(), action)
    }

    /// The announcement of this node.
    pub fn make_announce_payload(&self) -> (res: GossipPayload)
        ensures
            res.0@ == spec_announce_payload(self@),
    {
        let names = self.recipes.names();
        let addrs = self.peer_addrs();
        let mut peer_items: Vec<CborValue> = Vec::new();
        let mut i: usize = 0;
        while i < addrs.len()
            invariant
                i <= addrs.len(),
                strings_view(addrs@) == self@.peers.map_values(
                    |p: (Seq<char>, PeerInfoModel)| p.0,
                ),
                peer_items@.len() == i,
                forall|k: int|
                    0 <= k < i ==> (#[trigger] peer_items@[k])@ == addr_item(addrs@[k]@),
            decreases addrs.len() - i,
        {
            peer_items.push(addr_value(&addrs[i]));
            i = i + 1;
        }
        proof {
            assert(strings_view(addrs@).len() == addrs@.len());
            assert(self@.peers.map_values(|p: (Seq<char>, PeerInfoModel)| p.0).len()
                == self@.peers.len());
            assert forall|k: int| 0 <= k < addrs@.len() implies addrs@[k]@ == self@.peers[k].0 by {
                assert(strings_view(addrs@)[k] == addrs@[k]@);
                assert(self@.peers.map_values(|p: (Seq<char>, PeerInfoModel)| p.0)[k]
                    == self@.peers[k].0);
            }
            assert(cbor_seq_view(peer_items@) =~= self@.peers.map_values(
                |p: (Seq<char>, PeerInfoModel)| addr_item(p.0),
            ));
            assert(strings_view(names@) =~= self@.recipes.map_values(|r: RecipeModel| r.name));
        }
        let peers_array = CborValue::Array(peer_items);
        assert(peers_array@ == Cbor::Array(cbor_seq_view(peer_items@)));
        let inner = vec![
            (text("node_addr"), addr_value(&self.own_addr)),
            (text("capabilities"), text_array(self.capabilities.as_slice())),
            (text("recipes"), text_array(names.as_slice())),
            (text("peers"), peers_array),
            (text("version"), version_value(self.version)),
        ];
        let ghost e = inner@;
        assert(cbor_pairs_view(e) =~= spec_announce_payload(self@)->Mapping_0[0].1->Mapping_0);
        GossipPayload(map1("Announce", CborValue::Mapping(inner)))
    }

    /// The body of a Ping or Pong for a clock reading of `secs` seconds and
    /// `nanos` nanoseconds.
    pub fn ping_pong_payload_at(&self, secs: u64, nanos: u32) -> (res: GossipPayload)
        requires
            nanos < 1_000_000_000,
        ensures
            res.0@ == spec_ping_pong_payload(self@, secs, nanos),
    {
        let ms: u128 = secs as u128 * 1000 + (nanos / 1_000_000) as u128;
        let last = vec![
            (CborValue::Integer(-6), CborValue::Integer(ms as i64 as i128)),
            (CborValue::Integer(1), CborValue::Integer(secs as i64 as i128)),
        ];
        let ghost l = last@;
        assert(cbor_pairs_view(l) =~= seq![
            (Cbor::Integer(-6), Cbor::Integer((millis_of(secs, nanos) as i64) as int)),
            (Cbor::Integer(1), Cbor::Integer((secs as i64) as int)),
        ]);
        let last_map = CborValue::Mapping(last);
        assert(last_map@ == Cbor::Mapping(cbor_pairs_view(l)));
        let last_seen = CborValue::Tag(1001, Box::new(last_map));
        assert(last_seen@ == Cbor::Tag(1001, Box::new(last_map@)));
        let entries = vec![
            (text("last_seen"), last_seen),
            (text("version"), version_value(self.version)),
        ];
        let ghost e = entries@;
        assert(cbor_pairs_view(e) =~= spec_ping_pong_payload(self@, secs, nanos)->Mapping_0);
        GossipPayload(CborValue::Mapping(entries))
    }

    /// The body of a Ping or Pong, stamped with the clock read now.
    pub fn make_ping_pong_payload(&self) -> (res: GossipPayload)
        ensures
            exists|s: u64, n: u32|
                n < 1_000_000_000 && res.0@ == spec_ping_pong_payload(self@, s, n),
    {
        let (s, n) = time_since_epoch();
        self.ping_pong_payload_at(s, n)
    }
}

/// Whether `v` holds the text `s`.
pub fn contains_string(v: &[String], s: &String) -> (res: bool)
    ensures
        res == strings_view(v@).contains(s@),
{
    let mut i: usize = 0;
    while i < v.len()
        invariant
            i <= v.len(),
            forall|k: int| 0 <= k < i ==> v@[k]@ != s@,
        decreases v.len() - i,
    {
        if v[i] == *s {
            assert(strings_view(v@)[i as int] == s@);
            return true;
        }
        i = i + 1;
    }
    assert forall|k: int| 0 <= k < strings_view(v@).len() implies strings_view(v@)[k] != s@ by {
        assert(strings_view(v@)[k] == v@[k]@);
    }
    false
}

proof fn lemma_all_texts_of_items(s: Seq<Seq<char>>)
    ensures
        all_texts(text_items(s)) == Some(s),
{
    let items = text_items(s);
    assert forall|i: int| 0 <= i < items.len() implies (#[trigger] items[i]) is Text by {}
    assert(items.map_values(|c: Cbor| c->Text_0) =~= s);
}

proof fn lemma_version_item(v: Version)
    ensures
        find_u32(version_item(v)->Mapping_0, "counter"@) == Some(v.counter),
        find_u32(version_item(v)->Mapping_0, "generation"@) == Some(v.generation),
{
    reveal_strlit("counter");
    reveal_strlit("generation");
    let e = version_item(v)->Mapping_0;
    assert("counter"@ != "generation"@) by {
        assert("counter"@.len() != "generation"@.len());
    }
    lemma_first_index_at(e, entry_matches("counter"@, ValueKind::U32Value), 0);
    lemma_first_index_at(e, entry_matches("generation"@, ValueKind::U32Value), 1);
}

/// What a node announces reads back as its state: the version, the
/// capabilities and the recipe names of an announcement built from a state
/// are that state's, and so is the version in the announcement's body.
pub proof fn lemma_announce_readable(m: GossipStateModel)
    ensures
        spec_version(spec_announce_payload(m)) == Some(m.version),
        spec_body_version(spec_announce_payload(m)) == Some(m.version),
        spec_capabilities(spec_announce_payload(m)) == Some(m.capabilities),
        spec_recipes(spec_announce_payload(m)) == Some(
            m.recipes.map_values(|r: RecipeModel| r.name),
        ),
{
    reveal_strlit("Announce");
    reveal_strlit("node_addr");
    reveal_strlit("capabilities");
    reveal_strlit("recipes");
    reveal_strlit("peers");
    reveal_strlit("version");
    let root = spec_announce_payload(m)->Mapping_0;
    let inner = root[0].1->Mapping_0;
    lemma_first_index_at(root, entry_matches("Announce"@, ValueKind::MappingValue), 0);
    assert(spec_announce_map(spec_announce_payload(m)) == Some(inner));
    lemma_first_index_at(inner, entry_matches("version"@, ValueKind::MappingValue), 4);
    lemma_first_index_at(inner, entry_matches("capabilities"@, ValueKind::ArrayValue), 1);
    assert("node_addr"@ != "recipes"@) by {
        assert("node_addr"@.len() != "recipes"@.len());
    }
    assert("capabilities"@ != "recipes"@) by {
        assert("capabilities"@.len() != "recipes"@.len());
    }
    lemma_first_index_at(inner, entry_matches("recipes"@, ValueKind::ArrayValue), 2);
    lemma_version_item(m.version);
    lemma_all_texts_of_items(m.capabilities);
    lemma_all_texts_of_items(m.recipes.map_values(|r: RecipeModel| r.name));
}

/// A Ping or a Pong carries the sender's version: the version in the body
/// of a message whose first entry holds a Ping/Pong payload is the version
/// of the state the payload was made from.
pub proof fn lemma_ping_pong_version(m: GossipStateModel, kind: Seq<char>, secs: u64, nanos: u32)
    ensures
        spec_body_version(Cbor::Mapping(seq![(Cbor::Text(kind), spec_ping_pong_payload(m, secs, nanos))]))
            == Some(m.version),
{
    reveal_strlit("last_seen");
    reveal_strlit("version");
    let body = spec_ping_pong_payload(m, secs, nanos)->Mapping_0;
    lemma_first_index_at(body, entry_matches("version"@, ValueKind::MappingValue), 1);
    lemma_version_item(m.version);
}

/// The version recorded for a known peer.
pub open spec fn peer_version(m: GossipStateModel, addr: Seq<char>) -> Version {
    m.peers[first_index(m.peers, addr_is(addr))].1.version
}

/// What recording a peer keeps: afterwards the peer is known, and its
/// recorded version is the newest of the one it had and the one heard; the
/// result says whether the peer was new, and exactly then this node's counter
/// went up by one; every other peer keeps its entry.
pub proof fn lemma_update_peer_keeps_newest(m: GossipStateModel, addr: Seq<char>, info: PeerInfoModel)
    requires
        !knows(m, addr) ==> m.version.counter < u32::MAX,
    ensures
        ({
            let (m2, is_new) = spec_update_peer(m, addr, info);
            &&& knows(m2, addr)
            &&& is_new <==> !knows(m, addr)
            &&& !newer(info.version, peer_version(m2, addr))
            &&& knows(m, addr) ==> !newer(peer_version(m, addr), peer_version(m2, addr))
            &&& m2.version.generation == m.version.generation
            &&& m2.version.counter == if is_new {
                m.version.counter + 1
            } else {
                m.version.counter as int
            }
            &&& forall|a: Seq<char>|
                a != addr && knows(m, a) ==> knows(m2, a) && m2.peers[first_index(
                    m2.peers,
                    addr_is(a),
                )] == m.peers[first_index(m.peers, addr_is(a))]
        }),
{
    let (m2, is_new) = spec_update_peer(m, addr, info);
    lemma_first_index(m.peers, addr_is(addr));
    let i = first_index(m.peers, addr_is(addr));
    if i < 0 {
        lemma_first_index_at(m2.peers, addr_is(addr), m.peers.len() as int);
    } else if newer(info.version, m.peers[i].1.version) {
        lemma_first_index_at(m2.peers, addr_is(addr), i);
    }
    assert forall|a: Seq<char>| a != addr && knows(m, a) implies knows(m2, a) && m2.peers[first_index(
        m2.peers,
        addr_is(a),
    )] == m.peers[first_index(m.peers, addr_is(a))] by {
        lemma_first_index(m.peers, addr_is(a));
        let ja = first_index(m.peers, addr_is(a));
        assert(ja != i);
        assert forall|j: int| 0 <= j < ja implies !addr_is(a)(m2.peers[j]) by {
            assert(!addr_is(a)(m.peers[j]));
        }
        lemma_first_index_at(m2.peers, addr_is(a), ja);
    }
}

/// Hearing the same thing twice changes nothing the second time: recording
/// `info` for `addr` again returns `false` and leaves the state as the first
/// recording left it.
pub proof fn lemma_update_peer_idempotent(m: GossipStateModel, addr: Seq<char>, info: PeerInfoModel)
    requires
        !knows(m, addr) ==> m.version.counter < u32::MAX,
    ensures
        spec_update_peer(spec_update_peer(m, addr, info).0, addr, info) == (
            spec_update_peer(m, addr, info).0,
            false,
        ),
{
    lemma_update_peer_keeps_newest(m, addr, info);
}

/// The state after recording, in order, each `(address, info)` of `heard`.
pub open spec fn apply_updates(m: GossipStateModel, heard: Seq<(Seq<char>, PeerInfoModel)>) -> GossipStateModel
    decreases heard.len(),
{
    if heard.len() == 0 {
        m
    } else {
        apply_updates(spec_update_peer(m, heard[0].0, heard[0].1).0, heard.drop_first())
    }
}

/// Over any run of recordings, no known peer is dropped and no recorded
/// version goes back: a later version is never older than an earlier one
/// (by generation, then counter). The node's counter must have room for
/// each new peer of the run.
pub proof fn lemma_updates_never_go_back(m: GossipStateModel, heard: Seq<(Seq<char>, PeerInfoModel)>, a: Seq<char>)
    requires
        m.version.counter + heard.len() <= u32::MAX,
        knows(m, a),
    ensures
        knows(apply_updates(m, heard), a),
        !newer(peer_version(m, a), peer_version(apply_updates(m, heard), a)),
    decreases heard.len(),
{
    if heard.len() > 0 {
        let (m1, _) = spec_update_peer(m, heard[0].0, heard[0].1);
        lemma_update_peer_keeps_newest(m, heard[0].0, heard[0].1);
        assert(m1.version.counter <= m.version.counter + 1);
        lemma_updates_never_go_back(m1, heard.drop_first(), a);
    }
}

/// The entry recorded for the peer at `addr`.
pub open spec fn peer_entry(m: GossipStateModel, addr: Seq<char>) -> (Seq<char>, PeerInfoModel) {
    m.peers[first_index(m.peers, addr_is(addr))]
}

/// What is heard of a known peer replaces its entry exactly when its version
/// is later, by generation first and then by counter: a higher generation,
/// or the same generation and a higher counter. Otherwise the entry stays.
/// Either way the node's own version is unchanged and the result is `false`.
pub proof fn lemma_known_peer_update(m: GossipStateModel, addr: Seq<char>, info: PeerInfoModel)
    requires
        knows(m, addr),
    ensures
        ({
            let (m2, is_new) = spec_update_peer(m, addr, info);
            let before = peer_entry(m, addr).1.version;
            &&& !is_new
            &&& m2.version == m.version
            &&& knows(m2, addr)
            &&& (info.version.generation > before.generation || (info.version.generation
                == before.generation && info.version.counter > before.counter)) ==> peer_entry(
                m2,
                addr,
            ) == (addr, info)
            &&& !(info.version.generation > before.generation || (info.version.generation
                == before.generation && info.version.counter > before.counter)) ==> m2 == m
        }),
{
    lemma_first_index(m.peers, addr_is(addr));
    let i = first_index(m.peers, addr_is(addr));
    let (m2, _) = spec_update_peer(m, addr, info);
    if newer(info.version, m.peers[i].1.version) {
        assert forall|j: int| 0 <= j < i implies !addr_is(addr)(m2.peers[j]) by {
            assert(m2.peers[j] == m.peers[j]);
        }
        lemma_first_index_at(m2.peers, addr_is(addr), i);
    }
}

} // verus!
