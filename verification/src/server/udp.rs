//! How a node reacts to the gossip it hears, and whom it pings.
use vstd::prelude::*;

use crate::cbor::{map1, Cbor, CborValue};
use crate::protocol::{
    spec_body_version, spec_capabilities, spec_recipes, spec_version, strings_view, GossipMessage, PeerInfo,
    PeerInfoModel, Version,
};
use crate::seqs::first_index;
use crate::server::{
    addr_is, knows, spec_ping_pong_payload, spec_update_peer, time_since_epoch, GossipState,
    GossipStateModel,
};

verus! {

/// What a node does after hearing a message: the Pong to send back to the
/// sender, if any, and whether to announce itself anew to all its peers.
pub struct GossipReaction {
    /// The CBOR item of the Pong to send to the sender.
    pub pong: Option<CborValue>,
    /// Whether the sender was a new peer, so that a new announcement is due.
    pub announce: bool,
}

/// The capabilities known of the peer at `addr` (none for an unknown peer).
pub open spec fn known_capabilities(m: GossipStateModel, addr: Seq<char>) -> Seq<Seq<char>> {
    let i = first_index(m.peers, addr_is(addr));
    if i < 0 {
        seq![]
    } else {
        m.peers[i].1.capabilities
    }
}

/// The recipe names known of the peer at `addr` (none for an unknown peer).
pub open spec fn known_recipes(m: GossipStateModel, addr: Seq<char>) -> Seq<Seq<char>> {
    let i = first_index(m.peers, addr_is(addr));
    if i < 0 {
        seq![]
    } else {
        m.peers[i].1.recipes
    }
}

/// What a message tells of its sender: its version (0/0 when it has none),
/// read for an announcement from its first `Announce` entry that holds a map
/// and for a Ping or Pong from the body; an announcement also tells the
/// capabilities and recipe names (none when it does not list them), while a
/// Ping or Pong leaves those as they were known.
pub open spec fn spec_heard_info(m: GossipStateModel, src: Seq<char>, msg: GossipMessage) -> PeerInfoModel {
    let root = msg.payload().0@;
    let read = match msg {
        GossipMessage::Announce(_) => spec_version(root),
        _ => spec_body_version(root),
    };
    let version = match read {
        Some(v) => v,
        None => Version { counter: 0, generation: 0 },
    };
    match msg {
        GossipMessage::Announce(_) => PeerInfoModel {
            version,
            capabilities: match spec_capabilities(root) {
                Some(c) => c,
                None => seq![],
            },
            recipes: match spec_recipes(root) {
                Some(r) => r,
                None => seq![],
            },
        },
        _ => PeerInfoModel {
            version,
            capabilities: known_capabilities(m, src),
            recipes: known_recipes(m, src),
        },
    }
}

/// The Pong item a node sends back, for a clock reading of `secs`/`nanos`.
pub open spec fn spec_pong(m: GossipStateModel, secs: u64, nanos: u32) -> Cbor {
    Cbor::Mapping(seq![(Cbor::Text("Pong"@), spec_ping_pong_payload(m, secs, nanos))])
}

fn clone_strings(v: &[String]) -> (res: Vec<String>)
    ensures
        strings_view(res@) == strings_view(v@),
{
    let mut out: Vec<String> = Vec::new();
    let mut i: usize = 0;
    while i < v.len()
        invariant
            i <= v.len(),
            out@.len() == i,
            forall|k: int| 0 <= k < i ==> (#[trigger] out@[k])@ == v@[k]@,
        decreases v.len() - i,
    {
        out.push(v[i].clone());
        i = i + 1;
    }
    assert(strings_view(out@) =~= strings_view(v@));
    out
}

/// What a message tells of its sender.
#[verifier::loop_isolation(false)]
fn heard_info(state: &GossipState, src: &String, msg: &GossipMessage) -> (res: PeerInfo)
    ensures
        res@ == spec_heard_info(state@, src@, *msg),
{
    let payload = match msg {
        GossipMessage::Ping(p) => p,
        GossipMessage::Pong(p) => p,
        GossipMessage::Announce(p) => p,
    };
    let read = match msg {
        GossipMessage::Announce(_) => payload.version(),
        _ => payload.body_version(),
    };
    let version = match read {
        Some(v) => v,
        None => Version { counter: 0, generation: 0 },
    };
    match msg {
        GossipMessage::Announce(_) => {
            let capabilities = match payload.capabilities() {
                Some(c) => c,
                None => Vec::new(),
            };
            let recipes = match payload.recipes() {
                Some(r) => r,
                None => Vec::new(),
            };
            let res = PeerInfo { version, capabilities, recipes };
            assert(res@ =~= spec_heard_info(state@, src@, *msg));
            res
        },
        _ => {
            let mut capabilities: Vec<String> = Vec::new();
            let mut recipes: Vec<String> = Vec::new();
            let peers = state.peers();
            let mut j: usize = 0;
            let ghost pv = state@.peers;
            while j < peers.len()
                invariant
                    j <= peers.len(),
                    pv == crate::server::peers_view(peers@),
                    forall|m: int| 0 <= m < j ==> !addr_is(src@)(pv[m]),
                    capabilities@.len() == 0 && recipes@.len() == 0,
                decreases peers.len() - j,
            {
                if peers[j].0 == *src {
                    proof {
                        crate::seqs::lemma_first_index_at(pv, addr_is(src@), j as int);
                    }
                    capabilities = clone_strings(peers[j].1.capabilities.as_slice());
                    recipes = clone_strings(peers[j].1.recipes.as_slice());
                    let res = PeerInfo { version, capabilities, recipes };
                    assert(res@ =~= spec_heard_info(state@, src@, *msg));
                    return res;
                }
                j = j + 1;
            }
            proof {
                crate::seqs::lemma_first_index_at(pv, addr_is(src@), pv.len() as int);
            }
            let res = PeerInfo { version, capabilities, recipes };
            assert(res@ =~= spec_heard_info(state@, src@, *msg));
            res
        },
    }
}

/// Reacts to `msg` heard from `src`, for a clock reading of `secs`/`nanos`:
/// records what it tells of the sender (see `spec_heard_info` and
/// `spec_update_peer`), answers a Ping with a Pong made after the update, and
/// asks for a new announcement when the sender was new.
pub fn on_gossip_at(state: &mut GossipState, src: String, msg: &GossipMessage, secs: u64, nanos: u32) -> (res: GossipReaction)
    requires
        nanos < 1_000_000_000,
        !knows(old(state)@, src@) ==> old(state)@.version.counter < u32::MAX,
    ensures
        (final(state)@, res.announce) == spec_update_peer(
            old(state)@,
            src@,
            spec_heard_info(old(state)@, src@, *msg),
        ),
        match msg {
            GossipMessage::Ping(_) => res.pong matches Some(p) && p@ == spec_pong(final(state)@, secs, nanos),
            _ => res.pong is None,
        },
{
    let info = heard_info(state, &src, msg);
    let announce = state.update_peer(src, info);
    let pong = match msg {
        GossipMessage::Ping(_) => {
            let payload = state.ping_pong_payload_at(secs, nanos);
            Some(map1("Pong", payload.0))
        },
        _ => None,
    };
    GossipReaction { pong, announce }
}

/// Reacts to `msg` heard from `src`, reading the clock for a Pong.
pub fn on_gossip(state: &mut GossipState, src: String, msg: &GossipMessage) -> (res: GossipReaction)
    requires
        !knows(old(state)@, src@) ==> old(state)@.version.counter < u32::MAX,
    ensures
        (final(state)@, res.announce) == spec_update_peer(
            old(state)@,
            src@,
            spec_heard_info(old(state)@, src@, *msg),
        ),
        match msg {
            GossipMessage::Ping(_) => res.pong matches Some(p) && exists|s: u64, n: u32|
                n < 1_000_000_000 && p@ == spec_pong(final(state)@, s, n),
            _ => res.pong is None,
        },
{
    let (s, n) = time_since_epoch();
    on_gossip_at(state, src, msg, s, n)
}

/// The peers a node pings: every known peer but itself.
pub fn ping_targets(state: &GossipState) -> (res: Vec<String>)
    ensures
        strings_view(res@) == state@.peers.map_values(|p: (Seq<char>, PeerInfoModel)| p.0).filter(
            |a: Seq<char>| a != state@.own_addr,
        ),
{
    let addrs = state.peer_addrs();
    let ghost all = strings_view(addrs@);
    let ghost keep = |a: Seq<char>| a != state@.own_addr;
    let mut out: Vec<String> = Vec::new();
    let mut i: usize = 0;
    while i < addrs.len()
        invariant
            i <= addrs.len(),
            all == strings_view(addrs@),
            keep == (|a: Seq<char>| a != state@.own_addr),
            strings_view(out@) == all.take(i as int).filter(keep),
        decreases addrs.len() - i,
    {
        let ghost before = strings_view(out@);
        reveal_with_fuel(Seq::<_>::filter, 1);
        assert(all.take(i + 1).drop_last() == all.take(i as int));
        if addrs[i] != *state.own_addr() {
            out.push(addrs[i].clone());
            assert(strings_view(out@) =~= before.push(all[i as int]));
        }
        i = i + 1;
    }
    assert(all.take(addrs.len() as int) == all);
    out
}

/// Starts a round of Pings. When the node knows any peer, its version
/// counter goes up by one, so that the round's Pings carry a new version,
/// and the peers to ping are those of `ping_targets`; with no peer known,
/// nothing changes and nobody is pinged.
pub fn begin_ping_round(state: &mut GossipState) -> (res: Vec<String>)
    requires
        old(state)@.peers.len() > 0 ==> old(state)@.version.counter < u32::MAX,
    ensures
        final(state)@ == if old(state)@.peers.len() > 0 {
            GossipStateModel {
                version: Version {
                    counter: (old(state)@.version.counter + 1) as u32,
                    ..old(state)@.version
                },
                ..old(state)@
            }
        } else {
            old(state)@
        },
        strings_view(res@) == if old(state)@.peers.len() > 0 {
            old(state)@.peers.map_values(|p: (Seq<char>, PeerInfoModel)| p.0).filter(
                |a: Seq<char>| a != old(state)@.own_addr,
            )
        } else {
            Seq::<Seq<char>>::empty()
        },
{
    if state.peers().len() == 0 {
        let res: Vec<String> = Vec::new();
        assert(strings_view(res@) =~= Seq::<Seq<char>>::empty());
        return res;
    }
    let targets = ping_targets(state);
    state.bump_version();
    targets
}

/// A Ping or a Pong from a known peer leaves what is known of its
/// capabilities and recipes as it was; the version it carries is recorded
/// when it is later than the one known.
pub proof fn lemma_ping_pong_keep_view(m: GossipStateModel, src: Seq<char>, msg: GossipMessage)
    requires
        knows(m, src),
        !(msg is Announce),
    ensures
        ({
            let m2 = spec_update_peer(m, src, spec_heard_info(m, src, msg)).0;
            &&& knows(m2, src)
            &&& crate::server::peer_entry(m2, src).1.capabilities == crate::server::peer_entry(
                m,
                src,
            ).1.capabilities
            &&& crate::server::peer_entry(m2, src).1.recipes == crate::server::peer_entry(
                m,
                src,
            ).1.recipes
        }),
{
    crate::server::lemma_known_peer_update(m, src, spec_heard_info(m, src, msg));
}

/// An announcement from a peer makes what is known of it the capabilities
/// and recipe names it lists, when it is new or its version is later.
pub proof fn lemma_announce_sets_view(m: GossipStateModel, src: Seq<char>, msg: GossipMessage)
    requires
        msg is Announce,
        spec_capabilities(msg.payload().0@) matches Some(c),
        spec_recipes(msg.payload().0@) matches Some(r),
        !knows(m, src) ==> m.version.counter < u32::MAX,
        knows(m, src) ==> ({
            let heard = spec_heard_info(m, src, msg).version;
            let known = crate::server::peer_entry(m, src).1.version;
            heard.generation > known.generation || (heard.generation == known.generation
                && heard.counter > known.counter)
        }),
    ensures
        ({
            let m2 = spec_update_peer(m, src, spec_heard_info(m, src, msg)).0;
            &&& knows(m2, src)
            &&& crate::server::peer_entry(m2, src).1.capabilities == spec_capabilities(
                msg.payload().0@,
            )->0
            &&& crate::server::peer_entry(m2, src).1.recipes == spec_recipes(msg.payload().0@)->0
        }),
{
    let info = spec_heard_info(m, src, msg);
    if knows(m, src) {
        crate::server::lemma_known_peer_update(m, src, info);
    } else {
        let m2 = spec_update_peer(m, src, info).0;
        crate::seqs::lemma_first_index(m.peers, addr_is(src));
        crate::seqs::lemma_first_index_at(m2.peers, addr_is(src), m.peers.len() as int);
    }
}

} // verus!
