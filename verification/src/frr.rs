//! FRR's status, from what `vtysh` prints.

use vstd::prelude::*;
use crate::order::{in_order, key_views, law_order_is_sorted, lex_le, order, positions};
use crate::source::{char_codes, codes_of, lemma_text_keys, text_le};
use crate::text::{
    cat4, decimal, has_word, join_of, law_joined_words_are_had_back, lemma_joined_words_are_trim,
    none_white, number, same, trim, trim_of, words, words_of,
};

verus! {

/// Asks which daemons run.
pub const SHOW_DAEMONS: &'static str = "show daemons";

/// Asks for the number of routes.
pub const SHOW_ROUTES: &'static str = "show ip route summary json";

/// Asks for the BGP peers of every VRF.
pub const SHOW_BGP: &'static str = "show bgp vrf all summary json";

/// The IPv4 routes in the RIB and how many of them are in the FIB.
#[derive(Clone, Copy)]
pub struct RouteSummary {
    pub routes_total: u64,
    pub routes_total_fib: u64,
}

/// The number of routes for humans.
pub open spec fn routes_text(r: RouteSummary) -> Seq<char> {
    decimal(r.routes_total as nat) + " routes, "@ + decimal(r.routes_total_fib as nat) + " FIB"@
}

/// The number of routes for humans, if `vtysh` gave it.
pub fn parse_route_summary(summary: &Option<RouteSummary>) -> (r: Option<String>)
    ensures
        summary is Some <==> r is Some,
        r matches Some(s) ==> s@ == routes_text(summary.unwrap()),
{
    match summary {
        Some(s) => Some(
            cat4(
                number(s.routes_total as u128).as_str(),
                " routes, ",
                number(s.routes_total_fib as u128).as_str(),
                " FIB",
            ),
        ),
        None => None,
    }
}

/// One BGP peer of an address family.
pub struct BgpPeer {
    pub address: String,
    pub state: String,
}

/// The peers of one address family of a VRF.
pub struct BgpAfi {
    pub name: String,
    pub peers: Vec<BgpPeer>,
}

/// The address families of one VRF.
pub struct BgpVrf {
    pub name: String,
    pub afis: Vec<BgpAfi>,
}

/// How many of some peers are established.
pub open spec fn established_peers(peers: Seq<BgpPeer>) -> nat
    decreases peers.len(),
{
    if peers.len() == 0 {
        0
    } else {
        established_peers(peers.drop_last()) + if peers.last().state@ == "Established"@ {
            1nat
        } else {
            0nat
        }
    }
}

/// How many peers are established over some address families; a peer counts
/// in each family that it appears in.
pub open spec fn established_in(afis: Seq<BgpAfi>) -> nat
    decreases afis.len(),
{
    if afis.len() == 0 {
        0
    } else {
        established_in(afis.drop_last()) + established_peers(afis.last().peers@)
    }
}

/// How many peers there are over some address families; a peer counts in each
/// family that it appears in.
pub open spec fn peers_in(afis: Seq<BgpAfi>) -> nat
    decreases afis.len(),
{
    if afis.len() == 0 {
        0
    } else {
        peers_in(afis.drop_last()) + afis.last().peers@.len()
    }
}

/// The peers of every VRF can be counted.
pub open spec fn countable(vrfs: Option<Vec<BgpVrf>>) -> bool {
    match vrfs {
        Some(v) => all_countable(v@),
        None => true,
    }
}

/// The peers of each of some VRFs can be counted.
pub open spec fn all_countable(v: Seq<BgpVrf>) -> bool {
    forall|i: int| 0 <= i < v.len() ==> peers_in((#[trigger] v[i]).afis@) <= u32::MAX
}

/// Name, established peers and all peers of a VRF.
pub open spec fn vrf_count(v: BgpVrf) -> (Seq<char>, u32, u32) {
    (v.name@, established_in(v.afis@) as u32, peers_in(v.afis@) as u32)
}

/// By what VRFs are put in order: the numbers of the characters of their names.
pub open spec fn name_keys(v: Seq<BgpVrf>) -> Seq<Seq<u32>> {
    Seq::new(v.len(), |i: int| char_codes(v[i].name@))
}

/// Name, established peers and all peers of each VRF, in the order of their
/// names.
pub open spec fn peer_counts(vrfs: Option<Vec<BgpVrf>>) -> Seq<(Seq<char>, u32, u32)> {
    match vrfs {
        Some(v) => Seq::new(v@.len(), |i: int| vrf_count(v@[in_order(name_keys(v@))[i]])),
        None => seq![],
    }
}

/// The counts as mathematical values.
pub open spec fn count_views(v: Seq<(String, u32, u32)>) -> Seq<(Seq<char>, u32, u32)> {
    Seq::new(v.len(), |i: int| (v[i].0@, v[i].1, v[i].2))
}

proof fn lemma_established_at_most_all(afis: Seq<BgpAfi>)
    ensures
        established_in(afis) <= peers_in(afis),
    decreases afis.len(),
{
    if afis.len() > 0 {
        lemma_established_at_most_all(afis.drop_last());
        lemma_established_peers_at_most_all(afis.last().peers@);
    }
}

proof fn lemma_established_peers_at_most_all(peers: Seq<BgpPeer>)
    ensures
        established_peers(peers) <= peers.len(),
    decreases peers.len(),
{
    if peers.len() > 0 {
        lemma_established_peers_at_most_all(peers.drop_last());
    }
}

proof fn lemma_peers_grow(afis: Seq<BgpAfi>, n: int)
    requires
        0 <= n <= afis.len(),
    ensures
        peers_in(afis.take(n)) <= peers_in(afis),
    decreases afis.len() - n,
{
    if n < afis.len() {
        lemma_peers_grow(afis, n + 1);
        assert(afis.take(n + 1).drop_last() =~= afis.take(n));
    } else {
        assert(afis.take(n) =~= afis);
    }
}

fn count_established(peers: &Vec<BgpPeer>) -> (r: u32)
    requires
        peers.len() <= u32::MAX,
    ensures
        r == established_peers(peers@),
        r <= peers.len(),
{
    let mut n: u32 = 0;
    let mut i: usize = 0;
    while i < peers.len()
        invariant
            i <= peers.len() <= u32::MAX,
            n <= i,
            n == established_peers(peers@.take(i as int)),
        decreases peers.len() - i,
    {
        proof {
            assert(peers@.take(i + 1).drop_last() =~= peers@.take(i as int));
        }
        if same(peers[i].state.as_str(), "Established") {
            n += 1;
        }
        i += 1;
    }
    proof {
        assert(peers@.take(i as int) =~= peers@);
    }
    n
}

fn count_vrf(vrf: &BgpVrf) -> (r: (u32, u32))
    requires
        peers_in(vrf.afis@) <= u32::MAX,
    ensures
        r.0 == established_in(vrf.afis@),
        r.1 == peers_in(vrf.afis@),
{
    let mut established: u32 = 0;
    let mut total: u32 = 0;
    let mut i: usize = 0;
    while i < vrf.afis.len()
        invariant
            i <= vrf.afis.len(),
            peers_in(vrf.afis@) <= u32::MAX,
            established <= total,
            established == established_in(vrf.afis@.take(i as int)),
            total == peers_in(vrf.afis@.take(i as int)),
        decreases vrf.afis.len() - i,
    {
        proof {
            assert(vrf.afis@.take(i + 1).drop_last() =~= vrf.afis@.take(i as int));
            lemma_peers_grow(vrf.afis@, i + 1);
        }
        let n = count_established(&vrf.afis[i].peers);
        established += n;
        total += vrf.afis[i].peers.len() as u32;
        i += 1;
    }
    proof {
        assert(vrf.afis@.take(i as int) =~= vrf.afis@);
    }
    (established, total)
}

/// Whether the peers of every VRF can be counted.
pub fn peers_countable(vrfs: &Option<Vec<BgpVrf>>) -> (r: bool)
    ensures
        r == countable(*vrfs),
{
    let v = match vrfs {
        Some(v) => v,
        None => return true,
    };
    let mut i: usize = 0;
    while i < v.len()
        invariant
            i <= v.len(),
            *vrfs == Some(*v),
            forall|k: int| 0 <= k < i ==> peers_in((#[trigger] v@[k]).afis@) <= u32::MAX,
        decreases v.len() - i,
    {
        let mut total: u128 = 0;
        let mut j: usize = 0;
        let afis = &v[i].afis;
        while j < afis.len()
            invariant
                j <= afis.len(),
                total == peers_in(afis@.take(j as int)),
                total <= j * 0xffff_ffff_ffff_ffff,
            decreases afis.len() - j,
        {
            proof {
                assert(afis@.take(j + 1).drop_last() =~= afis@.take(j as int));
                assert(j * 0xffff_ffff_ffff_ffff <= 0xffff_ffff_ffff_ffff * 0xffff_ffff_ffff_ffff)
                    by (nonlinear_arith)
                    requires
                        j <= 0xffff_ffff_ffff_ffff,
                ;
            }
            total += afis[j].peers.len() as u128;
            j += 1;
        }
        proof {
            assert(afis@.take(j as int) =~= afis@);
        }
        if total > 0xffff_ffff {
            proof {
                assert(peers_in(v@[i as int].afis@) > u32::MAX);
            }
            return false;
        }
        i += 1;
    }
    true
}

/// Established and configured BGP peers of each VRF, in the order of their
/// names. Every tenant has its own VRF and BGP instance, so that one global
/// count would hide one tenant's session being down behind another's being
/// fine.
pub fn parse_bgp_vrf_summary(vrfs: &Option<Vec<BgpVrf>>) -> (r: Vec<(String, u32, u32)>)
    requires
        countable(*vrfs),
    ensures
        count_views(r@) == peer_counts(*vrfs),
{
    let mut out: Vec<(String, u32, u32)> = Vec::new();
    let v = match vrfs {
        Some(v) => v,
        None => {
            proof {
                assert(count_views(out@) =~= peer_counts(*vrfs));
            }
            return out;
        },
    };
    let mut keys: Vec<Vec<u32>> = Vec::new();
    let mut i: usize = 0;
    while i < v.len()
        invariant
            i <= v.len(),
            keys.len() == i,
            forall|k: int| 0 <= k < i ==> (#[trigger] keys@[k])@ == char_codes(v@[k].name@),
        decreases v.len() - i,
    {
        keys.push(codes_of(v[i].name.as_str()));
        i += 1;
    }
    proof {
        assert(key_views(keys@) =~= name_keys(v@));
    }
    let ord = order(&keys);
    let mut k: usize = 0;
    while k < ord.len()
        invariant
            k <= ord.len(),
            ord.len() == v.len(),
            *vrfs == Some(*v),
            countable(*vrfs),
            positions(ord@) == in_order(name_keys(v@)),
            forall|j: int| 0 <= j < ord.len() ==> (#[trigger] ord@[j]) < v.len(),
            count_views(out@) =~= peer_counts(*vrfs).take(k as int),
        decreases ord.len() - k,
    {
        let at = ord[k];
        proof {
            assert(peers_in(v@[at as int].afis@) <= u32::MAX);
            assert(positions(ord@)[k as int] == at);
        }
        let (established, total) = count_vrf(&v[at]);
        let ghost before = out@;
        out.push((v[at].name.clone(), established, total));
        proof {
            assert(count_views(out@) =~= count_views(before).push(vrf_count(v@[at as int])));
        }
        k += 1;
    }
    proof {
        assert(peer_counts(*vrfs).take(k as int) =~= peer_counts(*vrfs));
    }
    out
}

/// What the dashboard shows of FRR, beside whether its service runs.
pub struct FrrStatus {
    pub daemons: String,
    pub route_summary: Option<String>,
    /// One entry per VRF with a BGP instance: name, established, total.
    pub bgp_vrf_peers: Vec<(String, u32, u32)>,
}

/// FRR's status as a mathematical value.
pub struct FrrView {
    pub daemons: Seq<char>,
    pub route_summary: Option<Seq<char>>,
    pub bgp_vrf_peers: Seq<(Seq<char>, u32, u32)>,
}

/// A text that may be missing, as a mathematical value.
pub open spec fn optional(s: Option<String>) -> Option<Seq<char>> {
    match s {
        Some(t) => Some(t@),
        None => None,
    }
}

impl View for FrrStatus {
    type V = FrrView;

    open spec fn view(&self) -> FrrView {
        FrrView {
            daemons: self.daemons@,
            route_summary: optional(self.route_summary),
            bgp_vrf_peers: count_views(self.bgp_vrf_peers@),
        }
    }
}

/// Whether `bgpd` is among the daemons, so that its peers are worth asking
/// for.
pub open spec fn runs_bgp(daemons: Seq<char>) -> bool {
    words_of(trim_of(daemons)).contains("bgpd"@)
}

/// Whether to ask for BGP peers, given the answer to `SHOW_DAEMONS`.
pub fn asks_for_bgp(daemons: &str) -> (r: bool)
    ensures
        r == runs_bgp(daemons@),
{
    has_word(&words(trim(daemons).as_str()), "bgpd")
}

/// FRR's status from the answers of `vtysh`. Nothing is shown, and nothing
/// need be asked, when the service does not run; the peers are shown only
/// when `bgpd` runs.
pub open spec fn status_of(
    service_active: bool,
    daemons: Seq<char>,
    routes: Option<RouteSummary>,
    vrfs: Option<Vec<BgpVrf>>,
) -> FrrView {
    if !service_active {
        FrrView { daemons: seq![], route_summary: None, bgp_vrf_peers: seq![] }
    } else {
        FrrView {
            daemons: trim_of(daemons),
            route_summary: match routes {
                Some(r) => Some(routes_text(r)),
                None => None,
            },
            bgp_vrf_peers: if runs_bgp(daemons) {
                peer_counts(vrfs)
            } else {
                seq![]
            },
        }
    }
}

/// FRR's status from the answers to `SHOW_DAEMONS`, `SHOW_ROUTES` and
/// `SHOW_BGP`, the latter two as the JSON that they are, if they are.
pub fn gather(
    service_active: bool,
    daemons: &str,
    routes: &Option<RouteSummary>,
    vrfs: &Option<Vec<BgpVrf>>,
) -> (r: FrrStatus)
    requires
        countable(*vrfs),
    ensures
        r@ == status_of(service_active, daemons@, *routes, *vrfs),
{
    if !service_active {
        let r = FrrStatus {
            daemons: String::new(),
            route_summary: None,
            bgp_vrf_peers: Vec::new(),
        };
        proof {
            assert(r@.bgp_vrf_peers =~= seq![]);
            assert(r@.daemons =~= seq![]);
        }
        return r;
    }
    let bgp_vrf_peers = if asks_for_bgp(daemons) {
        parse_bgp_vrf_summary(vrfs)
    } else {
        Vec::new()
    };
    let r = FrrStatus {
        daemons: trim(daemons),
        route_summary: parse_route_summary(routes),
        bgp_vrf_peers,
    };
    proof {
        if !runs_bgp(daemons@) {
            assert(r@.bgp_vrf_peers =~= seq![]);
        }
    }
    r
}

// ---------------------------------------------------------------------------
// Laws
// ---------------------------------------------------------------------------

/// Every VRF has its own entry. What that says depends on the VRF's own peers
/// alone, so that no VRF is hidden behind another one.
pub proof fn law_vrfs_do_not_hide_each_other(v: Vec<BgpVrf>, i: int)
    requires
        0 <= i < v@.len(),
    ensures
        peer_counts(Some(v)).len() == v@.len(),
        peer_counts(Some(v)).contains(vrf_count(v@[i])),
{
    let ord = in_order(name_keys(v@));
    law_order_is_sorted(name_keys(v@));
    assert(ord.contains(i));
    let k = choose|k: int| 0 <= k < ord.len() && ord[k] == i;
    assert(peer_counts(Some(v))[k] == vrf_count(v@[i]));
}

/// The VRFs are listed in the order of their names.
pub proof fn law_vrfs_are_in_order(v: Vec<BgpVrf>, i: int, j: int)
    requires
        0 <= i <= j < v@.len(),
    ensures
        lex_le(
            char_codes(peer_counts(Some(v))[i].0),
            char_codes(peer_counts(Some(v))[j].0),
        ),
{
    let keys = name_keys(v@);
    let ord = in_order(keys);
    law_order_is_sorted(keys);
    assert(ord.contains(ord[i]) && ord.contains(ord[j]));
    assert(lex_le(keys[ord[i]], keys[ord[j]]));
}

/// No VRF has more established peers than peers.
pub proof fn law_established_are_peers(vrfs: Option<Vec<BgpVrf>>, i: int)
    requires
        countable(vrfs),
        0 <= i < peer_counts(vrfs).len(),
    ensures
        peer_counts(vrfs)[i].1 <= peer_counts(vrfs)[i].2,
{
    let v = vrfs.unwrap();
    let ord = in_order(name_keys(v@));
    law_order_is_sorted(name_keys(v@));
    assert(ord.contains(ord[i]));
    assert(peers_in(v@[ord[i]].afis@) <= u32::MAX);
    lemma_established_at_most_all(v@[ord[i]].afis@);
}

/// A VRF without peers is still listed, with no established peer out of none.
pub proof fn law_vrf_without_peers_is_listed(v: Vec<BgpVrf>, i: int)
    requires
        0 <= i < v@.len(),
        peers_in(v@[i].afis@) == 0,
    ensures
        peer_counts(Some(v)).contains((v@[i].name@, 0u32, 0u32)),
{
    lemma_established_at_most_all(v@[i].afis@);
    law_vrfs_do_not_hide_each_other(v, i);
}

/// A peer more is one established peer more if its state is exactly
/// `Established`, and none more otherwise.
pub proof fn law_established_peers_are_counted(peers: Seq<BgpPeer>, peer: BgpPeer)
    ensures
        established_peers(seq![]) == 0,
        peer.state@ == "Established"@ ==> established_peers(peers.push(peer)) == established_peers(
            peers,
        ) + 1,
        peer.state@ != "Established"@ ==> established_peers(peers.push(peer)) == established_peers(
            peers,
        ),
{
    assert(peers.push(peer).drop_last() =~= peers);
}

/// The established peers are as many as the positions where one stands.
pub proof fn law_established_peers_are_positions(peers: Seq<BgpPeer>)
    ensures
        established_peers(peers) == Set::<int>::new(
            |i: int| 0 <= i < peers.len() && peers[i].state@ == "Established"@,
        ).len(),
    decreases peers.len(),
{
    let at = |p: Seq<BgpPeer>|
        Set::<int>::new(|i: int| 0 <= i < p.len() && p[i].state@ == "Established"@);
    lemma_positions_finite(peers);
    if peers.len() == 0 {
        assert(at(peers) =~= Set::<int>::empty());
    } else {
        let front = peers.drop_last();
        law_established_peers_are_positions(front);
        lemma_positions_finite(front);
        if peers.last().state@ == "Established"@ {
            assert(at(peers) =~= at(front).insert(front.len() as int));
        } else {
            assert(at(peers) =~= at(front));
        }
    }
}

proof fn lemma_positions_finite(peers: Seq<BgpPeer>)
    ensures
        Set::<int>::new(
            |i: int| 0 <= i < peers.len() && peers[i].state@ == "Established"@,
        ).finite(),
    decreases peers.len(),
{
    let at = |p: Seq<BgpPeer>|
        Set::<int>::new(|i: int| 0 <= i < p.len() && p[i].state@ == "Established"@);
    if peers.len() == 0 {
        assert(at(peers) =~= Set::<int>::empty());
    } else {
        let front = peers.drop_last();
        lemma_positions_finite(front);
        if peers.last().state@ == "Established"@ {
            assert(at(peers) =~= at(front).insert(front.len() as int));
        } else {
            assert(at(peers) =~= at(front));
        }
    }
}

/// All peers are counted as established only if each of them is, and none only
/// if none of them is.
pub proof fn law_all_established_means_each(peers: Seq<BgpPeer>, i: int)
    requires
        0 <= i < peers.len(),
    ensures
        established_peers(peers) <= peers.len(),
        established_peers(peers) == peers.len() ==> peers[i].state@ == "Established"@,
        established_peers(peers) == 0 ==> peers[i].state@ != "Established"@,
    decreases peers.len(),
{
    lemma_established_peers_at_most_all(peers);
    let front = peers.drop_last();
    lemma_established_peers_at_most_all(front);
    if i < front.len() {
        law_all_established_means_each(front, i);
    }
}

/// What a VRF shows is the sum over its address families: one family more adds
/// its established peers to the one number and all its peers to the other.
pub proof fn law_address_families_add_up(
    name: String,
    afis: Seq<BgpAfi>,
    afi: BgpAfi,
    fewer: BgpVrf,
    more: BgpVrf,
)
    requires
        fewer.name@ == name@,
        more.name@ == name@,
        fewer.afis@ == afis,
        more.afis@ == afis.push(afi),
        peers_in(more.afis@) <= u32::MAX,
    ensures
        vrf_count(more).0 == name@,
        vrf_count(more).1 == vrf_count(fewer).1 + established_peers(afi.peers@),
        vrf_count(more).2 == vrf_count(fewer).2 + afi.peers@.len(),
        afis.len() == 0 ==> vrf_count(fewer) == (name@, 0u32, 0u32),
{
    assert(afis.push(afi).drop_last() =~= afis);
    lemma_established_at_most_all(afis);
    lemma_established_at_most_all(afis.push(afi));
}

/// The VRFs are listed in the dictionary order of their names.
pub proof fn law_vrfs_are_listed_by_name(v: Vec<BgpVrf>, i: int, j: int)
    requires
        0 <= i <= j < v@.len(),
    ensures
        text_le(peer_counts(Some(v))[i].0, peer_counts(Some(v))[j].0),
{
    law_vrfs_are_in_order(v, i, j);
    lemma_text_keys(peer_counts(Some(v))[i].0, peer_counts(Some(v))[j].0);
}

/// The number of routes for humans: those in the RIB come first, those in the
/// FIB behind them.
pub proof fn law_routes_are_told(r: RouteSummary)
    ensures
        routes_text(r) == decimal(r.routes_total as nat) + " routes, "@ + decimal(
            r.routes_total_fib as nat,
        ) + " FIB"@,
{
}

/// Peers are asked for only if a word of the daemons' list is exactly `bgpd`,
/// wherever it stands among the others.
pub proof fn law_bgp_is_asked_for(before: Seq<Seq<char>>, word: Seq<char>, after: Seq<Seq<char>>)
    requires
        word.len() > 0 && none_white(word),
        forall|i: int|
            0 <= i < before.len() ==> (#[trigger] before[i]).len() > 0 && none_white(before[i])
                && before[i] != "bgpd"@,
        forall|i: int|
            0 <= i < after.len() ==> (#[trigger] after[i]).len() > 0 && none_white(after[i])
                && after[i] != "bgpd"@,
    ensures
        runs_bgp(join_of(before.push(word) + after, " "@)) <==> word == "bgpd"@,
{
    let all = before.push(word) + after;
    let text = join_of(all, " "@);
    assert forall|i: int| 0 <= i < all.len() implies (#[trigger] all[i]).len() > 0 && none_white(
        all[i],
    ) && (i != before.len() ==> all[i] != "bgpd"@) by {
        if i < before.len() {
            assert(all[i] == before[i]);
        } else if i > before.len() {
            assert(all[i] == after[i - before.len() - 1]);
        }
    }
    law_joined_words_are_had_back(all);
    lemma_joined_words_are_trim(all);
    assert(all[before.len() as int] == word);
}

/// A service that does not run shows nothing; one that runs shows its daemons
/// and routes whether or not BGP runs, and its peers if it does.
pub proof fn law_status_is_shown(
    daemons: Seq<char>,
    routes: Option<RouteSummary>,
    vrfs: Option<Vec<BgpVrf>>,
)
    ensures
        status_of(false, daemons, routes, vrfs).daemons.len() == 0,
        status_of(false, daemons, routes, vrfs).route_summary is None,
        status_of(false, daemons, routes, vrfs).bgp_vrf_peers.len() == 0,
        status_of(true, daemons, routes, vrfs).daemons == trim_of(daemons),
        status_of(true, daemons, routes, vrfs).route_summary is Some <==> routes is Some,
        routes matches Some(r) ==> status_of(true, daemons, routes, vrfs).route_summary == Some(
            routes_text(r),
        ),
        vrfs is Some && runs_bgp(daemons) ==> status_of(
            true,
            daemons,
            routes,
            vrfs,
        ).bgp_vrf_peers.len() == vrfs->0@.len(),
        !runs_bgp(daemons) || vrfs is None ==> status_of(
            true,
            daemons,
            routes,
            vrfs,
        ).bgp_vrf_peers.len() == 0,
{
}

/// A VRF's name, its established peers and its peers are told in this order,
/// and every VRF is told.
pub proof fn law_counts_are_told(v: Seq<(String, u32, u32)>, i: int)
    requires
        0 <= i < v.len(),
    ensures
        count_views(v).len() == v.len(),
        count_views(v)[i].0 == v[i].0@,
        count_views(v)[i].1 == v[i].1,
        count_views(v)[i].2 == v[i].2,
{
}

/// Peers can be counted unless one VRF alone has more than 32 bits hold.
pub proof fn law_peers_are_countable(v: Vec<BgpVrf>)
    ensures
        countable(None),
        (forall|i: int| 0 <= i < v@.len() ==> peers_in((#[trigger] v@[i]).afis@) <= u32::MAX)
            ==> countable(Some(v)),
{
}

} // verus!
