//! The dashboard as plain text, for when there is no terminal to draw on.

use vstd::prelude::*;
use crate::frr::{count_views, FrrStatus, FrrView};
use crate::net::{fmt_rate, interface_views, rate_text, Interface, InterfaceView};
use crate::snapshot::{unit_views, Snapshot, SnapshotView, SyncUnit, SyncUnitView};
use crate::system::{bytes_text, fmt_bytes, DiskInfo, MemInfo};
use crate::systemd::SyncHealth;
use crate::text::{
    cat, cat3, cat4, cat5, decimal, is_white, join, join_of, law_white_space,
    law_white_space_in_front_is_no_word, lemma_texts_push, lines, lines_of, none_white, number, pad,
    padded, texts, words_of,
};

verus! {

/// What the text says of the memory.
pub open spec fn memory_line(memory: Option<MemInfo>) -> Seq<char> {
    match memory {
        Some(m) => "  Memory: "@ + bytes_text(m.used) + " used / "@ + bytes_text(m.total)
            + " total ("@ + bytes_text(m.available) + " available)"@,
        None => "  Memory: unknown"@,
    }
}

/// What the text says of the disk.
pub open spec fn disk_line(disk: Option<DiskInfo>) -> Seq<char> {
    match disk {
        Some(d) => "  Disk (/): "@ + bytes_text(d.used) + " used / "@ + bytes_text(d.total)
            + " total ("@ + decimal(d.percent_used as nat) + "% used)"@,
        None => "  Disk (/): unknown"@,
    }
}

/// Who and how long, then how busy.
pub open spec fn system_lines(s: SnapshotView) -> Seq<Seq<char>> {
    seq![
        "frr-bootc - "@ + s.hostname + " - "@ + s.now,
        "  Uptime: "@ + s.uptime,
        ""@,
        "System"@,
        "  Load average (1/5/15m): "@ + s.load_average + "   ("@ + decimal(s.cpu_count) + " CPUs)"@,
        memory_line(s.memory),
        disk_line(s.disk),
        ""@,
    ]
}

/// How fast an interface receives and sends.
pub open spec fn throughput(rate: (u64, u64)) -> Seq<char> {
    "rx "@ + rate_text(rate.0) + " / tx "@ + rate_text(rate.1)
}

/// How fast an interface receives and sends.
pub fn throughput_text(rate: (u64, u64)) -> (r: String)
    ensures
        r@ == throughput(rate),
{
    let rx = fmt_rate(rate.0);
    let tx = fmt_rate(rate.1);
    cat4("rx ", rx.as_str(), " / tx ", tx.as_str())
}

/// The first line of an interface.
pub open spec fn interface_line(i: InterfaceView) -> Seq<char> {
    "  "@ + padded(i.name, 16) + " "@ + padded(
        if i.up {
            "UP"@
        } else {
            "DOWN"@
        },
        9,
    ) + " "@ + (match i.rate {
        Some(rate) => throughput(rate),
        None => "throughput: -"@,
    })
}

/// The second line of an interface that has addresses.
pub open spec fn address_line(i: InterfaceView) -> Seq<char> {
    "  "@ + padded(""@, 16) + " "@ + join_of(i.addrs, " "@)
}

/// The lines of the interfaces.
pub open spec fn interface_lines(v: Seq<InterfaceView>) -> Seq<Seq<char>>
    decreases v.len(),
{
    if v.len() == 0 {
        seq!["Network Interfaces"@]
    } else {
        let first = interface_lines(v.drop_last()).push(interface_line(v.last()));
        if v.last().addrs.len() > 0 {
            first.push(address_line(v.last()))
        } else {
            first
        }
    }
}

/// The line of a VRF.
pub open spec fn vrf_line(c: (Seq<char>, u32, u32)) -> Seq<char> {
    "    "@ + padded(c.0, 20) + " "@ + peers_text(c.1, c.2)
}

/// How many BGP peers are up.
pub open spec fn peers_text(established: u32, total: u32) -> Seq<char> {
    decimal(established as nat) + "/"@ + decimal(total as nat) + " established"@
}

/// How many BGP peers are up.
pub fn peers(established: u32, total: u32) -> (r: String)
    ensures
        r@ == peers_text(established, total),
{
    let e = number(established as u128);
    let t = number(total as u128);
    cat4(e.as_str(), "/", t.as_str(), " established")
}

/// The lines of FRR. Only what is there is told, and only while it runs.
pub open spec fn frr_lines(active: bool, f: FrrView) -> Seq<Seq<char>> {
    let head = seq![
        "FRR"@,
        "  frr.service: "@ + (if active {
            "active"@
        } else {
            "inactive"@
        }),
    ];
    let daemons = if f.daemons.len() > 0 {
        seq!["  Active daemons: "@ + f.daemons]
    } else {
        seq![]
    };
    let routes = match f.route_summary {
        Some(r) => seq!["  IPv4 RIB: "@ + r],
        None => seq![],
    };
    let vrfs = if f.bgp_vrf_peers.len() > 0 {
        seq!["  BGP peers (per VRF):"@] + Seq::new(
            f.bgp_vrf_peers.len(),
            |i: int| vrf_line(f.bgp_vrf_peers[i]),
        )
    } else {
        seq![]
    };
    if active {
        head + daemons + routes + vrfs
    } else {
        head
    }
}

/// The line of a sync service.
pub open spec fn unit_line(u: SyncUnitView) -> Seq<char> {
    "  "@ + padded(u.label, 24) + " "@ + (match u.health {
        SyncHealth::Failed => "FAILED (see: journalctl -u "@ + u.service + ")"@,
        SyncHealth::TimerNotActive => "timer not active"@,
        SyncHealth::Healthy => "ok"@,
    })
}

/// The lines of the sync services.
pub open spec fn unit_lines(v: Seq<SyncUnitView>) -> Seq<Seq<char>> {
    seq!["Sync Services"@] + Seq::new(v.len(), |i: int| unit_line(v[i]))
}

/// The lines of the system image, if its status is known.
pub open spec fn image_lines(status: Option<Seq<char>>) -> Seq<Seq<char>> {
    match status {
        Some(s) => seq!["System Image (bootc)"@] + Seq::new(
            lines_of(s).len(),
            |i: int| "  "@ + lines_of(s)[i],
        ),
        None => seq![],
    }
}

/// All lines, with an empty one after each section but the last.
pub open spec fn plain_lines(s: SnapshotView) -> Seq<Seq<char>> {
    system_lines(s) + interface_lines(s.interfaces).push(""@) + frr_lines(
        s.frr_service_active,
        s.frr,
    ).push(""@) + unit_lines(s.sync_units).push(""@) + image_lines(s.bootc_status)
}

fn memory_text(memory: &Option<MemInfo>) -> (r: String)
    ensures
        r@ == memory_line(*memory),
{
    match memory {
        Some(m) => {
            let used = fmt_bytes(m.used);
            let total = fmt_bytes(m.total);
            let available = fmt_bytes(m.available);
            let mut out = cat5(
                "  Memory: ",
                used.as_str(),
                " used / ",
                total.as_str(),
                " total (",
            );
            out.append(available.as_str());
            out.append(" available)");
            out
        },
        None => "  Memory: unknown".to_owned(),
    }
}

fn disk_text(disk: &Option<DiskInfo>) -> (r: String)
    ensures
        r@ == disk_line(*disk),
{
    match disk {
        Some(d) => {
            let used = fmt_bytes(d.used);
            let total = fmt_bytes(d.total);
            let percent = number(d.percent_used as u128);
            let mut out = cat5(
                "  Disk (/): ",
                used.as_str(),
                " used / ",
                total.as_str(),
                " total (",
            );
            out.append(percent.as_str());
            out.append("% used)");
            out
        },
        None => "  Disk (/): unknown".to_owned(),
    }
}

fn system_texts(s: &Snapshot) -> (r: Vec<String>)
    ensures
        texts(r@) == system_lines(s@),
{
    let cpus = number(s.cpu_count as u128);
    let out = vec![
        cat4("frr-bootc - ", s.hostname.as_str(), " - ", s.now.as_str()),
        cat("  Uptime: ", s.uptime.as_str()),
        "".to_owned(),
        "System".to_owned(),
        cat5(
            "  Load average (1/5/15m): ",
            s.load_average.as_str(),
            "   (",
            cpus.as_str(),
            " CPUs)",
        ),
        memory_text(&s.memory),
        disk_text(&s.disk),
        "".to_owned(),
    ];
    proof {
        assert(texts(out@) =~= system_lines(s@));
    }
    out
}

fn interface_text(i: &Interface) -> (r: String)
    ensures
        r@ == interface_line(i@),
{
    let name = pad(i.name.as_str(), 16);
    let state = pad(if i.up { "UP" } else { "DOWN" }, 9);
    let rate = match i.rate {
        Some(rate) => throughput_text(rate),
        None => "throughput: -".to_owned(),
    };
    let mut out = cat5("  ", name.as_str(), " ", state.as_str(), " ");
    out.append(rate.as_str());
    out
}

fn interface_texts(v: &Vec<Interface>) -> (r: Vec<String>)
    ensures
        texts(r@) == interface_lines(interface_views(v@)),
{
    let mut out = vec!["Network Interfaces".to_owned()];
    let mut k: usize = 0;
    let ghost all = interface_views(v@);
    proof {
        assert(texts(out@) =~= interface_lines(all.take(0)));
    }
    while k < v.len()
        invariant
            k <= v.len(),
            all == interface_views(v@),
            texts(out@) == interface_lines(all.take(k as int)),
        decreases v.len() - k,
    {
        let i = &v[k];
        proof {
            assert(all.take(k + 1).drop_last() =~= all.take(k as int));
            assert(all.take(k + 1).last() == i@);
        }
        let line = interface_text(i);
        proof {
            lemma_texts_push(out@, line);
        }
        out.push(line);
        if i.addrs.len() > 0 {
            let margin = pad("", 16);
            let addrs = join(&i.addrs, " ");
            let line = cat4("  ", margin.as_str(), " ", addrs.as_str());
            proof {
                lemma_texts_push(out@, line);
            }
            out.push(line);
        }
        k += 1;
    }
    proof {
        assert(all.take(k as int) =~= all);
    }
    out
}

fn frr_texts(active: bool, f: &FrrStatus) -> (r: Vec<String>)
    ensures
        texts(r@) == frr_lines(active, f@),
{
    let mut out = vec![
        "FRR".to_owned(),
        cat("  frr.service: ", if active { "active" } else { "inactive" }),
    ];
    if !active {
        proof {
            assert(texts(out@) =~= frr_lines(active, f@));
        }
        return out;
    }
    if f.daemons.unicode_len() > 0 {
        out.push(cat("  Active daemons: ", f.daemons.as_str()));
    }
    match &f.route_summary {
        Some(routes) => {
            out.push(cat("  IPv4 RIB: ", routes.as_str()));
        },
        None => {},
    }
    if f.bgp_vrf_peers.len() > 0 {
        out.push("  BGP peers (per VRF):".to_owned());
        let ghost before = texts(out@);
        let ghost all = count_views(f.bgp_vrf_peers@);
        let mut k: usize = 0;
        while k < f.bgp_vrf_peers.len()
            invariant
                k <= f.bgp_vrf_peers.len(),
                all == count_views(f.bgp_vrf_peers@),
                texts(out@) =~= before + Seq::new(k as nat, |i: int| vrf_line(all[i])),
            decreases f.bgp_vrf_peers.len() - k,
        {
            let name = pad(f.bgp_vrf_peers[k].0.as_str(), 20);
            let count = peers(f.bgp_vrf_peers[k].1, f.bgp_vrf_peers[k].2);
            let line = cat4("    ", name.as_str(), " ", count.as_str());
            proof {
                lemma_texts_push(out@, line);
                assert(line@ == vrf_line(all[k as int]));
            }
            out.push(line);
            k += 1;
        }
    }
    proof {
        assert(texts(out@) =~= frr_lines(active, f@));
    }
    out
}

fn unit_text(u: &SyncUnit) -> (r: String)
    ensures
        r@ == unit_line(u@),
{
    let label = pad(u.label, 24);
    let text = match u.health {
        SyncHealth::Failed => cat3("FAILED (see: journalctl -u ", u.service, ")"),
        SyncHealth::TimerNotActive => "timer not active".to_owned(),
        SyncHealth::Healthy => "ok".to_owned(),
    };
    cat4("  ", label.as_str(), " ", text.as_str())
}

fn unit_texts(v: &Vec<SyncUnit>) -> (r: Vec<String>)
    ensures
        texts(r@) == unit_lines(unit_views(v@)),
{
    let mut out = vec!["Sync Services".to_owned()];
    let mut k: usize = 0;
    while k < v.len()
        invariant
            k <= v.len(),
            texts(out@) =~= unit_lines(unit_views(v@).take(k as int)),
        decreases v.len() - k,
    {
        let line = unit_text(&v[k]);
        proof {
            lemma_texts_push(out@, line);
        }
        out.push(line);
        k += 1;
    }
    proof {
        assert(unit_views(v@).take(k as int) =~= unit_views(v@));
    }
    out
}

fn image_texts(status: &Option<String>) -> (r: Vec<String>)
    ensures
        texts(r@) == image_lines(crate::frr::optional(*status)),
{
    match status {
        Some(s) => {
            let all = lines(s.as_str());
            let mut out = vec!["System Image (bootc)".to_owned()];
            let mut k: usize = 0;
            while k < all.len()
                invariant
                    k <= all.len(),
                    texts(all@) == lines_of(s@),
                    texts(out@) =~= seq!["System Image (bootc)"@] + Seq::new(
                        k as nat,
                        |i: int| "  "@ + lines_of(s@)[i],
                    ),
                decreases all.len() - k,
            {
                let line = cat("  ", all[k].as_str());
                proof {
                    lemma_texts_push(out@, line);
                    assert(all@[k as int]@ == texts(all@)[k as int]);
                }
                out.push(line);
                k += 1;
            }
            proof {
                assert(texts(all@).len() == all.len());
            }
            out
        },
        None => {
            let out: Vec<String> = Vec::new();
            proof {
                assert(texts(out@) =~= seq![]);
            }
            out
        },
    }
}

/// The lines of a snapshot, to be printed one under the other.
pub fn print_plain(snap: &Snapshot) -> (r: Vec<String>)
    ensures
        texts(r@) == plain_lines(snap@),
{
    let mut out = system_texts(snap);
    let mut interfaces = interface_texts(&snap.interfaces);
    interfaces.push("".to_owned());
    let mut frr = frr_texts(snap.frr_service_active, &snap.frr);
    frr.push("".to_owned());
    let mut units = unit_texts(&snap.sync_units);
    units.push("".to_owned());
    let mut image = image_texts(&snap.bootc_status);
    let ghost (a, b, c, d, e) = (out@, interfaces@, frr@, units@, image@);
    out.append(&mut interfaces);
    out.append(&mut frr);
    out.append(&mut units);
    out.append(&mut image);
    proof {
        assert(texts(out@) =~= texts(a) + texts(b) + texts(c) + texts(d) + texts(e));
        assert(texts(b) =~= interface_lines(snap@.interfaces).push(""@));
        assert(texts(c) =~= frr_lines(snap@.frr_service_active, snap@.frr).push(""@));
        assert(texts(d) =~= unit_lines(snap@.sync_units).push(""@));
    }
    out
}

// ---------------------------------------------------------------------------
// Laws
// ---------------------------------------------------------------------------

proof fn lemma_interface_lines(v: Seq<InterfaceView>, i: int)
    requires
        0 <= i < v.len(),
    ensures
        interface_lines(v).contains(interface_line(v[i])),
        v[i].addrs.len() > 0 ==> interface_lines(v).contains(address_line(v[i])),
    decreases v.len(),
{
    let before = interface_lines(v.drop_last());
    let all = interface_lines(v);
    let n = before.len() as int;
    if i == v.len() - 1 {
        assert(all[n] == interface_line(v[i]));
        if v[i].addrs.len() > 0 {
            assert(all[n + 1] == address_line(v[i]));
        }
    } else {
        lemma_interface_lines(v.drop_last(), i);
        assert(v.drop_last()[i] == v[i]);
        assert(all.take(n) =~= before);
        let a = choose|a: int| 0 <= a < n && before[a] == interface_line(v[i]);
        assert(all[a] == before[a]);
        if v[i].addrs.len() > 0 {
            let b = choose|b: int| 0 <= b < n && before[b] == address_line(v[i]);
            assert(all[b] == before[b]);
        }
    }
}

/// The text starts with who and when, how long, and how busy; it is the same
/// lines whatever else there is to tell.
pub proof fn law_text_starts_with_the_system(s: SnapshotView)
    ensures
        ({
            let t = plain_lines(s);
            &&& t.len() > 8
            &&& t[0] == "frr-bootc - "@ + s.hostname + " - "@ + s.now
            &&& t[1] == "  Uptime: "@ + s.uptime
            &&& t[2] == ""@ && t[3] == "System"@ && t[7] == ""@
            &&& t[4] == "  Load average (1/5/15m): "@ + s.load_average + "   ("@ + decimal(
                s.cpu_count,
            ) + " CPUs)"@
            &&& s.memory is None ==> t[5] == "  Memory: unknown"@
            &&& s.memory is Some ==> t[5] == "  Memory: "@ + bytes_text(s.memory->0.used)
                + " used / "@ + bytes_text(s.memory->0.total) + " total ("@ + bytes_text(
                s.memory->0.available,
            ) + " available)"@
            &&& s.disk is None ==> t[6] == "  Disk (/): unknown"@
            &&& s.disk is Some ==> t[6] == "  Disk (/): "@ + bytes_text(s.disk->0.used)
                + " used / "@ + bytes_text(s.disk->0.total) + " total ("@ + decimal(
                s.disk->0.percent_used as nat,
            ) + "% used)"@
        }),
{
    lemma_text_parts(s);
}

/// The text is its five sections in order, with an empty line after each but
/// the last.
proof fn lemma_text_parts(s: SnapshotView)
    ensures
        ({
            let n = interface_lines(s.interfaces).len();
            let f = frr_lines(s.frr_service_active, s.frr).len();
            let t = plain_lines(s);
            &&& t.len() == 8 + n + 1 + f + 1 + (s.sync_units.len() + 1) + 1 + image_lines(
                s.bootc_status,
            ).len()
            &&& forall|k: int| 0 <= k < 8 ==> #[trigger] t[k] == system_lines(s)[k]
            &&& forall|k: int|
                0 <= k < n ==> t[8 + k] == #[trigger] interface_lines(s.interfaces)[k]
            &&& forall|k: int|
                0 <= k < f ==> t[9 + n + k] == #[trigger] frr_lines(s.frr_service_active, s.frr)[k]
            &&& forall|k: int|
                0 <= k < s.sync_units.len() ==> t[11 + n + f + k] == unit_line(
                    #[trigger] s.sync_units[k],
                )
            &&& forall|k: int|
                0 <= k < image_lines(s.bootc_status).len() ==> t[12 + n + f + s.sync_units.len()
                    + k] == #[trigger] image_lines(s.bootc_status)[k]
        }),
{
}

/// The text tells of every interface: its name, whether it is up and how fast
/// it is. If it has addresses, they follow on a line whose words they are.
pub proof fn law_text_tells_every_interface(s: SnapshotView, i: int)
    requires
        0 <= i < s.interfaces.len(),
        forall|k: int|
            0 <= k < s.interfaces[i].addrs.len() ==> (#[trigger] s.interfaces[i].addrs[k]).len() > 0
                && none_white(s.interfaces[i].addrs[k]),
    ensures
        ({
            let one = s.interfaces[i];
            let state = if one.up {
                "UP"@
            } else {
                "DOWN"@
            };
            let speed = match one.rate {
                Some(rate) => "rx "@ + rate_text(rate.0) + " / tx "@ + rate_text(rate.1),
                None => "throughput: -"@,
            };
            &&& plain_lines(s).contains(
                "  "@ + padded(one.name, 16) + " "@ + padded(state, 9) + " "@ + speed,
            )
            &&& one.addrs.len() > 0 ==> exists|k: int|
                0 <= k < plain_lines(s).len() && words_of(#[trigger] plain_lines(s)[k])
                    == one.addrs
        }),
{
    let one = s.interfaces[i];
    let lines = interface_lines(s.interfaces);
    lemma_text_parts(s);
    lemma_interface_lines(s.interfaces, i);
    let a = choose|a: int| 0 <= a < lines.len() && lines[a] == interface_line(one);
    assert(plain_lines(s)[8 + a] == lines[a]);
    if one.addrs.len() > 0 {
        let b = choose|b: int| 0 <= b < lines.len() && lines[b] == address_line(one);
        assert(plain_lines(s)[8 + b] == lines[b]);
        reveal_strlit("  ");
        reveal_strlit(" ");
        reveal_strlit("");
        let lead = "  "@ + padded(""@, 16) + " "@;
        law_white_space(' ');
        assert forall|k: int| 0 <= k < lead.len() implies is_white(#[trigger] lead[k]) by {
            assert(lead[k] == ' ');
        }
        law_white_space_in_front_is_no_word(lead, one.addrs);
    }
}

/// The text tells of every VRF while FRR runs: its name, and how many of its
/// peers are established.
pub proof fn law_text_tells_every_vrf(s: SnapshotView, i: int)
    requires
        s.frr_service_active,
        0 <= i < s.frr.bgp_vrf_peers.len(),
    ensures
        ({
            let c = s.frr.bgp_vrf_peers[i];
            plain_lines(s).contains(
                "    "@ + padded(c.0, 20) + " "@ + (decimal(c.1 as nat) + "/"@ + decimal(c.2 as nat)
                    + " established"@),
            )
        }),
{
    lemma_text_parts(s);
    let lines = frr_lines(true, s.frr);
    let f = lines.len();
    let at = f - s.frr.bgp_vrf_peers.len() + i;
    assert(lines[at] == vrf_line(s.frr.bgp_vrf_peers[i]));
    assert(plain_lines(s)[9 + interface_lines(s.interfaces).len() + at] == lines[at]);
}

/// The text tells whether FRR's service runs and, while it does, its daemons
/// and its routes.
pub proof fn law_text_tells_of_frr(s: SnapshotView)
    ensures
        s.frr_service_active ==> plain_lines(s).contains("  frr.service: "@ + "active"@),
        !s.frr_service_active ==> plain_lines(s).contains("  frr.service: "@ + "inactive"@),
        s.frr_service_active && s.frr.daemons.len() > 0 ==> plain_lines(s).contains(
            "  Active daemons: "@ + s.frr.daemons,
        ),
        s.frr_service_active && s.frr.route_summary is Some ==> plain_lines(s).contains(
            "  IPv4 RIB: "@ + s.frr.route_summary->0,
        ),
{
    lemma_text_parts(s);
    let lines = frr_lines(s.frr_service_active, s.frr);
    let n = interface_lines(s.interfaces).len();
    assert(plain_lines(s)[9 + n + 1int] == lines[1]);
    if s.frr_service_active {
        let known: int = if s.frr.daemons.len() > 0 {
            1
        } else {
            0
        };
        if s.frr.daemons.len() > 0 {
            assert(plain_lines(s)[9 + n + 2int] == lines[2]);
        }
        if s.frr.route_summary is Some {
            assert(lines[2 + known] == "  IPv4 RIB: "@ + s.frr.route_summary->0);
            assert(plain_lines(s)[9 + n + (2 + known)] == lines[2 + known]);
        }
    }
}

/// The text tells of every sync service: its label and how it fares.
pub proof fn law_text_tells_every_unit(s: SnapshotView, i: int)
    requires
        0 <= i < s.sync_units.len(),
    ensures
        ({
            let u = s.sync_units[i];
            let head = "  "@ + padded(u.label, 24) + " "@;
            &&& u.health == SyncHealth::Healthy ==> plain_lines(s).contains(head + "ok"@)
            &&& u.health == SyncHealth::TimerNotActive ==> plain_lines(s).contains(
                head + "timer not active"@,
            )
            &&& u.health == SyncHealth::Failed ==> plain_lines(s).contains(
                head + ("FAILED (see: journalctl -u "@ + u.service + ")"@),
            )
        }),
{
    lemma_text_parts(s);
    let n = interface_lines(s.interfaces).len();
    let f = frr_lines(s.frr_service_active, s.frr).len();
    let u = s.sync_units[i];
    assert(plain_lines(s)[11 + n + f + i] == unit_line(u));
}

/// The text ends with every line of the image's status, each indented by two
/// spaces, if the status is known.
pub proof fn law_text_tells_the_image(s: SnapshotView, status: Seq<char>, i: int)
    requires
        s.bootc_status == Some(status),
        0 <= i < lines_of(status).len(),
    ensures
        ({
            let t = plain_lines(s);
            let k = t.len() - lines_of(status).len();
            &&& t[k - 1] == "System Image (bootc)"@
            &&& t[k + i] == "  "@ + lines_of(status)[i]
        }),
{
    lemma_text_parts(s);
    let t = plain_lines(s);
    let n = interface_lines(s.interfaces).len();
    let f = frr_lines(s.frr_service_active, s.frr).len();
    let base = 12 + n + f + s.sync_units.len();
    assert(t[base + 0int] == image_lines(s.bootc_status)[0]);
    assert(t[base + (i + 1)] == image_lines(s.bootc_status)[i + 1]);
}

} // verus!
