//! One dashboard's worth of data.

use vstd::prelude::*;
use crate::frr;
use crate::frr::{
    countable, optional, peers_countable, status_of, BgpVrf, FrrStatus, FrrView, RouteSummary,
};
use crate::net::{
    interface_names, interface_views, interfaces_after, listed, remembered_after, Interface,
    InterfaceView, Sample, ThroughputSampler,
};
use crate::outside::{from_utf8_lossy, utf8_lossy};
use crate::process::{output_decodes, printed, stdout_or_empty, CommandOutput};
use crate::system::{
    at_most, cpu_count, cpus_of, disk_fits, disk_of, disk_usage, host_decodes, host_of, hostname, keep_first, load_average,
    mem_fits, mem_of, memory, memory_fits, now_local, uptime, uptime_text, DiskInfo, FileSystem, MemInfo,
};
use crate::systemd::{health_of, sync_health, SyncHealth};
use crate::text::{
    join, join_of, law_joined_words_are_had_back, lines, lines_of, none_white, texts, trim_of,
    words_of,
};

verus! {

/// A service that keeps the system in sync, and how it is doing.
pub struct SyncUnit {
    pub label: &'static str,
    pub service: &'static str,
    pub health: SyncHealth,
}

/// A sync service as a mathematical value.
pub struct SyncUnitView {
    pub label: Seq<char>,
    pub service: Seq<char>,
    pub health: SyncHealth,
}

impl View for SyncUnit {
    type V = SyncUnitView;

    open spec fn view(&self) -> SyncUnitView {
        SyncUnitView { label: self.label@, service: self.service@, health: self.health }
    }
}

/// Sync services as mathematical values.
pub open spec fn unit_views(v: Seq<SyncUnit>) -> Seq<SyncUnitView> {
    Seq::new(v.len(), |i: int| v[i]@)
}

/// Everything that the dashboard shows.
pub struct Snapshot {
    pub hostname: String,
    pub now: String,
    pub uptime: String,
    pub load_average: String,
    pub cpu_count: usize,
    pub memory: Option<MemInfo>,
    pub disk: Option<DiskInfo>,
    pub interfaces: Vec<Interface>,
    pub frr_service_active: bool,
    pub frr: FrrStatus,
    pub sync_units: Vec<SyncUnit>,
    pub bootc_status: Option<String>,
}

/// A snapshot as a mathematical value.
pub struct SnapshotView {
    pub hostname: Seq<char>,
    pub now: Seq<char>,
    pub uptime: Seq<char>,
    pub load_average: Seq<char>,
    pub cpu_count: nat,
    pub memory: Option<MemInfo>,
    pub disk: Option<DiskInfo>,
    pub interfaces: Seq<InterfaceView>,
    pub frr_service_active: bool,
    pub frr: FrrView,
    pub sync_units: Seq<SyncUnitView>,
    pub bootc_status: Option<Seq<char>>,
}

impl View for Snapshot {
    type V = SnapshotView;

    open spec fn view(&self) -> SnapshotView {
        SnapshotView {
            hostname: self.hostname@,
            now: self.now@,
            uptime: self.uptime@,
            load_average: self.load_average@,
            cpu_count: self.cpu_count as nat,
            memory: self.memory,
            disk: self.disk,
            interfaces: interface_views(self.interfaces@),
            frr_service_active: self.frr_service_active,
            frr: self.frr@,
            sync_units: unit_views(self.sync_units@),
            bootc_status: optional(self.bootc_status),
        }
    }
}

/// A sync service by what it is called on the dashboard and by the units that
/// systemd knows.
#[derive(Clone, Copy)]
pub struct SyncUnitNames {
    pub label: &'static str,
    pub service: &'static str,
    pub timer: &'static str,
}

/// The configuration of FRR.
pub fn frr_config_sync() -> (r: SyncUnitNames)
    ensures
        r.label@ == "FRR config sync"@,
        r.service@ == "frr-config-sync.service"@,
        r.timer@ == "frr-config-sync.timer"@,
{
    SyncUnitNames {
        label: "FRR config sync",
        service: "frr-config-sync.service",
        timer: "frr-config-sync.timer",
    }
}

/// The configuration of the network.
pub fn network_config_sync() -> (r: SyncUnitNames)
    ensures
        r.label@ == "Network config sync"@,
        r.service@ == "network-config-sync.service"@,
        r.timer@ == "network-config-sync.timer"@,
{
    SyncUnitNames {
        label: "Network config sync",
        service: "network-config-sync.service",
        timer: "network-config-sync.timer",
    }
}

/// The image of the system.
pub fn bootc_image_sync() -> (r: SyncUnitNames)
    ensures
        r.label@ == "bootc image sync"@,
        r.service@ == "bootc-image-sync.service"@,
        r.timer@ == "bootc-image-sync.timer"@,
{
    SyncUnitNames {
        label: "bootc image sync",
        service: "bootc-image-sync.service",
        timer: "bootc-image-sync.timer",
    }
}

/// The exit status of `systemctl is-failed` for a service and of
/// `systemctl is-active` for its timer, `None` for a command that was not or
/// could not be run.
#[derive(Clone, Copy)]
pub struct UnitReading {
    pub service_failed: Option<bool>,
    pub timer_active: Option<bool>,
}

/// Everything that has to be read from the system for a snapshot.
pub struct Readings {
    /// Whether `frr.service` is active.
    pub frr_service_active: bool,
    /// The buffer that `gethostname` filled, if it succeeded.
    pub hostname: Option<Vec<u8>>,
    /// `date "+%Y-%m-%d %H:%M:%S %Z"`.
    pub date: Option<CommandOutput>,
    /// Whole seconds since boot.
    pub uptime_secs: u64,
    /// `/proc/loadavg`, empty if it could not be read.
    pub loadavg: String,
    /// `/proc/cpuinfo`.
    pub cpuinfo: Option<String>,
    /// `/proc/meminfo`.
    pub meminfo: Option<String>,
    /// `statvfs` of the root file system.
    pub root: Option<FileSystem>,
    /// `ip -brief addr show`.
    pub ip: Option<CommandOutput>,
    /// The counters of each interface that `ip` listed.
    pub counters: Vec<Option<Sample>>,
    /// `vtysh` asked for the daemons.
    pub daemons: Option<CommandOutput>,
    /// `vtysh` asked for the routes.
    pub routes: Option<RouteSummary>,
    /// `vtysh` asked for the BGP peers.
    pub vrfs: Option<Vec<BgpVrf>>,
    /// The units that keep the configuration of FRR, that of the network and
    /// the image of the system in sync.
    pub frr_config: UnitReading,
    pub network_config: UnitReading,
    pub bootc_image: UnitReading,
    /// `bootc status`.
    pub bootc: Option<CommandOutput>,
}

impl Readings {
    /// The numbers can be told and counted, and there is a reading of the
    /// counters for each interface.
    pub open spec fn wf(self) -> bool {
        &&& mem_fits(self.meminfo)
        &&& self.root matches Some(fs) ==> fs.fits()
        &&& countable(self.vrfs)
        &&& self.counters@.len() == listed(lines_of(printed(self.ip))).len()
    }
}

/// What `bootc status` printed, its first eight lines; nothing when it
/// failed.
pub open spec fn image_of(out: Option<CommandOutput>) -> Option<Seq<char>> {
    match out {
        Some(o) => if o.success {
            Some(join_of(at_most(lines_of(utf8_lossy(o.stdout@)), 8), "\n"@))
        } else {
            None
        },
        None => None,
    }
}

/// The first eight lines of `bootc status`.
pub fn bootc_status(out: &Option<CommandOutput>) -> (r: Option<String>)
    ensures
        optional(r) == image_of(*out),
        output_decodes(*out),
{
    match out {
        Some(o) => if o.success {
            let text = from_utf8_lossy(o.stdout.as_slice());
            Some(join(&keep_first(lines(text.as_str()), 8), "\n"))
        } else {
            None
        },
        None => None,
    }
}

/// Health of a unit, from its reading.
pub open spec fn unit_health(r: UnitReading) -> SyncHealth {
    health_of(r.service_failed == Some(true), r.timer_active == Some(true))
}

/// The three sync services and how they are doing.
pub open spec fn units_of(frr: UnitReading, network: UnitReading, image: UnitReading) -> Seq<
    SyncUnitView,
> {
    seq![
        SyncUnitView {
            label: "FRR config sync"@,
            service: "frr-config-sync.service"@,
            health: unit_health(frr),
        },
        SyncUnitView {
            label: "Network config sync"@,
            service: "network-config-sync.service"@,
            health: unit_health(network),
        },
        SyncUnitView {
            label: "bootc image sync"@,
            service: "bootc-image-sync.service"@,
            health: unit_health(image),
        },
    ]
}

fn unit(names: SyncUnitNames, r: &UnitReading) -> (u: SyncUnit)
    ensures
        u.label == names.label,
        u.service == names.service,
        u.health == unit_health(*r),
{
    SyncUnit {
        label: names.label,
        service: names.service,
        health: sync_health(r.service_failed, r.timer_active),
    }
}

/// The snapshot that some readings give, the sampler having seen `prev`
/// before.
pub open spec fn snapshot_of(prev: Map<Seq<char>, Sample>, r: Readings) -> SnapshotView {
    SnapshotView {
        hostname: host_of(r.hostname),
        now: trim_of(printed(r.date)),
        uptime: uptime_text(r.uptime_secs),
        load_average: join_of(at_most(words_of(r.loadavg@), 3), " "@),
        cpu_count: cpus_of(r.cpuinfo),
        memory: mem_of(r.meminfo),
        disk: match r.root {
            Some(fs) => Some(disk_of(fs)),
            None => None,
        },
        interfaces: interfaces_after(prev, listed(lines_of(printed(r.ip))), r.counters@),
        frr_service_active: r.frr_service_active,
        frr: status_of(r.frr_service_active, printed(r.daemons), r.routes, r.vrfs),
        sync_units: units_of(r.frr_config, r.network_config, r.bootc_image),
        bootc_status: image_of(r.bootc),
    }
}

/// Whether what was read as bytes, if it is UTF-8, is made the text that it
/// encodes.
pub open spec fn readings_decode(r: Readings) -> bool {
    &&& host_decodes(r.hostname)
    &&& output_decodes(r.date)
    &&& output_decodes(r.ip)
    &&& output_decodes(r.daemons)
    &&& output_decodes(r.bootc)
}

/// Puts a snapshot together from what was read from the system.
pub fn gather(net: &mut ThroughputSampler, r: &Readings) -> (s: Snapshot)
    requires
        r.wf(),
    ensures
        readings_decode(*r),
        s@ == snapshot_of(old(net)@, *r),
        final(net)@ == remembered_after(
            old(net)@,
            listed(lines_of(printed(r.ip))),
            r.counters@,
            r.counters@.len(),
        ),
{
    let ip = stdout_or_empty(&r.ip);
    let daemons = stdout_or_empty(&r.daemons);
    let mut sync_units: Vec<SyncUnit> = Vec::new();
    sync_units.push(unit(frr_config_sync(), &r.frr_config));
    sync_units.push(unit(network_config_sync(), &r.network_config));
    sync_units.push(unit(bootc_image_sync(), &r.bootc_image));
    proof {
        assert(unit_views(sync_units@) =~= units_of(r.frr_config, r.network_config, r.bootc_image));
    }
    Snapshot {
        hostname: hostname(&r.hostname),
        now: now_local(&r.date),
        uptime: uptime(r.uptime_secs),
        load_average: load_average(r.loadavg.as_str()),
        cpu_count: cpu_count(&r.cpuinfo),
        memory: memory(&r.meminfo),
        disk: disk_usage(&r.root),
        interfaces: net.list(ip.as_str(), &r.counters),
        frr_service_active: r.frr_service_active,
        frr: frr::gather(r.frr_service_active, daemons.as_str(), &r.routes, &r.vrfs),
        sync_units,
        bootc_status: bootc_status(&r.bootc),
    }
}

/// Whether some readings make a snapshot.
pub fn complete(r: &Readings) -> (ok: bool)
    ensures
        ok == r.wf(),
{
    let ip = stdout_or_empty(&r.ip);
    let names = interface_names(ip.as_str());
    let disk = match &r.root {
        Some(fs) => disk_fits(fs),
        None => true,
    };
    proof {
        assert(texts(names@).len() == names.len());
    }
    memory_fits(&r.meminfo) && disk && peers_countable(&r.vrfs) && r.counters.len() == names.len()
}

/// Puts a snapshot together from what was read from the system, if that makes
/// one. Otherwise the sampler stays as it is.
pub fn gather_complete(net: &mut ThroughputSampler, r: &Readings) -> (s: Option<Snapshot>)
    ensures
        s is Some <==> r.wf(),
        s is Some ==> readings_decode(*r),
        s matches Some(snap) ==> snap@ == snapshot_of(old(net)@, *r) && final(net)@
            == remembered_after(
            old(net)@,
            listed(lines_of(printed(r.ip))),
            r.counters@,
            r.counters@.len(),
        ),
        s is None ==> final(net)@ == old(net)@,
{
    if complete(r) {
        Some(gather(net, r))
    } else {
        None
    }
}

// ---------------------------------------------------------------------------
// Laws
// ---------------------------------------------------------------------------

/// The three sync services are told in this order, each under its own label and
/// with the health that its own readings give: failed where `is-failed`
/// succeeded, without a timer where `is-active` did not.
pub proof fn law_units_are_told_apart(
    frr: UnitReading,
    network: UnitReading,
    image: UnitReading,
    i: int,
)
    requires
        0 <= i < 3,
    ensures
        ({
            let units = units_of(frr, network, image);
            let own = if i == 0 {
                frr
            } else if i == 1 {
                network
            } else {
                image
            };
            &&& units.len() == 3
            &&& units[0].label == "FRR config sync"@ && units[0].service
                == "frr-config-sync.service"@
            &&& units[1].label == "Network config sync"@ && units[1].service
                == "network-config-sync.service"@
            &&& units[2].label == "bootc image sync"@ && units[2].service
                == "bootc-image-sync.service"@
            &&& units[i].health == SyncHealth::Failed <==> own.service_failed == Some(true)
            &&& units[i].health == SyncHealth::Healthy <==> own.service_failed != Some(true)
                && own.timer_active == Some(true)
            &&& units[i].health == SyncHealth::TimerNotActive <==> own.service_failed != Some(true)
                && own.timer_active != Some(true)
        }),
{
}

/// Of the image's status the first eight lines are kept, one below the other,
/// and nothing of it unless the command succeeded.
pub proof fn law_image_is_cut_to_eight_lines(out: CommandOutput)
    ensures
        ({
            let all = lines_of(utf8_lossy(out.stdout@));
            &&& out.success && all.len() <= 8 ==> image_of(Some(out)) == Some(join_of(all, "\n"@))
            &&& out.success && all.len() > 8 ==> image_of(Some(out)) == Some(
                join_of(all.take(8), "\n"@),
            )
            &&& !out.success ==> image_of(Some(out)) is None
        }),
        image_of(None) is None,
{
}

/// Every reading shows where it belongs: the load is the first three words of
/// its reading, the time is that of `date` without white space around it, and
/// FRR's state is asked of nothing but its own readings.
pub proof fn law_readings_show_where_they_belong(
    prev: Map<Seq<char>, Sample>,
    r: Readings,
    load: Seq<Seq<char>>,
)
    requires
        r.loadavg@ == join_of(load, " "@),
        forall|i: int|
            0 <= i < load.len() ==> (#[trigger] load[i]).len() > 0 && none_white(load[i]),
    ensures
        ({
            let s = snapshot_of(prev, r);
            let l = listed(lines_of(printed(r.ip)));
            &&& load.len() >= 3 ==> s.load_average == join_of(load.take(3), " "@)
            &&& load.len() < 3 ==> s.load_average == join_of(load, " "@)
            &&& s.hostname == host_of(r.hostname)
            &&& s.now == trim_of(printed(r.date))
            &&& s.uptime == uptime_text(r.uptime_secs)
            &&& s.cpu_count == cpus_of(r.cpuinfo)
            &&& s.memory == mem_of(r.meminfo)
            &&& s.disk is Some <==> r.root is Some
            &&& r.root matches Some(fs) ==> s.disk == Some(disk_of(fs))
            &&& s.interfaces.len() == l.len()
            &&& forall|i: int|
                0 <= i < l.len() ==> (#[trigger] s.interfaces[i]).name == l[i].name
                    && s.interfaces[i].up == l[i].up && s.interfaces[i].addrs == l[i].addrs
            &&& s.frr_service_active == r.frr_service_active
            &&& s.frr == status_of(r.frr_service_active, printed(r.daemons), r.routes, r.vrfs)
            &&& s.bootc_status == image_of(r.bootc)
            &&& s.sync_units == units_of(r.frr_config, r.network_config, r.bootc_image)
        }),
{
    law_joined_words_are_had_back(load);
    if load.len() == 3 {
        assert(load.take(3) =~= load);
    }
}

} // verus!
