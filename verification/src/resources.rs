//! System resource sampling: which sections a snapshot covers, when each
//! costly section is sampled again, and the integer bookkeeping of memory,
//! disk and network figures.  Monotonic instants are nanoseconds since an
//! origin the caller fixes.
use vstd::prelude::*;

verus! {

/// How long a costly section (address, processes, disks, GPU) stays fresh.
pub const EXPENSIVE_REFRESH_INTERVAL_NANOS: u64 = 8_000_000_000;

/// How long the network figures stay fresh.
pub const NETWORK_REFRESH_INTERVAL_NANOS: u64 = 1_000_000_000;

/// The sections a caller asks for; unset fields take their defaults.
pub struct SystemResourceSnapshotOptions {
    pub full_detail: Option<bool>,
    pub system: Option<bool>,
    pub cpu: Option<bool>,
    pub memory: Option<bool>,
    pub network: Option<bool>,
    pub disk: Option<bool>,
    pub gpu: Option<bool>,
    pub processes: Option<bool>,
}

/// The sections a snapshot covers.
#[derive(Clone, Copy)]
pub struct SamplingOptions {
    pub system: bool,
    pub cpu: bool,
    pub memory: bool,
    pub network: bool,
    pub disk: bool,
    pub gpu: bool,
    pub processes: bool,
}

/// Memory figures, in bytes.
pub struct MemorySnapshot {
    pub total_bytes: u64,
    pub used_bytes: u64,
    pub available_bytes: u64,
    pub cached_bytes: u64,
    pub free_bytes: u64,
}

/// Network figures: rates since the previous sample, cumulative totals,
/// and the part of the totals counted today.
pub struct NetworkSnapshot {
    pub upload_bytes_per_sec: u64,
    pub download_bytes_per_sec: u64,
    pub total_uploaded_bytes: u64,
    pub total_downloaded_bytes: u64,
    pub today_uploaded_bytes: u64,
    pub today_downloaded_bytes: u64,
}

/// One mounted disk.
pub struct DiskSnapshot {
    pub name: String,
    pub mount_point: String,
    pub file_system: String,
    pub total_bytes: u64,
    pub available_bytes: u64,
    pub used_bytes: u64,
    pub read_bytes_per_sec: u64,
    pub write_bytes_per_sec: u64,
}

/// A calendar day in the local time zone.
#[derive(Clone, Copy, PartialEq, Eq, Structural)]
pub struct CalendarDay {
    pub year: i32,
    pub month: u32,
    pub day: u32,
}

/// The cumulative network totals seen first on a day; today's figures are
/// counted from them.
#[derive(Clone, Copy)]
pub struct NetworkDailyBaseline {
    pub day: CalendarDay,
    pub total_uploaded_bytes: u64,
    pub total_downloaded_bytes: u64,
}

/// The counters of one network interface.
#[derive(Clone, Copy)]
pub struct InterfaceCounters {
    pub received: u64,
    pub transmitted: u64,
    pub total_received: u64,
    pub total_transmitted: u64,
}

/// When each costly section was last sampled, and today's network baseline.
pub struct RefreshSchedule {
    pub last_system_refresh: Option<u64>,
    pub last_network_refresh: Option<u64>,
    pub last_disk_refresh: Option<u64>,
    pub last_gpu_refresh: Option<u64>,
    pub last_process_refresh: Option<u64>,
    pub network_daily_baseline: Option<NetworkDailyBaseline>,
}

/// What one snapshot samples afresh.
pub struct SnapshotPlan {
    pub refresh_cpu: bool,
    pub refresh_memory: bool,
    pub refresh_ip_address: bool,
    pub refresh_processes: bool,
    pub refresh_disks: bool,
    /// Time since the previous disk sample, when there was one.
    pub disk_elapsed_nanos: Option<u64>,
    pub refresh_network: bool,
    /// Time since the previous network sample, when there was one.
    pub network_elapsed_nanos: Option<u64>,
    pub refresh_gpu: bool,
}

/// The choice when given, else the default.
pub open spec fn pick(choice: Option<bool>, default: bool) -> bool {
    match choice {
        Some(b) => b,
        None => default,
    }
}

/// Whether the optional extra sections are on by default: the options'
/// own `full_detail`, else the separate argument, else on.
pub open spec fn extras_by_default(
    full_detail: Option<bool>,
    options: Option<SystemResourceSnapshotOptions>,
) -> bool {
    match options {
        Some(o) => match o.full_detail {
            Some(b) => b,
            None => pick(full_detail, true),
        },
        None => pick(full_detail, true),
    }
}

/// The field of the options chosen by `f`, when options were given.
pub open spec fn option_field(
    options: Option<SystemResourceSnapshotOptions>,
    f: spec_fn(SystemResourceSnapshotOptions) -> Option<bool>,
) -> Option<bool> {
    match options {
        Some(o) => f(o),
        None => None,
    }
}

/// Time from `last` to `now`, zero when `now` is earlier.
pub open spec fn elapsed(last: u64, now: u64) -> u64 {
    if now >= last {
        (now - last) as u64
    } else {
        0
    }
}

/// Whether a section last sampled at `last` is due at `now`.
pub open spec fn is_due(last: Option<u64>, now: u64, interval: u64) -> bool {
    match last {
        None => true,
        Some(l) => elapsed(l, now) >= interval,
    }
}

/// `now` when the section is sampled, the previous time otherwise.
pub open spec fn stamp(sampled: bool, last: Option<u64>, now: u64) -> Option<u64> {
    if sampled {
        Some(now)
    } else {
        last
    }
}

/// One planning step: what `plan` samples under `options` at `now`, and
/// the schedule afterwards.
pub open spec fn plan_step(
    before: RefreshSchedule,
    options: SamplingOptions,
    now: u64,
    no_cached_disks: bool,
    no_cached_processes: bool,
    after: RefreshSchedule,
    plan: SnapshotPlan,
) -> bool {
    let ip = options.system && is_due(before.last_system_refresh, now, EXPENSIVE_REFRESH_INTERVAL_NANOS);
    let procs = options.processes && (no_cached_processes || is_due(
        before.last_process_refresh,
        now,
        EXPENSIVE_REFRESH_INTERVAL_NANOS,
    ));
    let disks = options.disk && (no_cached_disks || is_due(
        before.last_disk_refresh,
        now,
        EXPENSIVE_REFRESH_INTERVAL_NANOS,
    ));
    let net = options.network && is_due(before.last_network_refresh, now, NETWORK_REFRESH_INTERVAL_NANOS);
    let gpu = options.gpu && is_due(before.last_gpu_refresh, now, EXPENSIVE_REFRESH_INTERVAL_NANOS);
    &&& plan.refresh_cpu == options.cpu
    &&& plan.refresh_memory == options.memory
    &&& plan.refresh_ip_address == ip
    &&& plan.refresh_processes == procs
    &&& plan.refresh_disks == disks
    &&& plan.disk_elapsed_nanos == (if disks {
        match before.last_disk_refresh {
            Some(l) => Some(elapsed(l, now)),
            None => None,
        }
    } else {
        None
    })
    &&& plan.refresh_network == net
    &&& plan.network_elapsed_nanos == (if net {
        match before.last_network_refresh {
            Some(l) => Some(elapsed(l, now)),
            None => None,
        }
    } else {
        None
    })
    &&& plan.refresh_gpu == gpu
    &&& after.last_system_refresh == stamp(ip, before.last_system_refresh, now)
    &&& after.last_process_refresh == stamp(procs, before.last_process_refresh, now)
    &&& after.last_disk_refresh == stamp(disks, before.last_disk_refresh, now)
    &&& after.last_network_refresh == stamp(net, before.last_network_refresh, now)
    &&& after.last_gpu_refresh == stamp(gpu, before.last_gpu_refresh, now)
    &&& after.network_daily_baseline == before.network_daily_baseline
}

/// Whether the day's baseline stays: same day, and neither counter went down.
pub open spec fn baseline_holds(
    baseline: Option<NetworkDailyBaseline>,
    day: CalendarDay,
    total_uploaded_bytes: u64,
    total_downloaded_bytes: u64,
) -> bool {
    match baseline {
        Some(b) => b.day == day && total_uploaded_bytes >= b.total_uploaded_bytes
            && total_downloaded_bytes >= b.total_downloaded_bytes,
        None => false,
    }
}

/// One step of today's network accounting: the baseline is kept while it
/// holds, and today's figures are the growth since it; otherwise the current
/// totals become the new baseline and today's figures start at zero.
pub open spec fn daily_totals_step(
    before: Option<NetworkDailyBaseline>,
    day: CalendarDay,
    total_uploaded_bytes: u64,
    total_downloaded_bytes: u64,
    after: Option<NetworkDailyBaseline>,
    today: (u64, u64),
) -> bool {
    if baseline_holds(before, day, total_uploaded_bytes, total_downloaded_bytes) {
        &&& after == before
        &&& today.0 == total_uploaded_bytes - before->Some_0.total_uploaded_bytes
        &&& today.1 == total_downloaded_bytes - before->Some_0.total_downloaded_bytes
    } else {
        &&& after == Some(
            NetworkDailyBaseline { day, total_uploaded_bytes, total_downloaded_bytes },
        )
        &&& today == (0u64, 0u64)
    }
}

/// The sum of a list of counters, as an unbounded integer.
pub open spec fn total_of(s: Seq<u64>) -> int
    decreases s.len(),
{
    if s.len() == 0 {
        0
    } else {
        total_of(s.drop_last()) + s.last()
    }
}

/// A sum of counters capped at `u64::MAX` (what saturating additions give).
pub open spec fn capped_total(s: Seq<u64>) -> u64 {
    if total_of(s) > u64::MAX {
        u64::MAX
    } else {
        total_of(s) as u64
    }
}

/// The counters of the interfaces, one field at a time.
pub open spec fn received_of(s: Seq<InterfaceCounters>) -> Seq<u64> {
    s.map_values(|c: InterfaceCounters| c.received)
}

pub open spec fn transmitted_of(s: Seq<InterfaceCounters>) -> Seq<u64> {
    s.map_values(|c: InterfaceCounters| c.transmitted)
}

pub open spec fn total_received_of(s: Seq<InterfaceCounters>) -> Seq<u64> {
    s.map_values(|c: InterfaceCounters| c.total_received)
}

pub open spec fn total_transmitted_of(s: Seq<InterfaceCounters>) -> Seq<u64> {
    s.map_values(|c: InterfaceCounters| c.total_transmitted)
}

/// The memory figures made from the system's counters: used, available
/// and free capped at the total, cached what remains of the total after
/// used and free (zero when nothing remains).
pub open spec fn counted_memory(total: u64, used: u64, available: u64, free: u64) -> MemorySnapshot {
    let u = min_u64(used, total);
    let f = min_u64(free, total);
    MemorySnapshot {
        total_bytes: total,
        used_bytes: u,
        available_bytes: min_u64(available, total),
        cached_bytes: if u + f > total {
            0
        } else {
            (total - u - f) as u64
        },
        free_bytes: f,
    }
}

/// `min(a, b)` over `u64`.
pub open spec fn min_u64(a: u64, b: u64) -> u64 {
    if a < b {
        a
    } else {
        b
    }
}

/// Today's figures never exceed the cumulative totals they are counted in.
pub proof fn lemma_daily_totals_within_totals(
    before: Option<NetworkDailyBaseline>,
    day: CalendarDay,
    total_uploaded_bytes: u64,
    total_downloaded_bytes: u64,
    after: Option<NetworkDailyBaseline>,
    today: (u64, u64),
)
    requires
        daily_totals_step(before, day, total_uploaded_bytes, total_downloaded_bytes, after, today),
    ensures
        today.0 <= total_uploaded_bytes,
        today.1 <= total_downloaded_bytes,
        after matches Some(b) && b.day == day,
{
}

/// Within one day, while the counters only grow, today's figures grow by
/// exactly what the counters grew between two samples.
pub proof fn lemma_daily_totals_accumulate(
    b0: Option<NetworkDailyBaseline>,
    day: CalendarDay,
    up1: u64,
    down1: u64,
    b1: Option<NetworkDailyBaseline>,
    today1: (u64, u64),
    up2: u64,
    down2: u64,
    b2: Option<NetworkDailyBaseline>,
    today2: (u64, u64),
)
    requires
        daily_totals_step(b0, day, up1, down1, b1, today1),
        daily_totals_step(b1, day, up2, down2, b2, today2),
        up1 <= up2,
        down1 <= down2,
    ensures
        today2.0 == today1.0 + (up2 - up1),
        today2.1 == today1.1 + (down2 - down1),
        b2 == b1,
{
}

/// On a new day, or when a counter went down (an interface reset), today's
/// figures start again from zero.
pub proof fn lemma_daily_totals_reset(
    before: Option<NetworkDailyBaseline>,
    day: CalendarDay,
    total_uploaded_bytes: u64,
    total_downloaded_bytes: u64,
    after: Option<NetworkDailyBaseline>,
    today: (u64, u64),
)
    requires
        daily_totals_step(before, day, total_uploaded_bytes, total_downloaded_bytes, after, today),
        before matches Some(b) && (b.day != day || total_uploaded_bytes < b.total_uploaded_bytes
            || total_downloaded_bytes < b.total_downloaded_bytes),
    ensures
        today == (0u64, 0u64),
{
}

/// A costly section sampled by one snapshot is not sampled again by a later
/// snapshot within the refresh interval, unless its cache was empty.
pub proof fn lemma_costly_sections_not_resampled_early(
    s0: RefreshSchedule,
    o1: SamplingOptions,
    t1: u64,
    nd1: bool,
    np1: bool,
    s1: RefreshSchedule,
    p1: SnapshotPlan,
    o2: SamplingOptions,
    t2: u64,
    nd2: bool,
    np2: bool,
    s2: RefreshSchedule,
    p2: SnapshotPlan,
)
    requires
        plan_step(s0, o1, t1, nd1, np1, s1, p1),
        plan_step(s1, o2, t2, nd2, np2, s2, p2),
        t1 <= t2 < t1 + EXPENSIVE_REFRESH_INTERVAL_NANOS,
    ensures
        p1.refresh_ip_address ==> !p2.refresh_ip_address,
        p1.refresh_gpu ==> !p2.refresh_gpu,
        p1.refresh_disks && !nd2 ==> !p2.refresh_disks,
        p1.refresh_processes && !np2 ==> !p2.refresh_processes,
        p1.refresh_network && t2 < t1 + NETWORK_REFRESH_INTERVAL_NANOS ==> !p2.refresh_network,
{
}

/// Every figure is within the total; used, free and cached memory account
/// for all of it whenever used and free do not already exceed it, and
/// nothing is counted as cached otherwise.
pub proof fn lemma_memory_parts_within_total(total: u64, used: u64, available: u64, free: u64)
    ensures
        ({
            let m = counted_memory(total, used, available, free);
            &&& m.used_bytes + m.free_bytes > total ==> m.cached_bytes == 0
            &&& m.used_bytes + m.free_bytes <= total ==> m.used_bytes + m.free_bytes
                + m.cached_bytes == total
            &&& m.used_bytes <= total && m.free_bytes <= total && m.available_bytes <= total
        }),
{
}

/// The sections that `from_args` chooses for these arguments.
pub open spec fn sampled_sections(
    full_detail: Option<bool>,
    options: Option<SystemResourceSnapshotOptions>,
    r: SamplingOptions,
) -> bool {
    &&& r.system == pick(option_field(options, |o: SystemResourceSnapshotOptions| o.system), true)
    &&& r.cpu == pick(option_field(options, |o: SystemResourceSnapshotOptions| o.cpu), true)
    &&& r.memory == pick(option_field(options, |o: SystemResourceSnapshotOptions| o.memory), true)
    &&& r.network == pick(
        option_field(options, |o: SystemResourceSnapshotOptions| o.network),
        extras_by_default(full_detail, options),
    )
    &&& r.disk == pick(
        option_field(options, |o: SystemResourceSnapshotOptions| o.disk),
        extras_by_default(full_detail, options),
    )
    &&& r.gpu == pick(
        option_field(options, |o: SystemResourceSnapshotOptions| o.gpu),
        extras_by_default(full_detail, options),
    )
    &&& r.processes == pick(
        option_field(options, |o: SystemResourceSnapshotOptions| o.processes),
        extras_by_default(full_detail, options),
    )
}

/// Which sections a snapshot covers: a section the options set is taken as
/// set; an unset system, CPU or memory section is on; an unset network,
/// disk, GPU or process section follows the full-detail setting, which is
/// the options' own `full_detail`, else the separate argument, else on.  In
/// particular, when neither says anything about full detail, every unset
/// section is on.
pub proof fn lemma_sections_follow_settings(
    full_detail: Option<bool>,
    options: Option<SystemResourceSnapshotOptions>,
    r: SamplingOptions,
)
    requires
        sampled_sections(full_detail, options, r),
    ensures
        ({
            let detail: Option<bool> = match options {
                Some(o) => if o.full_detail is Some {
                    o.full_detail
                } else {
                    full_detail
                },
                None => full_detail,
            };
            let extra = detail is None || detail == Some(true);
            match options {
                None => r.system && r.cpu && r.memory && r.network == extra && r.disk == extra
                    && r.gpu == extra && r.processes == extra,
                Some(o) => {
                    &&& (o.system is None ==> r.system) && (o.system == Some(false) ==> !r.system)
                        && (o.system == Some(true) ==> r.system)
                    &&& (o.cpu is None ==> r.cpu) && (o.cpu == Some(false) ==> !r.cpu) && (o.cpu
                        == Some(true) ==> r.cpu)
                    &&& (o.memory is None ==> r.memory) && (o.memory == Some(false) ==> !r.memory)
                        && (o.memory == Some(true) ==> r.memory)
                    &&& (o.network is None ==> r.network == extra) && (o.network is Some
                        ==> Some(r.network) == o.network)
                    &&& (o.disk is None ==> r.disk == extra) && (o.disk is Some ==> Some(r.disk)
                        == o.disk)
                    &&& (o.gpu is None ==> r.gpu == extra) && (o.gpu is Some ==> Some(r.gpu)
                        == o.gpu)
                    &&& (o.processes is None ==> r.processes == extra) && (o.processes is Some
                        ==> Some(r.processes) == o.processes)
                },
            }
        }),
        full_detail is None && (options matches Some(o) && o.full_detail is None) ==> ({
            let o = options->Some_0;
            &&& o.network is None ==> r.network
            &&& o.disk is None ==> r.disk
            &&& o.gpu is None ==> r.gpu
            &&& o.processes is None ==> r.processes
        }),
{
}

impl SamplingOptions {
    /// The sections to sample: system, CPU and memory default to on; network,
    /// disk, GPU and processes default to the full-detail setting, which the
    /// options' own `full_detail` overrides and which is on when neither says.
    pub fn from_args(full_detail: Option<bool>, options: Option<SystemResourceSnapshotOptions>) -> (r:
        Self)
        ensures
            r.system == pick(option_field(options, |o: SystemResourceSnapshotOptions| o.system), true),
            r.cpu == pick(option_field(options, |o: SystemResourceSnapshotOptions| o.cpu), true),
            r.memory == pick(option_field(options, |o: SystemResourceSnapshotOptions| o.memory), true),
            r.network == pick(
                option_field(options, |o: SystemResourceSnapshotOptions| o.network),
                extras_by_default(full_detail, options),
            ),
            r.disk == pick(
                option_field(options, |o: SystemResourceSnapshotOptions| o.disk),
                extras_by_default(full_detail, options),
            ),
            r.gpu == pick(
                option_field(options, |o: SystemResourceSnapshotOptions| o.gpu),
                extras_by_default(full_detail, options),
            ),
            r.processes == pick(
                option_field(options, |o: SystemResourceSnapshotOptions| o.processes),
                extras_by_default(full_detail, options),
            ),
            sampled_sections(full_detail, options, r),
    {
        let fallback = match full_detail {
            Some(b) => b,
            None => true,
        };
        match options {
            None => SamplingOptions {
                system: true,
                cpu: true,
                memory: true,
                network: fallback,
                disk: fallback,
                gpu: fallback,
                processes: fallback,
            },
            Some(o) => {
                let extra = match o.full_detail {
                    Some(b) => b,
                    None => fallback,
                };
                SamplingOptions {
                    system: choose_or(o.system, true),
                    cpu: choose_or(o.cpu, true),
                    memory: choose_or(o.memory, true),
                    network: choose_or(o.network, extra),
                    disk: choose_or(o.disk, extra),
                    gpu: choose_or(o.gpu, extra),
                    processes: choose_or(o.processes, extra),
                }
            },
        }
    }
}

/// The choice when given, else the default.
fn choose_or(choice: Option<bool>, default: bool) -> (r: bool)
    ensures
        r == pick(choice, default),
{
    match choice {
        Some(b) => b,
        None => default,
    }
}

/// Time from `last` to `now`, zero when `now` is earlier.
pub fn elapsed_nanos(last: u64, now: u64) -> (r: u64)
    ensures
        r == elapsed(last, now),
{
    now.saturating_sub(last)
}

/// Whether a section last sampled at `last` is due at `now`.
fn due(last: Option<u64>, now: u64, interval: u64) -> (r: bool)
    ensures
        r == is_due(last, now, interval),
{
    match last {
        None => true,
        Some(l) => elapsed_nanos(l, now) >= interval,
    }
}

/// Whether a costly section last sampled at `last_refresh` is due at `now`:
/// never sampled, or sampled at least the refresh interval ago.
pub fn should_refresh(last_refresh: Option<u64>, now: u64) -> (r: bool)
    ensures
        r == is_due(last_refresh, now, EXPENSIVE_REFRESH_INTERVAL_NANOS),
{
    due(last_refresh, now, EXPENSIVE_REFRESH_INTERVAL_NANOS)
}

/// Today's network figures from the cumulative totals, keeping or renewing
/// the day's baseline.
pub fn network_daily_totals(
    baseline: &mut Option<NetworkDailyBaseline>,
    day: CalendarDay,
    total_uploaded_bytes: u64,
    total_downloaded_bytes: u64,
) -> (today: (u64, u64))
    ensures
        daily_totals_step(
            *old(baseline),
            day,
            total_uploaded_bytes,
            total_downloaded_bytes,
            *final(baseline),
            today,
        ),
{
    let kept = match *baseline {
        Some(value) => value.day == day && total_uploaded_bytes >= value.total_uploaded_bytes
            && total_downloaded_bytes >= value.total_downloaded_bytes,
        None => false,
    };
    let value = if kept {
        baseline.unwrap()
    } else {
        let value = NetworkDailyBaseline { day, total_uploaded_bytes, total_downloaded_bytes };
        *baseline = Some(value);
        value
    };
    (
        total_uploaded_bytes.saturating_sub(value.total_uploaded_bytes),
        total_downloaded_bytes.saturating_sub(value.total_downloaded_bytes),
    )
}

/// Saturating sum of `values`.
fn capped_sum(values: Ghost<Seq<u64>>, acc: u64, x: u64) -> (r: u64)
    requires
        acc == capped_total(values@),
    ensures
        r == capped_total(values@.push(x)),
{
    assert(values@.push(x).drop_last() =~= values@);
    proof {
        lemma_total_nonnegative(values@);
    }
    assert(total_of(values@.push(x)) == total_of(values@) + x);
    acc.saturating_add(x)
}

/// A sum of counters is never negative.
proof fn lemma_total_nonnegative(s: Seq<u64>)
    ensures
        total_of(s) >= 0,
    decreases s.len(),
{
    if s.len() > 0 {
        lemma_total_nonnegative(s.drop_last());
    }
}

/// The sums over all interfaces, each saturating at `u64::MAX`.
pub fn sum_interfaces(counters: &Vec<InterfaceCounters>) -> (r: InterfaceCounters)
    ensures
        r.received == capped_total(received_of(counters@)),
        r.transmitted == capped_total(transmitted_of(counters@)),
        r.total_received == capped_total(total_received_of(counters@)),
        r.total_transmitted == capped_total(total_transmitted_of(counters@)),
{
    let mut sum = InterfaceCounters { received: 0, transmitted: 0, total_received: 0, total_transmitted: 0 };
    let mut i: usize = 0;
    while i < counters.len()
        invariant
            i <= counters.len(),
            sum.received == capped_total(received_of(counters@.take(i as int))),
            sum.transmitted == capped_total(transmitted_of(counters@.take(i as int))),
            sum.total_received == capped_total(total_received_of(counters@.take(i as int))),
            sum.total_transmitted == capped_total(total_transmitted_of(counters@.take(i as int))),
        decreases counters.len() - i,
    {
        let c = counters[i];
        let ghost prefix = counters@.take(i as int);
        let ghost next = counters@.take(i + 1);
        assert(next =~= prefix.push(c));
        assert(received_of(next) =~= received_of(prefix).push(c.received));
        assert(transmitted_of(next) =~= transmitted_of(prefix).push(c.transmitted));
        assert(total_received_of(next) =~= total_received_of(prefix).push(c.total_received));
        assert(total_transmitted_of(next) =~= total_transmitted_of(prefix).push(c.total_transmitted));
        sum = InterfaceCounters {
            received: capped_sum(Ghost(received_of(prefix)), sum.received, c.received),
            transmitted: capped_sum(Ghost(transmitted_of(prefix)), sum.transmitted, c.transmitted),
            total_received: capped_sum(
                Ghost(total_received_of(prefix)),
                sum.total_received,
                c.total_received,
            ),
            total_transmitted: capped_sum(
                Ghost(total_transmitted_of(prefix)),
                sum.total_transmitted,
                c.total_transmitted,
            ),
        };
        i += 1;
    }
    assert(counters@.take(counters.len() as int) =~= counters@);
    sum
}

impl RefreshSchedule {
    /// A schedule under which nothing has been sampled yet.
    pub fn new() -> (r: Self)
        ensures
            r.last_system_refresh is None,
            r.last_network_refresh is None,
            r.last_disk_refresh is None,
            r.last_gpu_refresh is None,
            r.last_process_refresh is None,
            r.network_daily_baseline is None,
    {
        RefreshSchedule {
            last_system_refresh: None,
            last_network_refresh: None,
            last_disk_refresh: None,
            last_gpu_refresh: None,
            last_process_refresh: None,
            network_daily_baseline: None,
        }
    }

    /// Whether the address and host details are due at `now`.
    pub fn should_refresh_system(&self, now: u64) -> (r: bool)
        ensures
            r == is_due(self.last_system_refresh, now, EXPENSIVE_REFRESH_INTERVAL_NANOS),
    {
        should_refresh(self.last_system_refresh, now)
    }

    /// Whether the network figures are due at `now`.
    pub fn should_refresh_network(&self, now: u64) -> (r: bool)
        ensures
            r == is_due(self.last_network_refresh, now, NETWORK_REFRESH_INTERVAL_NANOS),
    {
        due(self.last_network_refresh, now, NETWORK_REFRESH_INTERVAL_NANOS)
    }

    /// Whether the disks are due at `now` (always, while none are cached).
    pub fn should_refresh_disks(&self, now: u64, no_cached_disks: bool) -> (r: bool)
        ensures
            r == (no_cached_disks || is_due(self.last_disk_refresh, now, EXPENSIVE_REFRESH_INTERVAL_NANOS)),
    {
        no_cached_disks || should_refresh(self.last_disk_refresh, now)
    }

    /// Whether the GPU figures are due at `now`.
    pub fn should_refresh_gpu(&self, now: u64) -> (r: bool)
        ensures
            r == is_due(self.last_gpu_refresh, now, EXPENSIVE_REFRESH_INTERVAL_NANOS),
    {
        should_refresh(self.last_gpu_refresh, now)
    }

    /// Whether the process list is due at `now` (always, while none is cached).
    pub fn should_refresh_processes(&self, now: u64, no_cached_processes: bool) -> (r: bool)
        ensures
            r == (no_cached_processes || is_due(self.last_process_refresh, now, EXPENSIVE_REFRESH_INTERVAL_NANOS)),
    {
        no_cached_processes || should_refresh(self.last_process_refresh, now)
    }

    /// Decides what a snapshot at `now` samples afresh, and records the
    /// sampling times.
    pub fn plan(
        &mut self,
        options: SamplingOptions,
        now: u64,
        no_cached_disks: bool,
        no_cached_processes: bool,
    ) -> (plan: SnapshotPlan)
        ensures
            plan_step(*old(self), options, now, no_cached_disks, no_cached_processes, *final(self), plan),
    {
        let ip = options.system && self.should_refresh_system(now);
        if ip {
            self.last_system_refresh = Some(now);
        }
        let procs = options.processes && self.should_refresh_processes(now, no_cached_processes);
        if procs {
            self.last_process_refresh = Some(now);
        }
        let disks = options.disk && self.should_refresh_disks(now, no_cached_disks);
        let disk_elapsed_nanos = if disks {
            match self.last_disk_refresh {
                Some(l) => Some(elapsed_nanos(l, now)),
                None => None,
            }
        } else {
            None
        };
        if disks {
            self.last_disk_refresh = Some(now);
        }
        let net = options.network && self.should_refresh_network(now);
        let network_elapsed_nanos = if net {
            match self.last_network_refresh {
                Some(l) => Some(elapsed_nanos(l, now)),
                None => None,
            }
        } else {
            None
        };
        if net {
            self.last_network_refresh = Some(now);
        }
        let gpu = options.gpu && self.should_refresh_gpu(now);
        if gpu {
            self.last_gpu_refresh = Some(now);
        }
        SnapshotPlan {
            refresh_cpu: options.cpu,
            refresh_memory: options.memory,
            refresh_ip_address: ip,
            refresh_processes: procs,
            refresh_disks: disks,
            disk_elapsed_nanos,
            refresh_network: net,
            network_elapsed_nanos,
            refresh_gpu: gpu,
        }
    }

    /// Today's network figures from the cumulative totals, keeping or
    /// renewing the day's baseline.
    pub fn today_network_totals(
        &mut self,
        day: CalendarDay,
        total_uploaded_bytes: u64,
        total_downloaded_bytes: u64,
    ) -> (today: (u64, u64))
        ensures
            daily_totals_step(
                old(self).network_daily_baseline,
                day,
                total_uploaded_bytes,
                total_downloaded_bytes,
                final(self).network_daily_baseline,
                today,
            ),
            final(self).last_system_refresh == old(self).last_system_refresh,
            final(self).last_network_refresh == old(self).last_network_refresh,
            final(self).last_disk_refresh == old(self).last_disk_refresh,
            final(self).last_gpu_refresh == old(self).last_gpu_refresh,
            final(self).last_process_refresh == old(self).last_process_refresh,
    {
        network_daily_totals(
            &mut self.network_daily_baseline,
            day,
            total_uploaded_bytes,
            total_downloaded_bytes,
        )
    }
}

impl MemorySnapshot {
    /// The figures from the system's counters (see `counted_memory`).
    pub fn from_counters(total: u64, used: u64, available: u64, free: u64) -> (r: Self)
        ensures
            r == counted_memory(total, used, available, free),
    {
        let used = if used < total {
            used
        } else {
            total
        };
        let available = if available < total {
            available
        } else {
            total
        };
        let free = if free < total {
            free
        } else {
            total
        };
        let cached = total.saturating_sub(used).saturating_sub(free);
        MemorySnapshot {
            total_bytes: total,
            used_bytes: used,
            available_bytes: available,
            cached_bytes: cached,
            free_bytes: free,
        }
    }

    /// The figures when performance counters for cached and free memory
    /// (`(cached, free)`) may be at hand: the counters, capped at the total,
    /// replace the derived values; without them cached is zero and free comes
    /// from the system's counter.
    pub fn from_performance_counters(
        total: u64,
        used: u64,
        available: u64,
        counters: Option<(u64, u64)>,
        system_free: u64,
    ) -> (r: Self)
        ensures
            r.total_bytes == total,
            r.used_bytes == min_u64(used, total),
            r.available_bytes == min_u64(available, total),
            r.cached_bytes == (match counters {
                Some(c) => min_u64(c.0, total),
                None => 0,
            }),
            r.free_bytes == (match counters {
                Some(c) => min_u64(c.1, total),
                None => min_u64(system_free, total),
            }),
    {
        let used = if used < total {
            used
        } else {
            total
        };
        let available = if available < total {
            available
        } else {
            total
        };
        let (cached, free) = match counters {
            Some((c, f)) => (
                if c < total {
                    c
                } else {
                    total
                },
                if f < total {
                    f
                } else {
                    total
                },
            ),
            None => (
                0,
                if system_free < total {
                    system_free
                } else {
                    total
                },
            ),
        };
        MemorySnapshot {
            total_bytes: total,
            used_bytes: used,
            available_bytes: available,
            cached_bytes: cached,
            free_bytes: free,
        }
    }

    /// All figures zero (a snapshot that leaves memory out).
    pub fn empty() -> (r: Self)
        ensures
            r.total_bytes == 0 && r.used_bytes == 0 && r.available_bytes == 0
                && r.cached_bytes == 0 && r.free_bytes == 0,
    {
        MemorySnapshot {
            total_bytes: 0,
            used_bytes: 0,
            available_bytes: 0,
            cached_bytes: 0,
            free_bytes: 0,
        }
    }
}

impl NetworkSnapshot {
    /// The network figures: the rates when a previous sample allowed them
    /// (zero otherwise), the interfaces' cumulative totals, and today's part.
    pub fn assemble(rates: Option<(u64, u64)>, sums: InterfaceCounters, today: (u64, u64)) -> (r:
        Self)
        ensures
            r.upload_bytes_per_sec == (match rates {
                Some(x) => x.0,
                None => 0,
            }),
            r.download_bytes_per_sec == (match rates {
                Some(x) => x.1,
                None => 0,
            }),
            r.total_uploaded_bytes == sums.total_transmitted,
            r.total_downloaded_bytes == sums.total_received,
            r.today_uploaded_bytes == today.0,
            r.today_downloaded_bytes == today.1,
    {
        let (up, down) = match rates {
            Some(x) => x,
            None => (0, 0),
        };
        NetworkSnapshot {
            upload_bytes_per_sec: up,
            download_bytes_per_sec: down,
            total_uploaded_bytes: sums.total_transmitted,
            total_downloaded_bytes: sums.total_received,
            today_uploaded_bytes: today.0,
            today_downloaded_bytes: today.1,
        }
    }

    /// All figures zero (a snapshot that leaves the network out).
    pub fn empty() -> (r: Self)
        ensures
            r.upload_bytes_per_sec == 0 && r.download_bytes_per_sec == 0 && r.total_uploaded_bytes
                == 0 && r.total_downloaded_bytes == 0 && r.today_uploaded_bytes == 0
                && r.today_downloaded_bytes == 0,
    {
        NetworkSnapshot {
            upload_bytes_per_sec: 0,
            download_bytes_per_sec: 0,
            total_uploaded_bytes: 0,
            total_downloaded_bytes: 0,
            today_uploaded_bytes: 0,
            today_downloaded_bytes: 0,
        }
    }
}

impl DiskSnapshot {
    /// The figures of one disk; used space is total minus available, or zero
    /// when more is available than the total.
    pub fn new(
        name: String,
        mount_point: String,
        file_system: String,
        total_bytes: u64,
        available_bytes: u64,
        read_bytes_per_sec: u64,
        write_bytes_per_sec: u64,
    ) -> (r: Self)
        ensures
            r.name == name,
            r.mount_point == mount_point,
            r.file_system == file_system,
            r.total_bytes == total_bytes,
            r.available_bytes == available_bytes,
            r.used_bytes == (if available_bytes > total_bytes {
                0
            } else {
                (total_bytes - available_bytes) as u64
            }),
            r.read_bytes_per_sec == read_bytes_per_sec,
            r.write_bytes_per_sec == write_bytes_per_sec,
    {
        DiskSnapshot {
            name,
            mount_point,
            file_system,
            total_bytes,
            available_bytes,
            used_bytes: total_bytes.saturating_sub(available_bytes),
            read_bytes_per_sec,
            write_bytes_per_sec,
        }
    }
}

} // verus!
