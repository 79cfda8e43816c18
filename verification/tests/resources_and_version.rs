use chrono::{Datelike, NaiveDate};
use cli_manager::clock::{current_epoch_millis, epoch_millis};
use cli_manager::ranking::{top_process_indices, TOP_PROCESS_LIMIT};
use cli_manager::resources::{
    network_daily_totals, should_refresh, sum_interfaces, CalendarDay, DiskSnapshot,
    InterfaceCounters, MemorySnapshot, NetworkSnapshot, RefreshSchedule, SamplingOptions,
    SystemResourceSnapshotOptions, EXPENSIVE_REFRESH_INTERVAL_NANOS,
    NETWORK_REFRESH_INTERVAL_NANOS,
};
use cli_manager::text::wide_null;
use cli_manager::version::{resolve_distribution, AppVersion};

const SECOND: u64 = 1_000_000_000;

fn day_of(date: NaiveDate) -> CalendarDay {
    CalendarDay { year: date.year(), month: date.month(), day: date.day() }
}

fn all_options() -> SamplingOptions {
    SamplingOptions {
        system: true,
        cpu: true,
        memory: true,
        network: true,
        disk: true,
        gpu: true,
        processes: true,
    }
}

#[test]
fn network_daily_totals_use_day_baseline_and_reset_on_counter_drop() {
    let day = day_of(NaiveDate::from_ymd_opt(2026, 7, 9).unwrap());
    let mut baseline = None;

    assert_eq!(network_daily_totals(&mut baseline, day, 100, 200), (0, 0));
    assert_eq!(network_daily_totals(&mut baseline, day, 150, 260), (50, 60));
    assert_eq!(network_daily_totals(&mut baseline, day, 90, 300), (0, 0));
    assert_eq!(
        network_daily_totals(
            &mut baseline,
            day_of(NaiveDate::from_ymd_opt(2026, 7, 10).unwrap()),
            120,
            330
        ),
        (0, 0)
    );
}

#[test]
fn sampling_options_keep_legacy_full_detail_behavior() {
    let options = SamplingOptions::from_args(Some(false), None);
    assert!(options.system);
    assert!(options.cpu);
    assert!(options.memory);
    assert!(!options.network);
    assert!(!options.disk);
    assert!(!options.gpu);
    assert!(!options.processes);
}

#[test]
fn should_refresh_respects_expensive_interval() {
    let now: u64 = 3_600 * SECOND;
    assert!(should_refresh(None, now));
    assert!(!should_refresh(Some(now), now));
    assert!(should_refresh(
        Some(now - EXPENSIVE_REFRESH_INTERVAL_NANOS - SECOND),
        now
    ));
}

#[test]
fn recognizes_aur_distribution_case_insensitively() {
    assert_eq!(resolve_distribution(Some("aur")), "aur");
    assert_eq!(resolve_distribution(Some("AUR")), "aur");
    assert_eq!(resolve_distribution(None), "standalone");
    assert_eq!(resolve_distribution(Some("unknown")), "standalone");
}

#[test]
fn distribution_needs_the_exact_word() {
    assert_eq!(resolve_distribution(Some("aUr")), "aur");
    assert_eq!(resolve_distribution(Some(" aur")), "standalone");
    assert_eq!(resolve_distribution(Some("aurx")), "standalone");
    assert_eq!(resolve_distribution(Some("")), "standalone");
}

#[test]
fn app_version_fills_in_defaults() {
    let v = AppVersion::from_parts(None, None, Some("Aur"));
    assert_eq!(v.version, "unknown");
    assert_eq!(v.name, "CLI-Manager");
    assert_eq!(v.distribution, "aur");
    let v = AppVersion::from_parts(Some("1.2.3".to_string()), Some("Tool".to_string()), None);
    assert_eq!((v.version.as_str(), v.name.as_str(), v.distribution.as_str()), ("1.2.3", "Tool", "standalone"));
}

#[test]
fn sampling_options_follow_explicit_choices() {
    let options = SamplingOptions::from_args(None, None);
    assert!(options.network && options.disk && options.gpu && options.processes);
    let given = SystemResourceSnapshotOptions {
        full_detail: Some(false),
        system: Some(false),
        cpu: None,
        memory: Some(false),
        network: Some(true),
        disk: None,
        gpu: None,
        processes: None,
    };
    let options = SamplingOptions::from_args(Some(true), Some(given));
    assert!(!options.system && options.cpu && !options.memory);
    assert!(options.network && !options.disk && !options.gpu && !options.processes);
    let given = SystemResourceSnapshotOptions {
        full_detail: None,
        system: None,
        cpu: Some(false),
        memory: None,
        network: None,
        disk: None,
        gpu: Some(true),
        processes: None,
    };
    let options = SamplingOptions::from_args(Some(false), Some(given));
    assert!(options.system && !options.cpu && options.memory);
    assert!(!options.network && !options.disk && options.gpu && !options.processes);
}

#[test]
fn schedule_samples_costly_sections_once_per_interval() {
    let mut schedule = RefreshSchedule::new();
    let t0: u64 = 100 * SECOND;
    let plan = schedule.plan(all_options(), t0, true, true);
    assert!(plan.refresh_cpu && plan.refresh_memory);
    assert!(plan.refresh_ip_address && plan.refresh_processes && plan.refresh_disks);
    assert!(plan.refresh_network && plan.refresh_gpu);
    assert_eq!(plan.disk_elapsed_nanos, None);
    assert_eq!(plan.network_elapsed_nanos, None);
    assert_eq!(schedule.last_system_refresh, Some(t0));

    let t1 = t0 + 2 * SECOND;
    let plan = schedule.plan(all_options(), t1, false, false);
    assert!(!plan.refresh_ip_address && !plan.refresh_processes && !plan.refresh_disks && !plan.refresh_gpu);
    assert!(plan.refresh_network);
    assert_eq!(plan.network_elapsed_nanos, Some(2 * SECOND));

    let t2 = t1 + NETWORK_REFRESH_INTERVAL_NANOS - 1;
    let plan = schedule.plan(all_options(), t2, true, false);
    assert!(!plan.refresh_network);
    assert!(plan.refresh_disks);
    assert_eq!(plan.disk_elapsed_nanos, Some(t2 - t0));

    let t3 = t0 + EXPENSIVE_REFRESH_INTERVAL_NANOS;
    let plan = schedule.plan(all_options(), t3, false, false);
    assert!(plan.refresh_ip_address && plan.refresh_processes && plan.refresh_gpu);
    assert!(!plan.refresh_disks);

    let none = SamplingOptions { system: false, cpu: false, memory: false, network: false, disk: false, gpu: false, processes: false };
    let before = schedule.last_gpu_refresh;
    let plan = schedule.plan(none, t3 + 100 * SECOND, true, true);
    assert!(!plan.refresh_cpu && !plan.refresh_disks && !plan.refresh_processes && !plan.refresh_gpu);
    assert_eq!(schedule.last_gpu_refresh, before);
    assert!(schedule.should_refresh_gpu(t3 + 100 * SECOND));
    assert!(!schedule.should_refresh_network(t3));
    assert!(schedule.should_refresh_disks(t3, true));
    assert!(schedule.should_refresh_processes(t3, true));
    assert!(!schedule.should_refresh_system(t3));
}

#[test]
fn clock_going_backwards_counts_as_no_time() {
    let mut schedule = RefreshSchedule::new();
    let plan = schedule.plan(all_options(), 50 * SECOND, true, true);
    assert!(plan.refresh_network);
    let plan = schedule.plan(all_options(), 40 * SECOND, true, true);
    assert!(!plan.refresh_network && !plan.refresh_ip_address);
    assert_eq!(plan.disk_elapsed_nanos, Some(0));
}

#[test]
fn today_totals_accumulate_through_the_schedule() {
    let mut schedule = RefreshSchedule::new();
    let day = CalendarDay { year: 2026, month: 1, day: 31 };
    assert_eq!(schedule.today_network_totals(day, 10, 20), (0, 0));
    assert_eq!(schedule.today_network_totals(day, 15, 21), (5, 1));
    assert_eq!(schedule.today_network_totals(day, 40, 21), (30, 1));
    assert_eq!(schedule.today_network_totals(day, 40, 19), (0, 0));
    assert_eq!(schedule.today_network_totals(day, 41, 20), (1, 1));
}

#[test]
fn interface_sums_saturate() {
    let counters = vec![
        InterfaceCounters { received: 1, transmitted: 2, total_received: u64::MAX - 1, total_transmitted: 10 },
        InterfaceCounters { received: 3, transmitted: 4, total_received: 5, total_transmitted: 20 },
    ];
    let s = sum_interfaces(&counters);
    assert_eq!((s.received, s.transmitted, s.total_received, s.total_transmitted), (4, 6, u64::MAX, 30));
    let s = sum_interfaces(&Vec::new());
    assert_eq!((s.received, s.transmitted, s.total_received, s.total_transmitted), (0, 0, 0, 0));
}

#[test]
fn network_snapshot_assembly() {
    let sums = InterfaceCounters { received: 1, transmitted: 2, total_received: 300, total_transmitted: 400 };
    let n = NetworkSnapshot::assemble(Some((7, 8)), sums, (40, 30));
    assert_eq!(
        (n.upload_bytes_per_sec, n.download_bytes_per_sec, n.total_uploaded_bytes, n.total_downloaded_bytes, n.today_uploaded_bytes, n.today_downloaded_bytes),
        (7, 8, 400, 300, 40, 30)
    );
    let n = NetworkSnapshot::assemble(None, sums, (0, 0));
    assert_eq!((n.upload_bytes_per_sec, n.download_bytes_per_sec), (0, 0));
    let n = NetworkSnapshot::empty();
    assert_eq!(n.total_uploaded_bytes, 0);
}

#[test]
fn memory_figures_fit_the_total() {
    let m = MemorySnapshot::from_counters(100, 60, 70, 30);
    assert_eq!((m.total_bytes, m.used_bytes, m.available_bytes, m.cached_bytes, m.free_bytes), (100, 60, 70, 10, 30));
    let m = MemorySnapshot::from_counters(100, 80, 150, 40);
    assert_eq!((m.used_bytes, m.available_bytes, m.cached_bytes, m.free_bytes), (80, 100, 0, 40));
    let m = MemorySnapshot::from_counters(100, 500, 0, 500);
    assert_eq!((m.used_bytes, m.cached_bytes, m.free_bytes), (100, 0, 100));
    let m = MemorySnapshot::from_performance_counters(100, 60, 70, Some((25, 200)), 5);
    assert_eq!((m.cached_bytes, m.free_bytes), (25, 100));
    let m = MemorySnapshot::from_performance_counters(100, 60, 70, None, 5);
    assert_eq!((m.cached_bytes, m.free_bytes), (0, 5));
    let m = MemorySnapshot::empty();
    assert_eq!(m.total_bytes + m.free_bytes, 0);
}

#[test]
fn disk_used_space_never_underflows() {
    let d = DiskSnapshot::new("sda".to_string(), "/".to_string(), "ext4".to_string(), 100, 30, 5, 6);
    assert_eq!((d.used_bytes, d.read_bytes_per_sec, d.write_bytes_per_sec), (70, 5, 6));
    let d = DiskSnapshot::new(String::new(), String::new(), String::new(), 10, 30, 0, 0);
    assert_eq!(d.used_bytes, 0);
}

#[test]
fn epoch_millis_saturates() {
    assert_eq!(epoch_millis(None), 0);
    assert_eq!(epoch_millis(Some(1_767_225_600_000)), 1_767_225_600_000);
    assert_eq!(epoch_millis(Some(u128::MAX)), u64::MAX);
    assert_eq!(epoch_millis(Some(u64::MAX as u128)), u64::MAX);
    // 2020-01-01 in milliseconds: any working clock reads later.
    assert!(current_epoch_millis() > 1_577_836_800_000);
}

#[test]
fn wide_null_encodes_utf16_with_terminator() {
    assert_eq!(wide_null(""), vec![0]);
    assert_eq!(wide_null("A\u{20ac}\u{1f600}"), vec![0x41, 0x20ac, 0xd83d, 0xde00, 0]);
    assert_eq!(wide_null(r"\Memory\Cache Bytes"), r"\Memory\Cache Bytes".encode_utf16().chain(std::iter::once(0)).collect::<Vec<u16>>());
}

#[test]
fn busiest_processes_rank_by_cpu_then_memory() {
    let keys: Vec<(u32, u64)> = vec![(10, 5), (30, 1), (30, 2), (0, 0), (10, 5), (20, 9), (5, 5)];
    assert_eq!(top_process_indices(&keys), vec![2, 1, 5, 0, 4]);
    assert_eq!(top_process_indices(&vec![(1, 1), (1, 2)]), vec![1, 0]);
    assert!(top_process_indices(&Vec::new()).is_empty());
    assert_eq!(TOP_PROCESS_LIMIT, 5);
}
