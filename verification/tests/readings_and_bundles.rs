use libgreen::bundles::{sum_counts, AnyBundle, Bundle, BundleError};
use libgreen::columns::{BundleKind, Column};
use libgreen::config::BundleConfig;
use libgreen::cstates::{core_residency_measurement, cstate_measurement, pkg_residency_measurement};
use libgreen::cycles::{cycles_measurement, CyclesBundle};
use libgreen::events::{keep_present, CoreCState, MissEvent, PkgCState, RaplEvent};
use libgreen::misses::{misses_measurement, MissesBundle};
use libgreen::rapl::rapl_measurement;
use libgreen::time_bundle::TimeBundle;
use libgreen::measurements::{
    all_cpus, cpus_to_use, csv_output, csv_record, join_readings, measure_start, measure_stop, resolve_cpus,
    MeasurementContext,
};
use libgreen::perf::HardwareEvent;
use libgreen::readings::{Measurements, Value};

#[test]
fn insert_then_get() {
    let mut m = Measurements::new();
    assert_eq!(m.get(Column::Time), None);
    m.insert(Column::Time, Value::Micros(5));
    m.insert(Column::Cycles, Value::Count(7));
    m.insert(Column::Time, Value::Micros(9));
    assert_eq!(m.get(Column::Time), Some(Value::Micros(9)));
    assert_eq!(m.get(Column::Cycles), Some(Value::Count(7)));
    assert!(m.contains(Column::Cycles));
    assert!(!m.contains(Column::Ended));
}

#[test]
fn extend_prefers_the_added_values() {
    let mut a = Measurements::new();
    a.insert(Column::Time, Value::Micros(1));
    a.insert(Column::Cycles, Value::Count(2));
    let mut b = Measurements::new();
    b.insert(Column::Cycles, Value::Count(3));
    b.insert(Column::Ended, Value::Timestamp(-4));
    a.extend(b);
    assert_eq!(a.get(Column::Time), Some(Value::Micros(1)));
    assert_eq!(a.get(Column::Cycles), Some(Value::Count(3)));
    assert_eq!(a.get(Column::Ended), Some(Value::Timestamp(-4)));
}

#[test]
fn sums_of_counts() {
    assert_eq!(sum_counts(&vec![]), Some(0));
    assert_eq!(sum_counts(&vec![1, 2, 3]), Some(6));
    assert_eq!(sum_counts(&vec![u64::MAX, 0]), Some(u64::MAX));
    assert_eq!(sum_counts(&vec![u64::MAX, 1]), None);
}

#[test]
fn cycles_are_summed_over_cpus() {
    let m = cycles_measurement(&vec![100, 250, 50]).unwrap();
    assert_eq!(m.get(Column::Cycles), Some(Value::Count(400)));
    assert!(matches!(cycles_measurement(&vec![u64::MAX, 2]), Err(BundleError::CountOverflow)));
}

#[test]
fn core_residency_is_summed_per_state() {
    let m = core_residency_measurement(&vec![
        (CoreCState::C1, 5),
        (CoreCState::C3, 2),
        (CoreCState::C1, 7),
    ])
    .unwrap();
    assert_eq!(m.get(Column::C1CoreResidency), Some(Value::Count(12)));
    assert_eq!(m.get(Column::C3CoreResidency), Some(Value::Count(2)));
    assert_eq!(m.get(Column::C6CoreResidency), None);
    assert_eq!(m.get(Column::C7CoreResidency), None);
    let empty = core_residency_measurement(&vec![]).unwrap();
    assert_eq!(empty.get(Column::C1CoreResidency), None);
    assert!(matches!(
        core_residency_measurement(&vec![(CoreCState::C6, u64::MAX), (CoreCState::C7, 1), (CoreCState::C6, 1)]),
        Err(BundleError::CountOverflow)
    ));
}

#[test]
fn csv_record_follows_the_column_order() {
    let mut m = Measurements::new();
    m.insert(Column::Ended, Value::Timestamp(42));
    m.insert(Column::Cycles, Value::Count(3));
    m.insert(Column::Time, Value::Micros(10));
    let row = csv_record(&m);
    assert_eq!(
        row,
        vec![
            (Column::Time, Value::Micros(10)),
            (Column::Cycles, Value::Count(3)),
            (Column::Ended, Value::Timestamp(42)),
        ]
    );
    assert!(csv_record(&Measurements::new()).is_empty());
}

#[test]
fn all_cpus_counts_up() {
    assert_eq!(all_cpus(4), vec![0, 1, 2, 3]);
    assert!(all_cpus(0).is_empty());
}

#[test]
fn resolve_cpus_gives_distinct_cpus() {
    let cpus = resolve_cpus();
    for i in 1..cpus.len() {
        assert!(cpus[i - 1] < cpus[i]);
    }
}

#[test]
fn time_bundle_reports_only_when_started() {
    let mut b = TimeBundle::new(&[]).unwrap();
    assert!(b.read().unwrap().get(Column::Time).is_none());
    b.enable().unwrap();
    b.disable().unwrap();
    let m = b.read().unwrap();
    assert!(matches!(m.get(Column::Time), Some(Value::Micros(_))));
    b.reset().unwrap();
    assert!(b.read().unwrap().get(Column::Time).is_none());
}

#[test]
fn counting_bundles_are_created_even_without_counters() {
    let cpus = all_cpus(2);
    let mut cycles = CyclesBundle::new(&cpus).unwrap();
    if let Ok(m) = cycles.read() {
        assert!(matches!(m.get(Column::Cycles), Some(Value::Count(_))));
    }
    let mut misses = MissesBundle::new(&cpus).unwrap();
    if let Ok(m) = misses.read() {
        assert!(m.get(Column::Cycles).is_none());
    }
}

fn kinds(bundles: &[AnyBundle]) -> Vec<BundleKind> {
    bundles.iter().map(|b| b.bundle_kind()).collect()
}

#[test]
fn create_bundles_in_configured_order() {
    let none = BundleConfig { rapl: false, misses: false, cstates: false, cycles: false };
    assert_eq!(kinds(&none.create_bundles(&[0]).unwrap()), vec![BundleKind::Time]);
    let most = BundleConfig { rapl: false, misses: true, cstates: true, cycles: true };
    assert_eq!(
        kinds(&most.create_bundles(&[0]).unwrap()),
        vec![BundleKind::Time, BundleKind::Cycles, BundleKind::Misses, BundleKind::CStates]
    );
    let with_rapl = BundleConfig { rapl: true, misses: false, cstates: false, cycles: true };
    match with_rapl.create_bundles(&[0]) {
        Ok(b) => assert_eq!(kinds(&b), vec![BundleKind::Time, BundleKind::Rapl, BundleKind::Cycles]),
        Err(e) => assert!(matches!(e, BundleError::Io(_))),
    }
}

#[test]
fn measurement_of_time_only() {
    let mut ctx = measure_start("", std::path::PathBuf::from("unused.csv")).unwrap();
    let report = measure_stop(&mut ctx);
    assert!(report.disable_errors.is_empty());
    assert!(report.read_errors.is_empty());
    assert!(matches!(report.data.get(Column::Time), Some(Value::Micros(_))));
    assert!(matches!(report.data.get(Column::Ended), Some(Value::Timestamp(t)) if t > 0));
    let row = csv_record(&report.data);
    let cols: Vec<Column> = row.iter().map(|p| p.0).collect();
    assert_eq!(cols, vec![Column::Time, Column::Ended]);
    assert_eq!(ctx.output_path(), &std::path::PathBuf::from("unused.csv"));
}

#[test]
fn misses_are_summed_per_event() {
    let m = misses_measurement(&vec![
        (MissEvent::L1d, vec![3, 4]),
        (MissEvent::Branch, vec![10]),
        (MissEvent::Llc, vec![]),
    ])
    .unwrap();
    assert_eq!(m.get(Column::L1dMisses), Some(Value::Count(7)));
    assert_eq!(m.get(Column::BranchMisses), Some(Value::Count(10)));
    assert_eq!(m.get(Column::LlcMisses), Some(Value::Count(0)));
    assert_eq!(m.get(Column::L1iMisses), None);
    assert!(matches!(
        misses_measurement(&vec![(MissEvent::L1i, vec![1]), (MissEvent::Llc, vec![u64::MAX, u64::MAX])]),
        Err(BundleError::CountOverflow)
    ));
}

#[test]
fn rapl_readings_keep_raw_count_and_scale() {
    let scale = 2.3283064365386962890625e-10f64.to_bits();
    let m = rapl_measurement(&vec![(RaplEvent::Pkg, 1000, scale), (RaplEvent::Ram, 7, 0)]);
    assert_eq!(m.get(Column::Pkg), Some(Value::Energy { raw: 1000, scale_bits: scale }));
    assert_eq!(m.get(Column::Ram), Some(Value::Energy { raw: 7, scale_bits: 0 }));
    assert_eq!(m.get(Column::Gpu), None);
}

#[test]
fn cstates_join_core_sums_and_package_counts() {
    let core = vec![(CoreCState::C6, 10), (CoreCState::C6, 20), (CoreCState::C7, 1)];
    let pkg = vec![(PkgCState::C2, 5), (PkgCState::C10, 9)];
    let m = cstate_measurement(&core, &pkg).unwrap();
    assert_eq!(m.get(Column::C6CoreResidency), Some(Value::Count(30)));
    assert_eq!(m.get(Column::C7CoreResidency), Some(Value::Count(1)));
    assert_eq!(m.get(Column::C2PkgResidency), Some(Value::Count(5)));
    assert_eq!(m.get(Column::C10PkgResidency), Some(Value::Count(9)));
    assert_eq!(m.get(Column::C3PkgResidency), None);
    let p = pkg_residency_measurement(&pkg);
    assert_eq!(p.get(Column::C6CoreResidency), None);
    assert!(matches!(
        cstate_measurement(&vec![(CoreCState::C1, u64::MAX), (CoreCState::C1, 1)], &pkg),
        Err(BundleError::CountOverflow)
    ));
}

#[test]
fn keep_present_keeps_order() {
    assert_eq!(keep_present(vec![Some(3), None, Some(1), None]), vec![3, 1]);
    assert!(keep_present::<u8>(vec![None, None]).is_empty());
}

#[test]
fn bundles_without_counters_succeed() {
    let mut cycles = CyclesBundle::new(&[]).unwrap();
    cycles.enable().unwrap();
    cycles.disable().unwrap();
    cycles.reset().unwrap();
    assert_eq!(cycles.read().unwrap().get(Column::Cycles), Some(Value::Count(0)));
    let mut misses = MissesBundle::new(&[]).unwrap();
    misses.enable().unwrap();
    let m = misses.read().unwrap();
    assert!(csv_record(&m).is_empty());
}

#[test]
fn time_bundle_through_any_bundle() {
    let none = BundleConfig { rapl: false, misses: false, cstates: false, cycles: false };
    let mut bundles = none.create_bundles(&[]).unwrap();
    let b = &mut bundles[0];
    b.reset().unwrap();
    assert!(b.read().unwrap().get(Column::Time).is_none());
    b.enable().unwrap();
    b.disable().unwrap();
    assert!(matches!(b.read().unwrap().get(Column::Time), Some(Value::Micros(_))));
}

#[test]
fn sysfs_event_names() {
    assert_eq!(RaplEvent::Pkg.sysfs_name(), "energy-pkg");
    assert_eq!(RaplEvent::Psys.sysfs_name(), "energy-psys");
    assert_eq!(CoreCState::C7.sysfs_name(), "c7-residency");
    assert_eq!(PkgCState::C10.sysfs_name(), "c10-residency");
}

#[test]
fn cpus_to_use_prefers_the_affinity() {
    assert_eq!(cpus_to_use(Some(vec![2, 5, 7]), 8), vec![2, 5, 7]);
    assert_eq!(cpus_to_use(Some(vec![]), 8), Vec::<usize>::new());
    assert_eq!(cpus_to_use(None, 3), vec![0, 1, 2]);
    assert!(cpus_to_use(None, 0).is_empty());
}

#[test]
fn join_readings_keeps_every_successful_reading() {
    let mut time = Measurements::new();
    time.insert(Column::Time, Value::Micros(12));
    let mut cycles = Measurements::new();
    cycles.insert(Column::Cycles, Value::Count(300));
    let reads = vec![Ok(time), Err(BundleError::CountOverflow), Ok(cycles)];
    let (data, errors) = join_readings(reads, 1_700_000_000_000_000);
    assert_eq!(data.get(Column::Time), Some(Value::Micros(12)));
    assert_eq!(data.get(Column::Cycles), Some(Value::Count(300)));
    assert_eq!(data.get(Column::Ended), Some(Value::Timestamp(1_700_000_000_000_000)));
    assert_eq!(errors.len(), 1);
    assert!(matches!(errors[0], BundleError::CountOverflow));
    let order: Vec<Column> = csv_record(&data).into_iter().map(|(c, _)| c).collect();
    assert_eq!(order, vec![Column::Time, Column::Cycles, Column::Ended]);
}

#[test]
fn join_readings_of_nothing_has_only_the_end() {
    let (data, errors) = join_readings(Vec::new(), -5);
    assert_eq!(csv_record(&data), vec![(Column::Ended, Value::Timestamp(-5))]);
    assert!(errors.is_empty());
}

#[test]
fn join_readings_later_reading_wins() {
    let mut a = Measurements::new();
    a.insert(Column::Cycles, Value::Count(1));
    let mut b = Measurements::new();
    b.insert(Column::Cycles, Value::Count(2));
    let (data, _) = join_readings(vec![Ok(a), Ok(b)], 0);
    assert_eq!(data.get(Column::Cycles), Some(Value::Count(2)));
}

#[test]
fn starting_with_no_metric_always_succeeds() {
    let none = BundleConfig { rapl: false, misses: false, cstates: false, cycles: false };
    let mut ctx = MeasurementContext::start(&none, &[0, 1], std::path::PathBuf::from("unused.csv")).unwrap();
    let report = ctx.stop();
    assert!(matches!(report.data.get(Column::Time), Some(Value::Micros(_))));
    assert!(report.read_errors.is_empty());
}

#[test]
fn miss_events_count_their_own_hardware_events() {
    assert_eq!(MissEvent::L1d.hardware_event(), HardwareEvent::L1dReadMiss);
    assert_eq!(MissEvent::L1i.hardware_event(), HardwareEvent::L1iReadMiss);
    assert_eq!(MissEvent::Llc.hardware_event(), HardwareEvent::LlcReadMiss);
    assert_eq!(MissEvent::Branch.hardware_event(), HardwareEvent::BranchMisses);
}

#[test]
fn build_counter_opens_or_reports_the_kernel_error() {
    for e in [MissEvent::L1d, MissEvent::L1i, MissEvent::Llc, MissEvent::Branch] {
        match e.build_counter(0) {
            Ok(_) => {}
            Err(err) => assert!(!err.to_string().is_empty()),
        }
    }
}

#[test]
fn csv_output_has_a_header_only_for_a_new_file() {
    let mut m = Measurements::new();
    m.insert(Column::Ended, Value::Timestamp(9));
    m.insert(Column::Time, Value::Micros(4));
    let new_file = csv_output(&m, false);
    assert_eq!(new_file.header, Some(vec![Column::Time, Column::Ended]));
    assert_eq!(new_file.row, vec![(Column::Time, Value::Micros(4)), (Column::Ended, Value::Timestamp(9))]);
    let old_file = csv_output(&m, true);
    assert!(old_file.header.is_none());
    assert_eq!(old_file.row, new_file.row);
}

#[test]
fn starting_without_cpus_or_rapl_or_cstates_succeeds() {
    let config = BundleConfig { rapl: false, misses: true, cstates: false, cycles: true };
    let mut ctx = MeasurementContext::start(&config, &[], std::path::PathBuf::from("unused.csv")).unwrap();
    assert_eq!(ctx.output_path(), &std::path::PathBuf::from("unused.csv"));
    let report = ctx.stop();
    assert!(report.disable_errors.is_empty());
    assert!(report.read_errors.is_empty());
    assert_eq!(report.data.get(Column::Cycles), Some(Value::Count(0)));
    let columns: Vec<Column> = csv_record(&report.data).into_iter().map(|(c, _)| c).collect();
    assert_eq!(columns, vec![Column::Time, Column::Cycles, Column::Ended]);
}
