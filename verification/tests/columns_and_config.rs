use libgreen::columns::{column_order, BundleKind, Column};
use libgreen::config::{char_is_white_space, parse_config};
use libgreen::events::MissEvent;

fn names(cols: &[Column]) -> Vec<&'static str> {
    cols.iter().map(|c| c.name()).collect()
}

#[test]
fn column_order_is_bundle_columns_then_ended() {
    let order = column_order();
    assert_eq!(
        names(&order),
        vec![
            "time",
            "pkg",
            "cores",
            "gpu",
            "ram",
            "psys",
            "cycles",
            "l1d_misses",
            "l1i_misses",
            "llc_misses",
            "branch_misses",
            "c1_core_residency",
            "c3_core_residency",
            "c6_core_residency",
            "c7_core_residency",
            "c2_pkg_residency",
            "c3_pkg_residency",
            "c6_pkg_residency",
            "c8_pkg_residency",
            "c10_pkg_residency",
            "ended",
        ]
    );
}

#[test]
fn column_names_are_distinct() {
    let order = column_order();
    let ns = names(&order);
    for i in 0..ns.len() {
        for j in 0..ns.len() {
            if i != j {
                assert_ne!(ns[i], ns[j]);
            }
        }
    }
}

#[test]
fn kind_columns_concatenate_to_the_order() {
    let mut all = Vec::new();
    for k in [BundleKind::Time, BundleKind::Rapl, BundleKind::Cycles, BundleKind::Misses, BundleKind::CStates] {
        all.extend(k.columns());
    }
    all.push(Column::Ended);
    assert_eq!(all, column_order());
    assert_eq!(names(&BundleKind::Rapl.columns()), vec!["pkg", "cores", "gpu", "ram", "psys"]);
}

#[test]
fn miss_event_names() {
    assert_eq!(MissEvent::L1d.name(), "l1d_misses");
    assert_eq!(MissEvent::L1i.name(), "l1i_misses");
    assert_eq!(MissEvent::Llc.name(), "llc_misses");
    assert_eq!(MissEvent::Branch.name(), "branch_misses");
}

#[test]
fn parse_config_selects_named_metrics() {
    let c = parse_config("rapl,cycles");
    assert!(c.rapl && c.cycles && !c.misses && !c.cstates);
    let c = parse_config("misses,cstates");
    assert!(!c.rapl && !c.cycles && c.misses && c.cstates);
}

#[test]
fn parse_config_trims_names() {
    let c = parse_config(" rapl ,\tmisses\n, cstates,cycles ");
    assert!(c.rapl && c.misses && c.cstates && c.cycles);
    let c = parse_config("\u{3000}cycles\u{a0}");
    assert!(c.cycles && !c.rapl);
}

#[test]
fn parse_config_ignores_unknown_and_partial_names() {
    let c = parse_config("");
    assert!(!c.rapl && !c.misses && !c.cstates && !c.cycles);
    let c = parse_config("RAPL,cycle,rapl cycles,x,,");
    assert!(!c.rapl && !c.misses && !c.cstates && !c.cycles);
    let c = parse_config(",,rapl,,rapl");
    assert!(c.rapl && !c.cycles);
}

#[test]
fn white_space_is_unicode_white_space() {
    for c in [' ', '\t', '\n', '\r', '\u{b}', '\u{c}', '\u{85}', '\u{a0}', '\u{1680}', '\u{2000}', '\u{200a}', '\u{2028}', '\u{2029}', '\u{202f}', '\u{205f}', '\u{3000}'] {
        assert!(char_is_white_space(c));
        assert!(c.is_whitespace());
    }
    for c in ['a', ',', '\u{200b}', '\u{0}', '_', '\u{feff}'] {
        assert!(!char_is_white_space(c));
        assert!(!c.is_whitespace());
    }
}
