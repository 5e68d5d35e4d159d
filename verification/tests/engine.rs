use vfsops::delta::{DeltaRow, compute};
use vfsops::filter::filter_rows;
use vfsops::index::zone_hashmap;
use vfsops::records::{NamedField, NamedValue, RawRecord, Stats};

fn raw(instance: i32, zone: &str, t10: u64, t100: u64, t1s: u64, t10s: u64) -> RawRecord {
    RawRecord {
        instance,
        fields: vec![
            NamedField {
                name: String::from("zonename"),
                value: NamedValue::Text(String::from(zone)),
            },
            NamedField { name: String::from("10ms_ops"), value: NamedValue::UInt64(t10) },
            NamedField { name: String::from("100ms_ops"), value: NamedValue::UInt64(t100) },
            NamedField { name: String::from("1s_ops"), value: NamedValue::UInt64(t1s) },
            NamedField { name: String::from("10s_ops"), value: NamedValue::UInt64(t10s) },
        ],
    }
}

fn row(instance: i32, name: &str, t10: u64, t100: u64, t1s: u64, t10s: u64, first: bool) -> DeltaRow {
    DeltaRow {
        instance,
        name: String::from(name),
        stats: Stats { ten_ms: t10, one_hundred_ms: t100, one_second: t1s, ten_second: t10s },
        is_first: first,
    }
}

#[test]
fn zone_hashmap_last_record_wins() {
    let ix = zone_hashmap(vec![raw(1, "old", 1, 1, 1, 1), raw(1, "new", 9, 9, 9, 9)]).unwrap();
    let z = ix.lookup(1).unwrap();
    assert_eq!(z.name.as_str(), "new");
    assert_eq!(z.stats.ten_ms, 9);
}

#[test]
fn zone_hashmap_lookup_absent_id() {
    let ix = zone_hashmap(vec![raw(1, "global", 1, 2, 3, 4)]).unwrap();
    assert!(ix.lookup(2).is_none());
}

#[test]
fn zone_hashmap_fails_on_malformed_record() {
    let mut bad = raw(1, "global", 1, 2, 3, 4);
    bad.fields.remove(3);
    assert!(zone_hashmap(vec![bad]).is_err());
}

#[test]
fn compute_with_empty_snapshot_yields_nothing() {
    let cur = zone_hashmap(Vec::new()).unwrap();
    let rows = compute(&cur, &None);
    assert!(rows.is_empty());
}

#[test]
fn compute_first_poll_yields_raw_totals() {
    let cur = zone_hashmap(vec![raw(1, "global", 100, 0, 0, 0), raw(2, "ngz-001", 50, 0, 0, 0)])
        .unwrap();
    let rows = compute(&cur, &None);
    assert_eq!(rows.len(), 2);
    for r in &rows {
        assert!(r.is_first);
    }
    let g = rows.iter().find(|r| r.instance == 1).unwrap();
    assert_eq!(g.stats.ten_ms, 100);
    let n = rows.iter().find(|r| r.instance == 2).unwrap();
    assert_eq!(n.stats.ten_ms, 50);
}

#[test]
fn compute_deltas_subtract_previous() {
    let prev = zone_hashmap(vec![raw(1, "global", 100, 10, 1, 0)]).unwrap();
    let cur = zone_hashmap(vec![raw(1, "global", 105, 13, 1, 2)]).unwrap();
    let rows = compute(&cur, &Some(prev));
    assert_eq!(rows.len(), 1);
    assert!(!rows[0].is_first);
    assert_eq!(rows[0].stats.ten_ms, 5);
    assert_eq!(rows[0].stats.one_hundred_ms, 3);
    assert_eq!(rows[0].stats.one_second, 0);
    assert_eq!(rows[0].stats.ten_second, 2);
}

#[test]
fn compute_clamps_counter_regression_to_zero() {
    let prev = zone_hashmap(vec![raw(1, "global", 100, 7, 0, 0)]).unwrap();
    let cur = zone_hashmap(vec![raw(1, "global", 40, 9, 0, 0)]).unwrap();
    let rows = compute(&cur, &Some(prev));
    assert_eq!(rows.len(), 1);
    assert_eq!(rows[0].stats.ten_ms, 0);
    assert_eq!(rows[0].stats.one_hundred_ms, 2);
}

#[test]
fn compute_skips_tenant_without_baseline() {
    let prev = zone_hashmap(vec![raw(1, "global", 100, 0, 0, 0)]).unwrap();
    let cur = zone_hashmap(vec![raw(1, "global", 101, 0, 0, 0), raw(7, "late", 999, 9, 9, 9)])
        .unwrap();
    let rows = compute(&cur, &Some(prev));
    assert_eq!(rows.len(), 1);
    assert_eq!(rows[0].instance, 1);
}

#[test]
fn filter_drops_zero_activity_rows() {
    let rows = vec![row(1, "busy", 5, 0, 0, 0, false), row(2, "idle", 0, 0, 0, 0, false)];
    let kept = filter_rows(&rows, &None, false);
    assert_eq!(kept.len(), 1);
    assert_eq!(kept[0].name.as_str(), "busy");
}

#[test]
fn filter_show_all_keeps_zero_rows() {
    let rows = vec![row(1, "busy", 5, 0, 0, 0, false), row(2, "idle", 0, 0, 0, 0, false)];
    let kept = filter_rows(&rows, &None, true);
    assert_eq!(kept.len(), 2);
}

#[test]
fn filter_keeps_zero_first_samples() {
    let rows = vec![row(1, "idle", 0, 0, 0, 0, true)];
    let kept = filter_rows(&rows, &None, false);
    assert_eq!(kept.len(), 1);
}

#[test]
fn filter_zone_matches_exactly_even_when_idle() {
    let rows = vec![row(1, "global", 5, 0, 0, 0, false), row(2, "ngz-001", 0, 0, 0, 0, false)];
    let kept = filter_rows(&rows, &Some(String::from("ngz-001")), false);
    assert_eq!(kept.len(), 1);
    assert_eq!(kept[0].name.as_str(), "ngz-001");
}

#[test]
fn filter_zone_uses_full_untruncated_name() {
    let rows = vec![row(1, "verylongzonename", 5, 0, 0, 0, false)];
    let full = filter_rows(&rows, &Some(String::from("verylongzonename")), false);
    assert_eq!(full.len(), 1);
    let truncated = filter_rows(&rows, &Some(String::from("verylong")), false);
    assert_eq!(truncated.len(), 0);
}
