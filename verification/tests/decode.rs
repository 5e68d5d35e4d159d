use vfsops::records::{
    DecodeError, NamedField, NamedValue, RawRecord, decode_record, get_stats, read_string,
    read_u64,
};

fn field_u64(name: &str, v: u64) -> NamedField {
    NamedField { name: String::from(name), value: NamedValue::UInt64(v) }
}

fn field_text(name: &str, v: &str) -> NamedField {
    NamedField { name: String::from(name), value: NamedValue::Text(String::from(v)) }
}

fn full_fields(zone: &str, t10: u64, t100: u64, t1s: u64, t10s: u64) -> Vec<NamedField> {
    vec![
        field_text("zonename", zone),
        field_u64("10ms_ops", t10),
        field_u64("100ms_ops", t100),
        field_u64("1s_ops", t1s),
        field_u64("10s_ops", t10s),
    ]
}

#[test]
fn read_u64_accepts_uint64() {
    assert_eq!(read_u64(&NamedValue::UInt64(7)), Some(7));
}

#[test]
fn read_u64_rejects_other_shapes() {
    assert_eq!(read_u64(&NamedValue::Text(String::from("7"))), None);
    assert_eq!(read_u64(&NamedValue::Other), None);
}

#[test]
fn read_string_accepts_text() {
    let v = NamedValue::Text(String::from("global"));
    assert_eq!(read_string(&v).map(|s| s.as_str()), Some("global"));
}

#[test]
fn read_string_rejects_other_shapes() {
    assert!(read_string(&NamedValue::UInt64(7)).is_none());
    assert!(read_string(&NamedValue::Other).is_none());
}

#[test]
fn get_stats_reads_all_four_buckets() {
    let fields = full_fields("global", 1, 2, 3, 4);
    let s = get_stats(&fields).unwrap();
    assert_eq!(s.ten_ms, 1);
    assert_eq!(s.one_hundred_ms, 2);
    assert_eq!(s.one_second, 3);
    assert_eq!(s.ten_second, 4);
}

#[test]
fn get_stats_reports_missing_bucket() {
    let fields = vec![
        field_text("zonename", "global"),
        field_u64("10ms_ops", 1),
        field_u64("1s_ops", 3),
        field_u64("10s_ops", 4),
    ];
    match get_stats(&fields) {
        Err(DecodeError::MissingField(n)) => assert_eq!(n.as_str(), "100ms_ops"),
        _ => panic!("expected a missing-field error"),
    }
}

#[test]
fn get_stats_reports_wrong_shape() {
    let fields = vec![
        field_u64("10ms_ops", 1),
        field_u64("100ms_ops", 2),
        field_text("1s_ops", "three"),
        field_u64("10s_ops", 4),
    ];
    match get_stats(&fields) {
        Err(DecodeError::WrongShape(n)) => assert_eq!(n.as_str(), "1s_ops"),
        _ => panic!("expected a wrong-shape error"),
    }
}

#[test]
fn get_stats_names_first_bad_bucket() {
    let fields = vec![field_u64("100ms_ops", 2), field_u64("1s_ops", 3)];
    match get_stats(&fields) {
        Err(DecodeError::MissingField(n)) => assert_eq!(n.as_str(), "10ms_ops"),
        _ => panic!("expected a missing-field error"),
    }
}

#[test]
fn decode_record_builds_zone_record() {
    let raw = RawRecord { instance: 5, fields: full_fields("ngz-001", 10, 20, 30, 40) };
    let z = decode_record(&raw).unwrap();
    assert_eq!(z.instance, 5);
    assert_eq!(z.name.as_str(), "ngz-001");
    assert_eq!(z.stats.ten_ms, 10);
    assert_eq!(z.stats.ten_second, 40);
}

#[test]
fn decode_record_requires_zonename() {
    let raw = RawRecord {
        instance: 5,
        fields: vec![
            field_u64("10ms_ops", 1),
            field_u64("100ms_ops", 2),
            field_u64("1s_ops", 3),
            field_u64("10s_ops", 4),
        ],
    };
    match decode_record(&raw) {
        Err(DecodeError::MissingField(n)) => assert_eq!(n.as_str(), "zonename"),
        _ => panic!("expected a missing-field error"),
    }
}

#[test]
fn decode_record_rejects_numeric_zonename() {
    let mut fields = full_fields("global", 1, 2, 3, 4);
    fields[0] = field_u64("zonename", 9);
    let raw = RawRecord { instance: 0, fields };
    match decode_record(&raw) {
        Err(DecodeError::WrongShape(n)) => assert_eq!(n.as_str(), "zonename"),
        _ => panic!("expected a wrong-shape error"),
    }
}
