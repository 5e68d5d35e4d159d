use vfsops::records::{NamedField, NamedValue, RawRecord};
use vfsops::sched::{PollConfig, poll_done, poll_init, poll_step};

fn raw(instance: i32, zone: &str, t10: u64) -> RawRecord {
    RawRecord {
        instance,
        fields: vec![
            NamedField {
                name: String::from("zonename"),
                value: NamedValue::Text(String::from(zone)),
            },
            NamedField { name: String::from("10ms_ops"), value: NamedValue::UInt64(t10) },
            NamedField { name: String::from("100ms_ops"), value: NamedValue::UInt64(0) },
            NamedField { name: String::from("1s_ops"), value: NamedValue::UInt64(0) },
            NamedField { name: String::from("10s_ops"), value: NamedValue::UInt64(0) },
        ],
    }
}

fn config(show_all: bool, zone: Option<&str>, count: Option<i32>) -> PollConfig {
    PollConfig {
        hide_header: false,
        show_all,
        zone_filter: zone.map(String::from),
        count,
    }
}

fn poll1() -> Vec<RawRecord> {
    vec![raw(1, "global", 100), raw(2, "ngz-001", 50)]
}

fn poll2() -> Vec<RawRecord> {
    vec![raw(1, "global", 105), raw(2, "ngz-001", 50)]
}

fn line(name: &str, t10: u64) -> String {
    format!("{:>8} {:>10} {:>10} {:>10} {:>10}", name, t10, 0, 0, 0)
}

#[test]
fn init_emits_header_once() {
    let cfg = config(false, None, None);
    let (state, header) = poll_init(&cfg);
    assert!(header.is_some());
    assert!(state.previous.is_none());
    let hidden = PollConfig { hide_header: true, ..config(false, None, None) };
    let (_, none) = poll_init(&hidden);
    assert!(none.is_none());
}

#[test]
fn first_poll_prints_raw_totals_for_all() {
    let cfg = config(false, None, None);
    let (state, _) = poll_init(&cfg);
    let (_, lines) = poll_step(state, &cfg, poll1()).unwrap();
    assert_eq!(lines, vec![line("global", 100), line("ngz-001", 50)]);
}

#[test]
fn second_poll_prints_only_active_tenants() {
    let cfg = config(false, None, None);
    let (state, _) = poll_init(&cfg);
    let (state, _) = poll_step(state, &cfg, poll1()).unwrap();
    let (_, lines) = poll_step(state, &cfg, poll2()).unwrap();
    assert_eq!(lines, vec![line("global", 5)]);
}

#[test]
fn second_poll_with_show_all_prints_zero_rows() {
    let cfg = config(true, None, None);
    let (state, _) = poll_init(&cfg);
    let (state, _) = poll_step(state, &cfg, poll1()).unwrap();
    let (_, lines) = poll_step(state, &cfg, poll2()).unwrap();
    assert_eq!(lines, vec![line("global", 5), line("ngz-001", 0)]);
}

#[test]
fn second_poll_with_zone_filter_prints_only_that_tenant() {
    let cfg = config(false, Some("ngz-001"), None);
    let (state, _) = poll_init(&cfg);
    let (state, _) = poll_step(state, &cfg, poll1()).unwrap();
    let (_, lines) = poll_step(state, &cfg, poll2()).unwrap();
    assert_eq!(lines, vec![line("ngz-001", 0)]);
}

#[test]
fn header_reappears_every_six_iterations() {
    let cfg = config(true, None, None);
    let header = {
        let (_, h) = poll_init(&cfg);
        h.unwrap()
    };
    let (mut state, _) = poll_init(&cfg);
    let mut header_steps: Vec<usize> = Vec::new();
    for step in 1..=13 {
        let (next, lines) = poll_step(state, &cfg, poll1()).unwrap();
        if !lines.is_empty() && lines[0] == header {
            header_steps.push(step);
        }
        state = next;
    }
    assert_eq!(header_steps, vec![7, 13]);
}

#[test]
fn hidden_headers_never_appear() {
    let cfg = PollConfig { hide_header: true, ..config(true, None, None) };
    let (mut state, header) = poll_init(&cfg);
    assert!(header.is_none());
    for _ in 1..=13 {
        let (next, lines) = poll_step(state, &cfg, poll1()).unwrap();
        // every poll prints exactly the two data rows, never a header line
        assert_eq!(lines.len(), 2);
        state = next;
    }
}

#[test]
fn bounded_run_stops_at_count() {
    let cfg = config(false, None, Some(2));
    let (state, _) = poll_init(&cfg);
    assert!(!poll_done(&state, &cfg));
    let (state, _) = poll_step(state, &cfg, poll1()).unwrap();
    assert!(!poll_done(&state, &cfg));
    let (state, _) = poll_step(state, &cfg, poll2()).unwrap();
    assert!(poll_done(&state, &cfg));
    assert_eq!(state.nloops, 2);
}

#[test]
fn unbounded_run_is_never_done() {
    let cfg = config(false, None, None);
    let (state, _) = poll_init(&cfg);
    let (state, _) = poll_step(state, &cfg, poll1()).unwrap();
    assert!(!poll_done(&state, &cfg));
    assert_eq!(state.nloops, 0);
}

#[test]
fn malformed_snapshot_is_fatal() {
    let cfg = config(false, None, None);
    let (state, _) = poll_init(&cfg);
    let mut bad = raw(1, "global", 100);
    bad.fields.remove(0);
    assert!(poll_step(state, &cfg, vec![bad]).is_err());
}

#[test]
fn baseline_is_replaced_each_poll() {
    let cfg = config(false, None, None);
    let (state, _) = poll_init(&cfg);
    let (state, _) = poll_step(state, &cfg, poll1()).unwrap();
    let (state, _) = poll_step(state, &cfg, poll2()).unwrap();
    // a third poll identical to the second sees no activity at all
    let (_, lines) = poll_step(state, &cfg, poll2()).unwrap();
    assert!(lines.is_empty());
}
