use blockandfocus::config::Config;
use blockandfocus::dns::{
    build_answer_response, parse_query, process_dns_query, DnsOutcome, IpAnswer,
};
use blockandfocus::state::AppState;

/// An A query (or another type) for a dotted name, with one question.
fn query_packet(id: u16, name: &str, qtype: u16) -> Vec<u8> {
    let mut p = vec![
        (id / 256) as u8,
        (id % 256) as u8,
        0x01, // recursion desired
        0x00,
        0x00,
        0x01, // one question
        0x00,
        0x00,
        0x00,
        0x00,
        0x00,
        0x00,
    ];
    for label in name.split('.') {
        p.push(label.len() as u8);
        p.extend_from_slice(label.as_bytes());
    }
    p.push(0);
    p.push((qtype / 256) as u8);
    p.push((qtype % 256) as u8);
    p.push(0);
    p.push(1);
    p
}

fn fresh_state() -> AppState {
    AppState::new(Config::default())
}

#[test]
fn test_parse_query_reads_first_question() {
    let p = query_packet(0x1234, "www.facebook.com", 1);
    let q = parse_query(&p).expect("query should parse");
    assert_eq!(q.id, 0x1234);
    assert_eq!(q.name, "www.facebook.com.");
    assert_eq!(q.qtype, 1);
    assert!(q.recursion_desired);
}

#[test]
fn test_parse_query_rejects_garbage() {
    assert!(parse_query(&vec![1, 2, 3]).is_none());
    // no questions
    let mut p = query_packet(7, "example.com", 1);
    p[5] = 0;
    assert!(parse_query(&p).is_none());
}

#[test]
fn test_blocked_a_query_gets_zero_address() {
    let mut state = fresh_state();
    let p = query_packet(0x1234, "www.facebook.com", 1);
    match process_dns_query(&mut state, &p) {
        DnsOutcome::Respond(r) => {
            assert_eq!(r[0], 0x12);
            assert_eq!(r[1], 0x34);
            assert_eq!(r[2], 129); // response, recursion desired echoed
            assert_eq!(r[3], 128); // recursion available, NOERROR
            assert_eq!(r[7], 1); // one answer
            assert_eq!(r[r.len() - 7], 60); // TTL 60
            assert_eq!(&r[r.len() - 4..], &[0, 0, 0, 0]); // 0.0.0.0
        },
        _ => panic!("expected a synthetic response"),
    }
    assert_eq!(state.stats.queries_blocked, 1);
    assert_eq!(state.stats.queries_forwarded, 0);
}

#[test]
fn test_blocked_other_type_gets_nxdomain() {
    let mut state = fresh_state();
    let p = query_packet(9, "facebook.com", 15);
    match process_dns_query(&mut state, &p) {
        DnsOutcome::Respond(r) => {
            assert_eq!(r[3], 131); // recursion available, NXDOMAIN
            assert_eq!(r[7], 0); // no answers
        },
        _ => panic!("expected a synthetic response"),
    }
}

#[test]
fn test_unblocked_query_is_forwarded() {
    let mut state = fresh_state();
    let p = query_packet(0x0042, "example.com", 1);
    match process_dns_query(&mut state, &p) {
        DnsOutcome::Forward(q) => {
            assert_eq!(q.id, 0x0042);
            assert_eq!(q.name, "example.com.");
        },
        _ => panic!("expected a forwarded query"),
    }
    assert_eq!(state.stats.queries_blocked, 0);
    assert_eq!(state.stats.queries_forwarded, 1);
}

#[test]
fn test_forwarded_answer_keeps_query_id() {
    let mut state = fresh_state();
    let p = query_packet(0x0042, "example.com", 1);
    let q = match process_dns_query(&mut state, &p) {
        DnsOutcome::Forward(q) => q,
        _ => panic!("expected a forwarded query"),
    };
    let ips = vec![IpAnswer::V4([93, 184, 216, 34])];
    let r = build_answer_response(&q, &ips);
    assert_eq!(r[0], 0x00);
    assert_eq!(r[1], 0x42);
    assert_eq!(r[3], 128); // NOERROR
    assert_eq!(r[7], 1); // one answer
    assert_eq!(&r[r.len() - 4..], &[93, 184, 216, 34]);
}

#[test]
fn test_counters_step_once_per_decided_query() {
    let mut state = fresh_state();
    let blocked = query_packet(1, "facebook.com", 1);
    let forwarded = query_packet(2, "example.com", 1);
    let malformed = vec![0, 1, 2];
    let _ = process_dns_query(&mut state, &blocked);
    let _ = process_dns_query(&mut state, &forwarded);
    let outcome = process_dns_query(&mut state, &malformed);
    assert!(matches!(outcome, DnsOutcome::Drop));
    assert_eq!(state.stats.queries_blocked + state.stats.queries_forwarded, 2);
}

#[test]
fn test_empty_blocklist_forwards_everything() {
    let mut config = Config::default();
    config.blocking.domains = Vec::new();
    let mut state = AppState::new(config);
    for name in ["facebook.com", "a.b.c", "x"] {
        let p = query_packet(3, name, 1);
        match process_dns_query(&mut state, &p) {
            DnsOutcome::Forward(_) => {},
            _ => panic!("nothing should be blocked"),
        }
    }
}

#[test]
fn test_bypass_suspends_blocking() {
    let mut state = fresh_state();
    state.bypass_until = Some(chrono::Utc::now().timestamp() + 600);
    let p = query_packet(5, "facebook.com", 1);
    match process_dns_query(&mut state, &p) {
        DnsOutcome::Forward(_) => {},
        _ => panic!("a bypassed query goes upstream"),
    }
}
