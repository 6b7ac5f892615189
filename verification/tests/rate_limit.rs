use ghfetch::rate_limit::{
    block_key, decide_globals, decide_rate, global_ip_key, global_writes, logins_key, rate_key,
    rate_write, read_count, window_start, GlobalCheckResult, PendingWrite, PendingWrites,
    RateDecision,
};
use ghfetch::types::{ClientId, RateConfig, Username};

fn client() -> ClientId {
    ClientId("203.0.113.7".to_string())
}

fn user() -> Username {
    Username::new("Octo").unwrap()
}

fn admitted(d: RateDecision) -> ((u32, u64), PendingWrites) {
    match d {
        RateDecision::Admitted(info, w) => (info, w),
        other => panic!("expected an admitted request, got {other:?}"),
    }
}

#[test]
fn default_config_is_thirty_per_minute_then_five_minutes() {
    let cfg = RateConfig::default();
    assert_eq!(cfg.max_req, 30);
    assert_eq!(cfg.window_secs, 60);
    assert_eq!(cfg.block_secs, 300);
}

#[test]
fn window_starts_on_the_minute() {
    assert_eq!(window_start(1_700_000_123, 60), 1_700_000_100);
    assert_eq!(window_start(120, 60), 120);
    assert_eq!(window_start(59, 60), 0);
}

#[test]
fn keys_name_client_login_and_window() {
    assert_eq!(global_ip_key(&client(), 120), "rl:gl:203.0.113.7:120");
    assert_eq!(logins_key(0), "rl:ugl:0");
    assert_eq!(rate_key(&client(), &user(), 1_700_000_100), "rl:203.0.113.7:octo:1700000100");
    assert_eq!(block_key(&client(), &user()), "block:203.0.113.7:octo");
}

#[test]
fn stored_counts_read_like_u32_parse() {
    assert_eq!(read_count(None), 0);
    assert_eq!(read_count(Some("17")), 17);
    assert_eq!(read_count(Some("+17")), 17);
    assert_eq!(read_count(Some("007")), 7);
    assert_eq!(read_count(Some("4294967295")), u32::MAX);
    assert_eq!(read_count(Some("4294967296")), 0);
    assert_eq!(read_count(Some("-1")), 0);
    assert_eq!(read_count(Some("")), 0);
    assert_eq!(read_count(Some("+")), 0);
    assert_eq!(read_count(Some("12a")), 0);
    assert_eq!(read_count(Some(" 1")), 0);
    for s in ["0", "1", "42", "99999", "4294967295"] {
        assert_eq!(read_count(Some(s)), s.parse::<u32>().unwrap());
    }
}

fn logins(n: usize) -> String {
    (0..n).map(|i| format!("user{i}")).collect::<Vec<_>>().join(",")
}

#[test]
fn client_counter_counts_up_and_blocks_at_limit() {
    let r = decide_globals(130, &client(), &user(), Some("99"), None);
    assert!(!r.global_ip_blocked);
    let ip = r.global_ip_write.unwrap();
    assert_eq!(ip.key, "rl:gl:203.0.113.7:120");
    assert_eq!(ip.value, "100");
    assert_eq!(ip.ttl, 60);

    let r = decide_globals(130, &client(), &user(), Some("100"), None);
    assert!(r.global_ip_blocked);
    assert_eq!(r.global_ip_write.unwrap().value, "101");
}

#[test]
fn global_counter_saturates() {
    let r = decide_globals(0, &client(), &user(), Some("4294967295"), None);
    assert!(r.global_ip_blocked);
    assert_eq!(r.global_ip_write.unwrap().value, "4294967295");
}

#[test]
fn first_login_of_the_minute_is_listed() {
    let r = decide_globals(130, &client(), &user(), None, None);
    assert!(!r.username_blocked);
    let w = r.username_write.unwrap();
    assert_eq!(w.key, "rl:ugl:120");
    assert_eq!(w.value, "octo");
    assert_eq!(w.ttl, 60);
    let r = decide_globals(130, &client(), &user(), None, Some(""));
    assert_eq!(r.username_write.unwrap().value, "octo");
}

#[test]
fn new_login_is_added_until_sixty_distinct_ones() {
    let r = decide_globals(130, &client(), &user(), None, Some(&logins(59)));
    assert!(!r.username_blocked);
    let w = r.username_write.unwrap();
    assert_eq!(w.value, format!("{},octo", logins(59)));
    // The sixty-first distinct login of the minute is refused, and nothing is added.
    let r = decide_globals(130, &client(), &user(), None, Some(&logins(60)));
    assert!(r.username_blocked);
    assert!(r.username_write.is_none());
}

#[test]
fn listed_login_is_never_blocked_by_the_login_limit() {
    let list = format!("{},octo", logins(70));
    let r = decide_globals(130, &client(), &user(), None, Some(&list));
    assert!(!r.username_blocked);
    assert!(r.username_write.is_none());
    let r = decide_globals(130, &client(), &user(), None, Some("a,octo,b"));
    assert!(!r.username_blocked);
    assert!(r.username_write.is_none());
}

#[test]
fn replaying_a_minute_admits_sixty_distinct_logins() {
    let mut stored: Option<String> = None;
    let mut refused = Vec::new();
    for n in 0..80usize {
        // Every login is asked for twice in a row.
        for _ in 0..2 {
            let u = Username::new(&format!("login-{n}")).unwrap();
            let r = decide_globals(5, &client(), &u, None, stored.as_deref());
            if r.username_blocked {
                refused.push(n);
            }
            if let Some(w) = r.username_write {
                stored = Some(w.value);
            }
        }
    }
    assert_eq!(refused.len(), 40);
    assert_eq!(refused[0], 60);
    assert_eq!(stored.unwrap().split(',').count(), 60);
}

#[test]
fn block_refuses() {
    let cfg = RateConfig::default();
    assert!(matches!(decide_rate(1000, &client(), &user(), cfg, true, None), RateDecision::Blocked));
    assert!(matches!(
        decide_rate(1000, &client(), &user(), cfg, true, Some("0")),
        RateDecision::Blocked
    ));
}

#[test]
fn admitted_request_counts_and_reports_budget() {
    let cfg = RateConfig::default();
    let ((remaining, reset), w) =
        admitted(decide_rate(1_700_000_123, &client(), &user(), cfg, false, Some("4")));
    assert_eq!(remaining, 25);
    assert_eq!(reset, 1_700_000_160);
    assert_eq!(w.key, "rl:203.0.113.7:octo:1700000100");
    assert_eq!(w.count_value, "5");
    assert_eq!(w.count_ttl, 60);
    assert!(w.block_key.is_none());
    assert!(w.block_ttl.is_none());
}

#[test]
fn counter_ttl_never_under_a_minute() {
    let cfg = RateConfig { max_req: 5, window_secs: 300, block_secs: 600 };
    let (_, w) = admitted(decide_rate(299, &client(), &user(), cfg, false, None));
    // One second of the window is left; the counter is kept a minute.
    assert_eq!(w.count_ttl, 60);
    let (_, w) = admitted(decide_rate(100, &client(), &user(), cfg, false, None));
    assert_eq!(w.count_ttl, 200);
}

#[test]
fn reaching_the_limit_refuses_and_sets_the_block() {
    let cfg = RateConfig::default();
    match decide_rate(1_700_000_123, &client(), &user(), cfg, false, Some("30")) {
        RateDecision::LimitReached(w) => {
            assert_eq!(w.count_value, "30");
            assert_eq!(w.count_ttl, 60);
            assert_eq!(w.block_key.as_deref(), Some("block:203.0.113.7:octo"));
            assert_eq!(w.block_ttl, Some(300));
        }
        other => panic!("expected the limit to be reached, got {other:?}"),
    }
}

#[test]
fn replaying_a_window_admits_exactly_max_requests() {
    // Each request reads what the previous one stored; the thirty-first is refused and sets
    // the block, which refuses every later one.
    let cfg = RateConfig::default();
    let mut stored: Option<String> = None;
    let mut block: Option<String> = None;
    let mut admitted_count = 0;
    for n in 0..40u32 {
        let decision =
            decide_rate(600, &client(), &user(), cfg, block.is_some(), stored.as_deref());
        match decision {
            RateDecision::Blocked => assert!(n > 30),
            RateDecision::LimitReached(w) => {
                assert_eq!(n, 30);
                let p = rate_write(w).unwrap();
                assert_eq!(p.key, "block:203.0.113.7:octo");
                assert_eq!(p.value, "blocked");
                assert_eq!(p.ttl, 300);
                block = Some(p.value);
            }
            RateDecision::Admitted((remaining, _), w) => {
                assert!(n < 30);
                assert_eq!(remaining, 30 - (n + 1));
                admitted_count += 1;
                stored = Some(rate_write(w).unwrap().value);
            }
        }
    }
    assert_eq!(admitted_count, 30);
    assert_eq!(stored.as_deref(), Some("30"));
}

#[test]
fn rate_write_picks_block_or_count() {
    let w = PendingWrites {
        key: "k".to_string(),
        count_value: "3".to_string(),
        count_ttl: 60,
        block_key: None,
        block_ttl: None,
    };
    let p = rate_write(w).unwrap();
    assert_eq!((p.key.as_str(), p.value.as_str(), p.ttl), ("k", "3", 60));
    let w = PendingWrites {
        key: "k".to_string(),
        count_value: "30".to_string(),
        count_ttl: 60,
        block_key: Some("b".to_string()),
        block_ttl: Some(300),
    };
    let p = rate_write(w).unwrap();
    assert_eq!((p.key.as_str(), p.value.as_str(), p.ttl), ("b", "blocked", 300));
    let w = PendingWrites {
        key: "k".to_string(),
        count_value: "30".to_string(),
        count_ttl: 60,
        block_key: Some("b".to_string()),
        block_ttl: None,
    };
    assert!(rate_write(w).is_none());
}

#[test]
fn global_writes_in_order() {
    let r = GlobalCheckResult {
        global_ip_blocked: false,
        username_blocked: false,
        global_ip_write: Some(PendingWrite { key: "a".to_string(), value: "1".to_string(), ttl: 60 }),
        username_write: Some(PendingWrite { key: "b".to_string(), value: "2".to_string(), ttl: 60 }),
    };
    let ws = global_writes(r);
    let keys: Vec<&str> = ws.iter().map(|w| w.key.as_str()).collect();
    assert_eq!(keys, vec!["a", "b"]);
}

#[test]
fn next_request_of_the_window_has_one_less() {
    let cfg = RateConfig::default();
    let ((rem1, reset1), w1) =
        admitted(decide_rate(1_700_000_110, &client(), &user(), cfg, false, Some("7")));
    let ((rem2, reset2), w2) = admitted(decide_rate(
        1_700_000_159,
        &client(),
        &user(),
        cfg,
        false,
        Some(&w1.count_value),
    ));
    assert_eq!((rem1, rem2), (22, 21));
    assert_eq!(reset1, reset2);
    assert_eq!(w1.key, w2.key);
    // The request that leaves nothing is followed by a refusal that sets the block.
    let ((rem, _), w) = admitted(decide_rate(1_700_000_110, &client(), &user(), cfg, false, Some("29")));
    assert_eq!(rem, 0);
    match decide_rate(1_700_000_111, &client(), &user(), cfg, false, Some(&w.count_value)) {
        RateDecision::LimitReached(w) => {
            assert_eq!(w.block_key.as_deref(), Some("block:203.0.113.7:octo"));
            assert_eq!(w.block_ttl, Some(300));
        }
        other => panic!("expected the limit to be reached, got {other:?}"),
    }
}

#[test]
fn block_holds_for_its_time_to_live() {
    let cfg = RateConfig::default();
    let p = match decide_rate(1000, &client(), &user(), cfg, false, Some("30")) {
        RateDecision::LimitReached(w) => rate_write(w).unwrap(),
        other => panic!("expected the limit to be reached, got {other:?}"),
    };
    assert_eq!(p.key, block_key(&client(), &user()));
    let at = 1000u64;
    for t in [1000u64, 1001, 1299] {
        let found = at <= t && t < at + p.ttl;
        assert!(found);
        assert!(matches!(
            decide_rate(t, &client(), &user(), cfg, found, Some("0")),
            RateDecision::Blocked
        ));
    }
    // Once the block is gone, a fresh window admits again.
    let t = 1300u64;
    let found = at <= t && t < at + p.ttl;
    assert!(!found);
    assert!(matches!(
        decide_rate(t, &client(), &user(), cfg, found, None),
        RateDecision::Admitted(..)
    ));
}
