use kairos::workforce::pool_insert;
use kairos::workforce::{call_outcome, replay_outcome, CallError};
use kairos::workforce::transition_target;
use kairos::world::group_targets;
use kairos::workforce::{collision_content, create_content, create_title, edit_content};
use kairos::workforce::{plan_read, ReadPlan};
use kairos::world::{bystander_verdict, check_admin_role, discover_boards, member_email, unavailable_breach, SnapshotResult};
use kairos::token::{grant_form, grant_token, token_endpoint, GrantResponse, TokenCache};
use kairos::mcp::{check_initialize, check_initialized, check_tool_call, judge_tool_reply, rpc_message, RpcFacts};
use std::time::Duration;

use kairos::breach_log::BreachLog;
use kairos::canonical::{canonical_text, lex_le_exec, section_text};
use kairos::config::{parse_duration, parse_duration_secs, OpMix, Thresholds};
use kairos::prom::{is_pool_metric, metric_entries, parse_metric_line};
use kairos::report::{exit_code, outcome, totals};
use kairos::rng::{choose_op, SmallRng};
use kairos::stats::{
    check_snapshot, error_rate, mid_run_breaches, percentile_us, sorted_copy, Breach, ClassSummary, OpClass, Outcome,
    Recorder, Severity,
};
use kairos::workforce::{WsAction, WsCounters, WsEvent};
use kairos::world::{
    bystander_unavailable_status, changed_sections, history_findings, setup_err, BoardInfo,
    BystanderUnavailable, World,
};

fn pairs(list: &[(&str, &str)]) -> Vec<(String, String)> {
    list.iter().map(|(k, v)| (k.to_string(), v.to_string())).collect()
}

#[test]
fn duration_parsing() {
    assert_eq!(parse_duration("45s").unwrap(), Duration::from_secs(45));
    assert_eq!(parse_duration("10m").unwrap(), Duration::from_secs(600));
    assert_eq!(parse_duration("4h").unwrap(), Duration::from_secs(14_400));
    assert_eq!(parse_duration("600").unwrap(), Duration::from_secs(600));
    assert!(parse_duration("0m").is_err());
    assert!(parse_duration("").is_err());
    assert!(parse_duration("10x").is_err());
    assert!(parse_duration("m").is_err());
}

#[test]
fn duration_errors_name_the_input() {
    assert_eq!(parse_duration_secs("").unwrap_err(), "duration is empty");
    assert!(parse_duration_secs("10x").unwrap_err().contains("10x"));
    assert_eq!(parse_duration_secs("2h").unwrap(), 7200);
}

#[test]
fn pool_metric_filter() {
    assert!(is_pool_metric(r#"db_pool_connections{state="idle"}"#));
    assert!(is_pool_metric("bb8_connections_in_use"));
    assert!(!is_pool_metric(r#"http_requests_total{route="/api"}"#));
}

#[test]
fn pool_filter_reads_the_name_only() {
    // A label value mentioning a pool does not make the metric a pool gauge.
    assert!(!is_pool_metric(r#"http_requests_total{route="/pool"}"#));
}

#[test]
fn parses_prometheus_text() {
    let body = r#"
# HELP db_pool_connections Current pool connections.
# TYPE db_pool_connections gauge
db_pool_connections{state="idle"} 8
db_pool_connections{state="used"} 2
http_requests_total{route="/api/tasks",status="200"} 1234 1699999999
malformed line without value
just_a_name_no_value
"#;
    let entries = metric_entries(body);
    let parsed: Vec<(String, f64)> = entries
        .iter()
        .filter_map(|(k, v)| v.parse::<f64>().ok().map(|v| (k.clone(), v)))
        .collect();
    assert_eq!(parsed.len(), 3, "{parsed:?}");
    assert_eq!(parsed[0], (r#"db_pool_connections{state="idle"}"#.to_string(), 8.0));
    assert_eq!(
        parsed[2],
        (r#"http_requests_total{route="/api/tasks",status="200"}"#.to_string(), 1234.0)
    );
}

#[test]
fn metric_keys_keep_spaces_inside_labels() {
    let line: Vec<char> = r#"m{a="x y"} 3 17"#.chars().collect();
    let (key, value) = parse_metric_line(&line).expect("entry");
    assert_eq!(key, r#"m{a="x y"}"#);
    assert_eq!(value, "3");
    let blank: Vec<char> = "   ".chars().collect();
    assert!(parse_metric_line(&blank).is_none());
}

fn breach(severity: Severity) -> Breach {
    Breach::now(severity, "error_rate", "detail".to_string())
}

#[test]
fn outcome_and_exit_code_policy() {
    assert_eq!(outcome(&[]), "PASS");
    assert_eq!(outcome(&[breach(Severity::Breach)]), "FAIL");
    assert_eq!(
        outcome(&[breach(Severity::Breach), breach(Severity::Fatal)]),
        "FATAL"
    );
    assert_eq!(exit_code("PASS"), 0);
    assert_eq!(exit_code("FAIL"), 1);
    assert_eq!(exit_code("FATAL"), 2);
}

fn summary(class: &str, ok: u64, conflicts: u64, errors: u64, p95_ms: u64) -> ClassSummary {
    ClassSummary {
        class: class.to_string(),
        ok,
        expected_conflicts: conflicts,
        errors,
        p50_us: p95_ms * 1000 / 2,
        p95_us: p95_ms * 1000,
        p99_us: p95_ms * 1200,
        max_us: p95_ms * 2000,
    }
}

#[test]
fn totals_math() {
    let summaries = vec![summary("edit", 90, 8, 2, 2), summary("read", 100, 0, 0, 2)];
    let t = totals(&summaries);
    assert_eq!(t.recorded_calls, 200);
    assert_eq!(t.ok, 190);
    assert_eq!(t.expected_conflicts, 8);
    assert_eq!(t.errors, 2);
    assert!((t.error_rate.num as f64 / t.error_rate.den as f64 - 0.01).abs() < 1e-9);
}

#[test]
fn percentile_nearest_rank() {
    assert_eq!(percentile_us(&[], 95), 0);
    assert_eq!(percentile_us(&[7], 50), 7);
    let v: Vec<u64> = (1..=100).collect();
    assert_eq!(percentile_us(&v, 50), 50);
    assert_eq!(percentile_us(&v, 95), 95);
    assert_eq!(percentile_us(&v, 99), 99);
    assert_eq!(percentile_us(&v, 100), 100);
}

#[test]
fn sorted_copy_orders_latencies() {
    assert_eq!(sorted_copy(&[30, 10, 20, 10]), vec![10, 10, 20, 30]);
}

#[test]
fn error_rate_excludes_deliberate_conflicts_from_numerator() {
    // 90 ok + 8 deliberate 409s + 2 errors -> 2/100, NOT 10/100.
    let s = vec![summary("edit", 90, 8, 2, 10)];
    let r = error_rate(&s);
    assert_eq!((r.num, r.den), (2, 100));
    assert!((r.num as f64 / r.den as f64 - 0.02).abs() < 1e-9);
    let empty = error_rate(&[]);
    assert_eq!((empty.num, empty.den), (0, 0));
}

#[test]
fn snapshot_checks_flag_rate_and_p95() {
    let thresholds = Thresholds::default_thresholds(); // 1% error rate, 50ms p95
    let healthy = vec![summary("read", 1000, 0, 5, 12)];
    assert!(check_snapshot(&healthy, &thresholds).is_empty());

    let erroring = vec![summary("create", 80, 0, 20, 12)];
    let breaches = check_snapshot(&erroring, &thresholds);
    assert_eq!(breaches.len(), 1);
    assert_eq!(breaches[0].check, "error_rate");
    assert_eq!(breaches[0].severity, Severity::Breach);

    let slow = vec![summary("transition", 100, 0, 0, 61), summary("mcp", 100, 0, 0, 200)];
    let breaches = check_snapshot(&slow, &thresholds);
    assert_eq!(breaches.len(), 1);
    assert_eq!(breaches[0].check, "latency_p95");
    assert!(breaches[0].detail.starts_with("transition:"));

    let tiny = vec![summary("search", 5, 0, 0, 400)];
    assert!(check_snapshot(&tiny, &thresholds).is_empty());
}

#[test]
fn recorder_records_and_summarizes() {
    let mut recorder = Recorder::new();
    for ms in [5u64, 10, 15, 20] {
        recorder.record(OpClass::Read, ms * 1000, Outcome::Success);
    }
    recorder.record(OpClass::ConflictEdit, 8000, Outcome::ExpectedConflict);
    recorder.record(
        OpClass::Create,
        30_000,
        Outcome::Error("409 CONFLICT: boom".to_string()),
    );
    let summaries = recorder.summaries();
    let read = summaries.iter().find(|s| s.class == "read").unwrap();
    assert_eq!(read.ok, 4);
    assert_eq!(read.errors, 0);
    assert!(read.p95_us >= 15_000 && read.max_us >= 19_000);
    let conflict = summaries.iter().find(|s| s.class == "conflict_edit").unwrap();
    assert_eq!(conflict.expected_conflicts, 1);
    let create = summaries.iter().find(|s| s.class == "create").unwrap();
    assert_eq!(create.errors, 1);
    assert_eq!(recorder.error_samples().len(), 1);
}

#[test]
fn percentiles_are_ordered_observed_latencies() {
    let mut recorder = Recorder::new();
    let observed = [40u64, 7, 300, 12, 12, 95, 3, 61, 18, 250, 5];
    for us in observed {
        recorder.record(OpClass::Search, us, Outcome::Success);
    }
    let summaries = recorder.summaries();
    let s = summaries.iter().find(|s| s.class == "search").unwrap();
    assert!(s.p50_us <= s.p95_us && s.p95_us <= s.p99_us && s.p99_us <= s.max_us);
    for p in [s.p50_us, s.p95_us, s.p99_us, s.max_us] {
        assert!(observed.contains(&p));
    }
    assert_eq!((s.p50_us, s.max_us), (18, 300));
}

#[test]
fn summaries_come_out_in_name_order() {
    let mut recorder = Recorder::new();
    recorder.record(OpClass::Traverse, 1, Outcome::Success);
    recorder.record(OpClass::Create, 1, Outcome::Success);
    recorder.record(OpClass::ConflictEdit, 1, Outcome::ExpectedConflict);
    let names: Vec<String> = recorder.summaries().into_iter().map(|s| s.class).collect();
    assert_eq!(names, vec!["conflict_edit", "create", "traverse"]);
}

#[test]
fn rng_is_deterministic_and_bounded() {
    let mut a = SmallRng::new(42);
    let mut b = SmallRng::new(42);
    for _ in 0..100 {
        let (x, y) = (a.next_u64(), b.next_u64());
        assert_eq!(x, y);
    }
    for _ in 0..1000 {
        assert!(a.below(7) < 7);
        let u = a.unit_bits() as f64 / (1u64 << 53) as f64;
        assert!((0.0..1.0).contains(&u));
    }
}

#[test]
fn zero_seed_still_generates() {
    let mut r = SmallRng::new(0);
    let mut s = SmallRng::new(1);
    assert_eq!(r.next_u64(), s.next_u64());
    assert_ne!(r.next_u64(), 0);
}

fn mix(weights: [u32; 8]) -> OpMix {
    OpMix {
        create: weights[0],
        edit: weights[1],
        conflict_edit: weights[2],
        transition: weights[3],
        read: weights[4],
        search: weights[5],
        traverse: weights[6],
        mcp: weights[7],
    }
}

#[test]
fn op_choice_follows_weights_and_degrades_without_a_pool() {
    let only_edit = mix([0, 1, 0, 0, 0, 0, 0, 0]);
    let mut rng = SmallRng::new(7);
    assert_eq!(choose_op(&only_edit, &mut rng, true), OpClass::Create);
    assert_eq!(choose_op(&only_edit, &mut rng, false), OpClass::Edit);

    let default_mix = OpMix::default_mix();
    let mut seen = std::collections::BTreeSet::new();
    for _ in 0..10_000 {
        seen.insert(choose_op(&default_mix, &mut rng, false).name());
    }
    let all = [
        OpClass::Create,
        OpClass::Edit,
        OpClass::ConflictEdit,
        OpClass::Transition,
        OpClass::Read,
        OpClass::Search,
        OpClass::Traverse,
        OpClass::Mcp,
    ];
    assert_eq!(seen.len(), all.len(), "{seen:?}");
}

#[test]
fn default_mix_total() {
    assert_eq!(OpMix::default_mix().total(), 100);
}

#[test]
fn changed_sections_attributes_differences() {
    let baseline = pairs(&[("boards", "b"), ("tasks", "a")]);
    assert!(changed_sections(&baseline, &baseline.clone()).is_empty());

    let current = pairs(&[("activity", "x"), ("tasks", "MUTATED")]);
    let changed = changed_sections(&baseline, &current);
    assert_eq!(
        changed,
        vec![
            "boards (missing)".to_string(),
            "tasks".to_string(),
            "activity (new)".to_string()
        ]
    );
}

#[test]
fn setup_errors_name_the_stage() {
    assert_eq!(setup_err("list boards", "HTTP 500"), "setup (list boards): HTTP 500");
}

#[test]
fn board_lookup_finds_the_first_match() {
    let world = World {
        delivery_boards: vec![
            BoardInfo {
                id: "b-1".into(),
                slug: "one".into(),
                targets: vec![("c-1".into(), vec!["c-2".into()])],
            },
            BoardInfo { id: "b-2".into(), slug: "two".into(), targets: vec![] },
        ],
        collision_codes: vec![],
        strategy_code: "S-1".into(),
        soak_initiative_code: "I-1".into(),
        search_terms: vec![],
    };
    assert_eq!(world.board_by_id("b-2").map(|b| b.slug.as_str()), Some("two"));
    assert!(world.board_by_id("b-3").is_none());
}

#[test]
fn history_bound_flags_growth_without_edits() {
    let (bound, breaches) = history_findings("DEMO-T-0001", 3, 3, 100);
    assert_eq!(bound.history_rows, 3);
    assert!(breaches.is_empty());
    let (_, breaches) = history_findings("DEMO-T-0001", 3, 5, 4);
    assert_eq!(breaches.len(), 2);
    assert!(breaches[0].detail.starts_with("DEMO-T-0001: 5 history rows for version 3"));
    assert_eq!(
        breaches[1].detail,
        "DEMO-T-0001: 5 history rows exceeds the configured cap 4"
    );
}

#[test]
fn bystander_status_lines() {
    let failed = BystanderUnavailable::Failed("bystander boards: 500".into());
    assert_eq!(bystander_unavailable_status(&failed), "unavailable: bystander boards: 500");
    let not_admin = BystanderUnavailable::NotDeploymentAdmin("forbidden".into());
    assert!(bystander_unavailable_status(&not_admin)
        .starts_with("unavailable: caller is not a deployment admin (forbidden)"));
}

#[test]
fn breach_log_prints_each_key_three_times() {
    let mut log = BreachLog::new();
    let mut printed = 0;
    let mut suppressed = 0;
    for n in 0..5 {
        let b = Breach::now(Severity::Breach, "latency_p95", format!("read: p95 {n}ms"));
        let notice = log.record(b);
        assert_eq!(notice.key, "latency_p95|read");
        if notice.print {
            printed += 1;
        }
        if notice.suppressed_from_now {
            suppressed += 1;
        }
    }
    assert_eq!((printed, suppressed), (3, 1));
    assert_eq!(log.records_ref().len(), 5);
    assert!(!log.fatal());
    let other = log.record(Breach::now(Severity::Fatal, "tenant_isolation", "x".into()));
    assert!(other.print);
    assert!(log.fatal());
}

#[test]
fn ws_counters_follow_the_subscriber() {
    let mut c = WsCounters::new();
    assert_eq!(c.observe(WsEvent::Connected), WsAction::Listen);
    assert_eq!(c.observe(WsEvent::Delivered), WsAction::Listen);
    assert_eq!(c.observe(WsEvent::Idle), WsAction::Listen);
    assert_eq!(c.observe(WsEvent::StreamFailed), WsAction::Reconnect);
    assert_eq!(c.observe(WsEvent::ConnectFailed), WsAction::PauseThenReconnect);
    let r = c.report(2);
    assert_eq!((r.subscribers, r.connects, r.events_received, r.reconnects), (2, 1, 1, 2));
}

#[test]
fn duration_errors_quote_the_input() {
    assert_eq!(
        parse_duration_secs("10x").unwrap_err(),
        "duration \"10x\": unknown unit \"x\" (use s/m/h)"
    );
    assert_eq!(parse_duration_secs("0m").unwrap_err(), "duration \"0m\" must be positive");
}

#[test]
fn pool_replaces_a_random_slot_once_full() {
    let mut rng = SmallRng::new(3);
    let mut pool: Vec<String> = Vec::new();
    pool_insert(&mut pool, "A".into(), &mut rng);
    assert_eq!(pool, vec!["A".to_string()]);
    let mut full: Vec<String> = (0..200).map(|i| format!("T-{i}")).collect();
    let mut probe = SmallRng::new(3);
    let slot = probe.below(200) as usize;
    pool_insert(&mut full, "NEW".into(), &mut rng);
    assert_eq!(full.len(), 200);
    assert_eq!(full[slot], "NEW");
}

#[test]
fn call_outcomes_follow_the_conflict_design() {
    assert!(matches!(call_outcome(None, false), Outcome::Success));
    let conflict = CallError::Conflict("409".into());
    assert!(matches!(call_outcome(Some(&conflict), true), Outcome::ExpectedConflict));
    assert!(matches!(call_outcome(Some(&conflict), false), Outcome::Error(ref m) if m == "409"));
    assert!(matches!(replay_outcome("T-1", 4, Some(&conflict)), Outcome::ExpectedConflict));
    match replay_outcome("T-1", 4, None) {
        Outcome::Error(m) => assert_eq!(
            m,
            "T-1: stale-version PATCH (v4) unexpectedly succeeded \u{2014} optimistic concurrency (A-0004) not enforced?"
        ),
        _ => panic!("a replayed stale version must be an error"),
    }
}

#[test]
fn transitions_pick_a_target_of_the_current_column() {
    let targets = group_targets(&pairs(&[("c-1", "c-2"), ("c-2", "c-3"), ("c-1", "c-4")]));
    assert_eq!(
        targets,
        vec![
            ("c-1".to_string(), vec!["c-2".to_string(), "c-4".to_string()]),
            ("c-2".to_string(), vec!["c-3".to_string()])
        ]
    );
    let world = World {
        delivery_boards: vec![BoardInfo { id: "b".into(), slug: "b".into(), targets }],
        collision_codes: vec!["T-9".into()],
        strategy_code: "S".into(),
        soak_initiative_code: "I".into(),
        search_terms: vec![],
    };
    let mut rng = SmallRng::new(5);
    let t = transition_target(&world, "b", "c-1", &mut rng).expect("a target");
    assert!(t == "c-2" || t == "c-4");
    assert_eq!(transition_target(&world, "b", "c-3", &mut rng), None);
    assert_eq!(transition_target(&world, "x", "c-1", &mut rng), None);
}

#[test]
fn workload_texts() {
    assert_eq!(create_title("alice", 7), "Soak alice #7");
    assert_eq!(create_content("bob", "DEMO-I-1"), "Soak workload item for bob (initiative DEMO-I-1).");
    assert_eq!(collision_content("svc", 12), "Soak collision #12 by svc.");
    let edit = edit_content("carol", 3);
    assert!(edit.starts_with("Soak edit #3 by carol at ") && edit.ends_with('.'));
    assert!(edit.len() > "Soak edit #3 by carol at .".len());
}

#[test]
fn reads_plan_in_range() {
    let mut rng = SmallRng::new(11);
    for _ in 0..500 {
        match plan_read(&mut rng, 3, 2) {
            ReadPlan::Collision(i) => assert!(i < 2),
            ReadPlan::Pool(i) => assert!(i < 3),
            ReadPlan::BoardItems | ReadPlan::ListTasks => {}
        }
        assert!(!matches!(plan_read(&mut rng, 0, 2), ReadPlan::Pool(_)));
    }
}

#[test]
fn setup_checks_and_discovery() {
    assert!(check_admin_role("admin").is_ok());
    assert_eq!(
        check_admin_role("member").unwrap_err(),
        "setup: alice is \"member\", not the seeded org admin \u{2014} wrong tenant or fixture?"
    );
    assert_eq!(member_email("svc"), "svc@kairos.test");
    let found = discover_boards(&pairs(&[
        ("d1", "delivery"),
        ("i1", "initiative"),
        ("s1", "strategy"),
        ("d2", "delivery"),
    ]))
    .unwrap();
    assert_eq!(found.delivery, vec![0, 3]);
    assert_eq!(found.initiative, "i1");
    assert_eq!(found.strategy.as_deref(), Some("s1"));
    assert!(discover_boards(&pairs(&[("i1", "initiative")]))
        .unwrap_err()
        .contains("no delivery boards"));
    assert!(discover_boards(&pairs(&[("d1", "delivery")]))
        .unwrap_err()
        .contains("no initiative board"));
}

#[test]
fn token_cache_refreshes_before_expiry() {
    let mut cache = TokenCache::new();
    assert_eq!(cache.fresh(0), None);
    cache.store("tok", 1_000, Some(600));
    assert_eq!(cache.fresh(1_000).as_deref(), Some("tok"));
    assert_eq!(cache.fresh(301_000), None);
    cache.store("tok2", 0, None);
    assert_eq!(cache.fresh(3_000_000).as_deref(), Some("tok2"));
    assert_eq!(cache.fresh(3_299_999).as_deref(), Some("tok2"));
    assert_eq!(cache.fresh(3_300_000), None);
    let ok = GrantResponse {
        success: true,
        status: "200 OK".into(),
        body: "{}".into(),
        access_token: Some("abc".into()),
        expires_in: None,
    };
    assert_eq!(grant_token("alice", &ok).unwrap(), "abc");
    let denied = GrantResponse { success: false, status: "401 Unauthorized".into(), ..ok };
    assert_eq!(
        grant_token("alice", &denied).unwrap_err(),
        "password grant for alice failed: HTTP 401 Unauthorized {}"
    );
    assert_eq!(grant_form("u", "p", "c")[3], ("scope".to_string(), "openid email profile".to_string()));
    assert_eq!(token_endpoint("http://dex"), "http://dex/token");
}

#[test]
fn rpc_messages_in_json_or_sse_bodies() {
    let plain = r#"{"jsonrpc":"2.0","id":1,"result":{}}"#;
    assert!(rpc_message(plain).is_ok());
    let sse = "event: message\ndata: {\"jsonrpc\":\"2.0\",\"id\":2,\"result\":{\"isError\":true}}\n\n";
    let facts = rpc_message(sse).unwrap();
    assert!(facts.is_error == Some(true) && !facts.has_error);
    assert_eq!(
        rpc_message("nothing here").unwrap_err(),
        "no JSON-RPC message in response body: \"nothing here\""
    );
    assert_eq!(check_tool_call("whoami", 500, "boom").unwrap_err(), "whoami: HTTP 500: boom");
    assert!(check_tool_call("get_item", 200, sse).unwrap_err().starts_with("get_item: tool error: "));
    let protocol = r#"{"jsonrpc":"2.0","id":3,"error":{"code":-32601}}"#;
    assert!(check_tool_call("x", 200, protocol).unwrap_err().starts_with("x: protocol error: "));
    assert!(check_tool_call("x", 200, plain).is_ok());
    assert_eq!(check_initialize(200, plain, Some("s-1".into())).unwrap(), "s-1");
    assert_eq!(
        check_initialize(200, plain, None).unwrap_err(),
        "initialize returned no Mcp-Session-Id"
    );
    assert!(check_initialized(202, "").is_ok());
    assert_eq!(check_initialized(200, "x").unwrap_err(), "notifications/initialized: HTTP 200: x");
}

#[test]
fn tool_replies_are_judged_by_their_flags() {
    let facts = |has_error: bool, is_error: Option<bool>| RpcFacts {
        has_jsonrpc: true,
        has_error,
        is_error,
        text: "{\"jsonrpc\":\"2.0\"}".to_string(),
        result_text: "{\"isError\":true}".to_string(),
    };
    assert_eq!(judge_tool_reply("search", &Ok(facts(false, Some(false)))), Ok(()));
    assert_eq!(judge_tool_reply("search", &Ok(facts(false, None))), Ok(()));
    assert_eq!(
        judge_tool_reply("search", &Ok(facts(true, Some(true)))),
        Err("search: protocol error: {\"jsonrpc\":\"2.0\"}".to_string())
    );
    assert_eq!(
        judge_tool_reply("search", &Ok(facts(false, Some(true)))),
        Err("search: tool error: {\"isError\":true}".to_string())
    );
    assert_eq!(
        judge_tool_reply("search", &Err("no message".to_string())),
        Err("search: no message".to_string())
    );
}

fn strings(list: &[&str]) -> Vec<String> {
    list.iter().map(|s| s.to_string()).collect()
}

#[test]
fn canonical_text_sorts_like_strings_do() {
    let items = strings(&["{\"b\":1}", "é", "{\"a\":2}", "z", "{\"a\":2}x", ""]);
    let mut expected = items.clone();
    expected.sort();
    assert_eq!(canonical_text(&items), expected.join("\n"));
    assert_eq!(canonical_text(&[]), "");
}

#[test]
fn snapshot_sections_ignore_list_order() {
    let a = strings(&["t-2", "t-1", "t-3"]);
    let b = strings(&["t-3", "t-2", "t-1"]);
    assert_eq!(canonical_text(&a), canonical_text(&b));
    assert_eq!(section_text(3, &a), "total=3\nt-1\nt-2\nt-3");
    assert_eq!(section_text(3, &a), section_text(3, &b));
    assert_eq!(section_text(-1, &[]), "total=-1\n");
}

#[test]
fn lexicographic_order_puts_prefixes_first() {
    let c = |s: &str| s.chars().collect::<Vec<char>>();
    assert!(lex_le_exec(&c("ab"), &c("abc")));
    assert!(!lex_le_exec(&c("abc"), &c("ab")));
    assert!(lex_le_exec(&c("z"), &c("é")));
    assert!(lex_le_exec(&c(""), &c("")));
}

#[test]
fn warm_up_disarms_only_latency() {
    let thresholds = Thresholds::default_thresholds();
    let both = vec![summary("transition", 80, 0, 20, 61)];
    let checks = |v: Vec<Breach>| v.into_iter().map(|b| b.check).collect::<Vec<String>>();
    assert_eq!(checks(mid_run_breaches(&both, &thresholds, false)), vec!["error_rate", "latency_p95"]);
    assert_eq!(checks(mid_run_breaches(&both, &thresholds, true)), vec!["error_rate"]);
    assert_eq!(checks(check_snapshot(&both, &thresholds)), vec!["error_rate", "latency_p95"]);
}

#[test]
fn ledger_keeps_every_breach_and_the_fatal_flag() {
    let mut log = BreachLog::new();
    for n in 0..600 {
        log.record(Breach::now(Severity::Breach, "error_rate", format!("run: {n}")));
    }
    log.record(Breach::now(Severity::Fatal, "tenant_isolation", "bystander changed".into()));
    assert_eq!(log.records_ref().len(), 601);
    assert!(log.fatal());
    assert_eq!(outcome(log.records_ref()), "FATAL");
    assert_eq!(exit_code(outcome(log.records_ref())), 2);
}

#[test]
fn tool_error_flag_must_be_true() {
    let plain = r#"{"jsonrpc":"2.0","id":1,"result":{}}"#;
    assert_eq!(rpc_message(plain).unwrap().is_error, None);
    let odd = r#"{"jsonrpc":"2.0","id":1,"result":{"isError":"yes"}}"#;
    assert_eq!(rpc_message(odd).unwrap().is_error, None);
    assert!(check_tool_call("x", 200, odd).is_ok());
}

#[test]
fn isolation_changes_are_fatal_and_stop_mid_run() {
    let changed = SnapshotResult::Changed(vec!["tasks".to_string(), "teams (new)".to_string()]);
    let (status, breach, stop) = bystander_verdict("soak-bystander", &changed, true);
    let breach = breach.unwrap();
    assert!(status.is_none() && stop);
    assert_eq!(breach.severity, Severity::Fatal);
    assert_eq!(breach.check, "tenant_isolation");
    assert_eq!(
        breach.detail,
        "bystander tenant \"soak-bystander\" changed mid-run (sections: tasks, teams (new)) \u{2014} STOPPING the run"
    );
    let (status, breach, stop) = bystander_verdict("b", &changed, false);
    assert_eq!(status.as_deref(), Some("CHANGED"));
    assert_eq!(breach.unwrap().detail, "bystander tenant \"b\" changed over the run (sections: tasks, teams (new))");
    assert!(!stop);

    let same = SnapshotResult::Changed(vec![]);
    let (status, breach, stop) = bystander_verdict("b", &same, false);
    assert_eq!(status.as_deref(), Some("unchanged"));
    assert!(breach.is_none() && !stop);
    let (status, breach, stop) = bystander_verdict("b", &same, true);
    assert!(status.is_none() && breach.is_none() && !stop);

    let failed = SnapshotResult::Failed("timeout".to_string());
    let (status, breach, stop) = bystander_verdict("b", &failed, true);
    let breach = breach.unwrap();
    assert!(status.is_none() && !stop && breach.severity == Severity::Breach);
    assert_eq!(breach.detail, "mid-run bystander snapshot failed: timeout");
    let (status, breach, _) = bystander_verdict("b", &failed, false);
    assert_eq!(status.as_deref(), Some("unavailable at end: timeout"));
    assert_eq!(breach.unwrap().detail, "final bystander snapshot failed: timeout");

    assert!(unavailable_breach("unavailable: x", false).is_none());
    let b = unavailable_breach("unavailable: x", true).unwrap();
    assert_eq!((b.severity, b.check.as_str(), b.detail.as_str()), (Severity::Breach, "tenant_isolation", "unavailable: x"));
}

#[test]
fn room_is_checked_per_outcome() {
    let r = Recorder::new();
    assert!(r.has_room(OpClass::Read, &Outcome::Success));
    assert!(r.has_room(OpClass::Read, &Outcome::Error("x".into())));
    assert!(r.has_room(OpClass::Mcp, &Outcome::ExpectedConflict));
}
