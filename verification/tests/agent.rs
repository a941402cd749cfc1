use mobile_agent::category::{category_label, parse_category, parse_category_filter, MemoryCategory};
use mobile_agent::model::{strategy_name, AgentState, ProviderConfig, RoutingStrategy};
use mobile_agent::prompt::{
    chat_request, completion_result, json_failure, request_failure, status_failure, turn_keys,
};
use mobile_agent::registry::{initial_strategy, parse_strategy};
use mobile_agent::routing::pick_providers;
use mobile_agent::session::RouteStep;
use mobile_agent::text::{normalize, push_decimal, strip_trailing_char, trim_chars};

fn agent(strategy: RoutingStrategy, providers: &[(&str, u32)]) -> AgentState {
    let mut s = AgentState::new("/data/zeroclaw".to_string(), strategy);
    for (name, prio) in providers {
        s.add_provider(
            name.to_string(),
            format!("key-{name}"),
            format!("model-{name}"),
            format!("https://{name}.example/v1/"),
            *prio,
        );
    }
    s
}

fn chars(s: &str) -> Vec<char> {
    s.chars().collect()
}

#[test]
fn trims_unicode_whitespace_on_both_ends() {
    assert_eq!(trim_chars("\u{3000}\t hello world \n\u{a0}"), chars("hello world"));
    assert_eq!(trim_chars("   "), chars(""));
    assert_eq!(trim_chars(""), chars(""));
    assert_eq!(trim_chars("x"), chars("x"));
}

#[test]
fn normalize_folds_ascii_case_only() {
    assert_eq!(normalize("  Round_Robin "), chars("round_robin"));
    assert_eq!(normalize("ÄBC"), chars("Äbc"));
}

#[test]
fn strips_trailing_slashes_only() {
    assert_eq!(strip_trailing_char("https://api.x/v1///", '/'), "https://api.x/v1");
    assert_eq!(strip_trailing_char("/a/b", '/'), "/a/b");
    assert_eq!(strip_trailing_char("///", '/'), "");
}

#[test]
fn decimal_rendering() {
    let mut s = String::from("n=");
    push_decimal(&mut s, 0);
    assert_eq!(s, "n=0");
    let mut s = String::new();
    push_decimal(&mut s, 1_700_000_123_456);
    assert_eq!(s, "1700000123456");
    let mut s = String::new();
    push_decimal(&mut s, u128::MAX);
    assert_eq!(s, u128::MAX.to_string());
}

#[test]
fn parses_builtin_categories_loosely() {
    assert_eq!(parse_category("core"), MemoryCategory::Core);
    assert_eq!(parse_category(" DAILY "), MemoryCategory::Daily);
    assert_eq!(parse_category("Conversation\n"), MemoryCategory::Conversation);
}

#[test]
fn unknown_category_becomes_custom_normalised() {
    assert_eq!(parse_category("  Project_Notes "), MemoryCategory::Custom("project_notes".to_string()));
    assert_eq!(parse_category(""), MemoryCategory::Custom(String::new()));
}

#[test]
fn category_filter_keeps_absence() {
    assert_eq!(parse_category_filter(&None), None);
    assert_eq!(parse_category_filter(&Some("Core".to_string())), Some(MemoryCategory::Core));
}

#[test]
fn category_name_reads_back() {
    let c = parse_category(" My Notes ");
    assert_eq!(parse_category(&category_label(&c)), c);
    assert_eq!(category_label(&MemoryCategory::Conversation), "conversation");
}

#[test]
fn strategy_names() {
    assert_eq!(strategy_name(&RoutingStrategy::Fallback), "fallback");
    assert_eq!(strategy_name(&RoutingStrategy::RoundRobin), "round_robin");
    assert_eq!(strategy_name(&RoutingStrategy::Priority), "priority");
}

#[test]
fn strategy_parsing() {
    assert_eq!(parse_strategy("RoundRobin"), Some(RoutingStrategy::RoundRobin));
    assert_eq!(parse_strategy(" round_robin"), Some(RoutingStrategy::RoundRobin));
    assert_eq!(parse_strategy("PRIORITY"), Some(RoutingStrategy::Priority));
    assert_eq!(parse_strategy("fallback"), Some(RoutingStrategy::Fallback));
    assert_eq!(parse_strategy("random"), None);
    assert_eq!(initial_strategy("random"), RoutingStrategy::Fallback);
    assert_eq!(initial_strategy("priority"), RoutingStrategy::Priority);
}

#[test]
fn strategy_name_round_trip_concrete() {
    for st in [RoutingStrategy::Fallback, RoutingStrategy::RoundRobin, RoutingStrategy::Priority] {
        assert_eq!(parse_strategy(strategy_name(&st)), Some(st));
    }
}

#[test]
fn add_provider_counts_and_starts_healthy() {
    let mut s = agent(RoutingStrategy::Fallback, &[]);
    assert_eq!(s.add_provider("groq".into(), "gsk_1".into(), "llama3".into(), "https://g".into(), 2), 1);
    assert_eq!(s.add_provider("openai".into(), "sk-1".into(), "gpt-4o".into(), "https://o".into(), 1), 2);
    let list = s.list_providers();
    assert_eq!(list.len(), 2);
    assert_eq!(list[0].name, "groq");
    assert_eq!(list[0].model, "llama3");
    assert_eq!(list[0].base_url, "https://g");
    assert_eq!(list[0].priority, 2);
    assert!(list[0].is_healthy);
    assert_eq!(list[1].name, "openai");
}

#[test]
fn remove_provider_removes_every_match() {
    let mut s = agent(RoutingStrategy::Fallback, &[("a", 1), ("b", 2), ("a", 3)]);
    assert!(s.remove_provider("a"));
    let names: Vec<String> = s.list_providers().into_iter().map(|p| p.name).collect();
    assert_eq!(names, vec!["b".to_string()]);
    assert!(!s.remove_provider("a"));
    assert!(!s.remove_provider("zzz"));
    assert_eq!(s.list_providers().len(), 1);
}

#[test]
fn remove_after_add_concrete() {
    let mut s = agent(RoutingStrategy::Fallback, &[("x", 1)]);
    s.add_provider("y".into(), "k".into(), "m".into(), "u".into(), 0);
    assert!(s.remove_provider("y"));
    assert!(s.position_of("y").is_none());
    assert_eq!(s.list_providers().len(), 1);
}

#[test]
fn update_key_touches_first_match_and_heals() {
    let mut s = agent(RoutingStrategy::Fallback, &[("a", 1), ("a", 2)]);
    let _ = s.route_begin();
    assert!(s.update_provider_key("a", "new-key".into()));
    assert_eq!(s.find_provider("a").unwrap().api_key, "new-key");
    assert_eq!(s.providers[1].config.api_key, "key-a");
    assert!(!s.update_provider_key("nobody", "k".into()));
}

#[test]
fn update_model_keeps_health() {
    let mut s = agent(RoutingStrategy::Fallback, &[("a", 1)]);
    let (mut session, _) = s.route_begin();
    s.route_next(&mut session, Err("down".into()));
    assert!(!s.providers[0].healthy);
    assert!(s.update_provider_model("a", "bigger".into()));
    assert_eq!(s.providers[0].config.model, "bigger");
    assert!(!s.providers[0].healthy);
    assert!(!s.update_provider_model("b", "x".into()));
}

#[test]
fn find_provider_reports_missing_name() {
    let s = agent(RoutingStrategy::Fallback, &[("a", 1)]);
    assert_eq!(s.find_provider("gemini").unwrap_err(), "Provider 'gemini' not found");
    assert_eq!(s.find_provider("a").unwrap().base_url, "https://a.example/v1/");
}

#[test]
fn set_strategy_resets_rotation() {
    let mut s = agent(RoutingStrategy::RoundRobin, &[("a", 1), ("b", 1)]);
    pick_providers(&mut s);
    assert_eq!(s.round_robin_idx, 1);
    assert_eq!(s.set_routing_strategy(" Round_Robin ").unwrap(), "round_robin");
    assert_eq!(s.round_robin_idx, 0);
    assert_eq!(s.set_routing_strategy("priority").unwrap(), "priority");
    assert_eq!(s.strategy, RoutingStrategy::Priority);
}

#[test]
fn unknown_strategy_is_refused() {
    let mut s = agent(RoutingStrategy::RoundRobin, &[("a", 1)]);
    pick_providers(&mut s);
    assert_eq!(
        s.set_routing_strategy("  Random "),
        Err("Unknown strategy 'random'. Use: fallback, round_robin, priority".to_string())
    );
    assert_eq!(s.strategy, RoutingStrategy::RoundRobin);
    assert_eq!(s.round_robin_idx, 1);
}

#[test]
fn no_providers_no_picks() {
    for st in [RoutingStrategy::Fallback, RoutingStrategy::RoundRobin, RoutingStrategy::Priority] {
        let mut s = agent(st, &[]);
        assert!(pick_providers(&mut s).is_empty());
        assert_eq!(s.round_robin_idx, 0);
    }
}

#[test]
fn fallback_orders_by_priority_stably() {
    let mut s = agent(RoutingStrategy::Fallback, &[("a", 3), ("b", 1), ("c", 2), ("d", 1), ("e", 0)]);
    assert_eq!(pick_providers(&mut s), vec![4, 1, 3, 2, 0]);
    assert_eq!(s.round_robin_idx, 0);
}

#[test]
fn round_robin_rotates() {
    let mut s = agent(RoutingStrategy::RoundRobin, &[("a", 1), ("b", 1), ("c", 1)]);
    assert_eq!(pick_providers(&mut s), vec![0, 1, 2]);
    assert_eq!(pick_providers(&mut s), vec![1, 2, 0]);
    assert_eq!(pick_providers(&mut s), vec![2, 0, 1]);
    assert_eq!(pick_providers(&mut s), vec![0, 1, 2]);
    assert_eq!(s.round_robin_idx, 4);
}

#[test]
fn round_robin_counter_wraps() {
    let mut s = agent(RoutingStrategy::RoundRobin, &[("a", 1), ("b", 1), ("c", 1)]);
    s.round_robin_idx = usize::MAX;
    let start = usize::MAX % 3;
    assert_eq!(pick_providers(&mut s)[0], start);
    assert_eq!(s.round_robin_idx, 0);
}

#[test]
fn priority_picks_first_lowest() {
    let mut s = agent(RoutingStrategy::Priority, &[("a", 5), ("b", 2), ("c", 2)]);
    assert_eq!(pick_providers(&mut s), vec![1]);
    let mut f = agent(RoutingStrategy::Fallback, &[("a", 5), ("b", 2), ("c", 2)]);
    assert_eq!(pick_providers(&mut f)[0], 1);
}

#[test]
fn route_without_providers() {
    let mut s = agent(RoutingStrategy::Fallback, &[]);
    let (_, step) = s.route_begin();
    match step {
        RouteStep::Done(Err(m)) => assert_eq!(m, "No providers registered. Call add_provider() first."),
        _ => panic!("expected an answer"),
    }
}

#[test]
fn fallback_fails_over_to_next_provider() {
    let mut s = agent(RoutingStrategy::Fallback, &[("groq", 2), ("openai", 1)]);
    let (mut session, step) = s.route_begin();
    match step {
        RouteStep::Call(i, c) => {
            assert_eq!(i, 1);
            assert_eq!(c.name, "openai");
        }
        _ => panic!("expected a call"),
    }
    let step = s.route_next(&mut session, Err("429".to_string()));
    match step {
        RouteStep::Call(i, c) => {
            assert_eq!(i, 0);
            assert_eq!(c.name, "groq");
        }
        _ => panic!("expected a call"),
    }
    assert!(!s.providers[1].healthy);
    let step = s.route_next(&mut session, Ok("hello".to_string()));
    match step {
        RouteStep::Done(Ok(a)) => assert_eq!(a, "hello"),
        _ => panic!("expected an answer"),
    }
    assert!(s.providers[0].healthy);
}

#[test]
fn fallback_reports_last_error_when_all_fail() {
    let mut s = agent(RoutingStrategy::Fallback, &[("a", 1), ("b", 2)]);
    let (mut session, _) = s.route_begin();
    s.route_next(&mut session, Err("first".to_string()));
    let step = s.route_next(&mut session, Err("second".to_string()));
    match step {
        RouteStep::Done(Err(m)) => assert_eq!(m, "All 2 providers failed. Last error: [b] second"),
        _ => panic!("expected an answer"),
    }
    assert!(!s.providers[0].healthy && !s.providers[1].healthy);
}

#[test]
fn round_robin_does_not_fail_over() {
    let mut s = agent(RoutingStrategy::RoundRobin, &[("a", 1), ("b", 2)]);
    let (mut session, step) = s.route_begin();
    assert!(matches!(step, RouteStep::Call(0, _)));
    match s.route_next(&mut session, Err("boom".to_string())) {
        RouteStep::Done(Err(m)) => assert_eq!(m, "[a] boom"),
        _ => panic!("expected an answer"),
    }
}

#[test]
fn priority_does_not_fail_over() {
    let mut s = agent(RoutingStrategy::Priority, &[("a", 4), ("b", 2)]);
    let (mut session, step) = s.route_begin();
    assert!(matches!(step, RouteStep::Call(1, _)));
    match s.route_next(&mut session, Err("x".to_string())) {
        RouteStep::Done(Err(m)) => assert_eq!(m, "[b] x"),
        _ => panic!("expected an answer"),
    }
}

#[test]
fn status_snapshot() {
    let s = agent(RoutingStrategy::RoundRobin, &[("a", 1), ("b", 2)]);
    let st = s.status("sqlite".to_string(), 7);
    assert!(st.initialized);
    assert_eq!(st.memory_backend, "sqlite");
    assert_eq!(st.data_dir, "/data/zeroclaw");
    assert_eq!(st.memory_count, 7);
    assert_eq!(st.provider_count, 2);
    assert_eq!(st.routing_strategy, "round_robin");
}

#[test]
fn provider_receives_only_the_prompt() {
    let p = ProviderConfig {
        name: "openai".into(),
        api_key: "sk-1".into(),
        model: "gpt-4o".into(),
        base_url: "https://api.openai.com/v1".into(),
        priority: 0,
    };
    let r = chat_request(&p, "what did I say yesterday?");
    assert_eq!(r.content, "User: what did I say yesterday?");
}

#[test]
fn turn_keys_share_timestamp() {
    let (u, a) = turn_keys(1712345678901);
    assert_eq!(u, "turn_1712345678901_user");
    assert_eq!(a, "turn_1712345678901_assistant");
}

#[test]
fn chat_request_for_provider() {
    let p = ProviderConfig {
        name: "groq".into(),
        api_key: "gsk_abc".into(),
        model: "llama3-8b".into(),
        base_url: "https://api.groq.com/openai/v1/".into(),
        priority: 0,
    };
    let r = chat_request(&p, "hi");
    assert_eq!(r.url, "https://api.groq.com/openai/v1/chat/completions");
    assert_eq!(r.authorization, "Bearer gsk_abc");
    assert_eq!(r.model, "llama3-8b");
    assert_eq!(r.content, "User: hi");
}

#[test]
fn call_failure_messages() {
    assert_eq!(completion_result(Some("ok".into())), Ok("ok".to_string()));
    assert_eq!(completion_result(None), Err("Failed to extract content from response".to_string()));
    assert_eq!(request_failure("timeout"), "HTTP request failed: timeout");
    assert_eq!(status_failure("401 Unauthorized", "bad key"), "API Error 401 Unauthorized: bad key");
    assert_eq!(json_failure("eof"), "Failed to parse JSON: eof");
}

#[test]
fn normalization_is_idempotent_concrete() {
    for s in ["  MiXeD Case\t", "\u{2003}x\u{2003}", "", "   "] {
        let once: String = normalize(s).into_iter().collect();
        assert_eq!(normalize(&once), normalize(s));
    }
}

#[test]
fn fallback_order_is_deterministic_and_complete() {
    let mut s = agent(RoutingStrategy::Fallback, &[("a", 2), ("b", 2), ("c", 1), ("d", 9)]);
    let first = pick_providers(&mut s);
    let second = pick_providers(&mut s);
    assert_eq!(first, second);
    let mut sorted = first.clone();
    sorted.sort();
    assert_eq!(sorted, vec![0, 1, 2, 3]);
}

#[test]
fn round_robin_leaders_cover_every_provider() {
    let mut s = agent(RoutingStrategy::RoundRobin, &[("a", 1), ("b", 1), ("c", 1), ("d", 1)]);
    s.round_robin_idx = 6;
    let mut leaders: Vec<usize> = (0..4).map(|_| pick_providers(&mut s)[0]).collect();
    assert_eq!(leaders, vec![2, 3, 0, 1]);
    leaders.sort();
    assert_eq!(leaders, vec![0, 1, 2, 3]);
}
