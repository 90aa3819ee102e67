use graphify::breaker::CircuitBreaker;
use graphify::host::{prefixed_tool_name, unprefix, TOOL_PREFIX};

#[test]
fn record_failure_quarantines_on_third() {
    let mut breaker = CircuitBreaker::new("test_workspace");
    assert!(!breaker.is_bypassed("plugin_a"));
    breaker.record_failure("plugin_a");
    breaker.record_failure("plugin_a");
    assert!(!breaker.is_bypassed("plugin_a"), "2 failures should not quarantine");
    breaker.record_failure("plugin_a");
    assert!(breaker.is_bypassed("plugin_a"), "3rd failure should quarantine");
}

#[test]
fn success_resets_counter() {
    let mut breaker = CircuitBreaker::new("test_workspace");
    breaker.record_failure("plugin_a");
    breaker.record_failure("plugin_a");
    breaker.record_success("plugin_a");
    breaker.record_failure("plugin_a");
    breaker.record_failure("plugin_a");
    assert!(!breaker.is_bypassed("plugin_a"));
}

#[test]
fn clear_quarantine_works() {
    let mut breaker = CircuitBreaker::new("test_workspace");
    breaker.record_failure("plugin_a");
    breaker.record_failure("plugin_a");
    breaker.record_failure("plugin_a");
    assert!(breaker.is_bypassed("plugin_a"));
    breaker.clear_quarantine("plugin_a");
    assert!(!breaker.is_bypassed("plugin_a"));
}

#[test]
fn failures_of_one_plugin_leave_others_alone() {
    let mut breaker = CircuitBreaker::new("ws");
    breaker.record_failure("a");
    breaker.record_failure("b");
    breaker.record_failure("a");
    breaker.record_failure("a");
    assert!(breaker.is_bypassed("a"));
    assert!(!breaker.is_bypassed("b"));
    breaker.record_failure("b");
    breaker.record_failure("b");
    assert!(breaker.is_bypassed("b"));
}

#[test]
fn cleared_plugin_needs_three_new_failures() {
    let mut breaker = CircuitBreaker::new("ws");
    for _ in 0..3 {
        breaker.record_failure("p");
    }
    breaker.clear_quarantine("p");
    breaker.record_failure("p");
    breaker.record_failure("p");
    assert!(!breaker.is_bypassed("p"));
    breaker.record_failure("p");
    assert!(breaker.is_bypassed("p"));
}

#[test]
fn seeded_plugins_are_bypassed() {
    let mut breaker = CircuitBreaker::new("ws");
    breaker.seed_quarantined(&["plugin_a".to_string(), "plugin_b".to_string()]);
    assert!(breaker.is_bypassed("plugin_a"));
    assert!(breaker.is_bypassed("plugin_b"));
    assert!(!breaker.is_bypassed("plugin_c"));
}

#[test]
fn prefixed_names_are_namespaced() {
    assert_eq!(TOOL_PREFIX, "graphify_plugin_");
    assert_eq!(prefixed_tool_name("mock", "hello"), "graphify_plugin_mock_hello");
}

#[test]
fn unprefix_splits_at_first_underscore() {
    assert_eq!(
        unprefix("graphify_plugin_mock_hello"),
        Some(("mock".to_string(), "hello".to_string()))
    );
    assert_eq!(
        unprefix("graphify_plugin_mock_say_hello"),
        Some(("mock".to_string(), "say_hello".to_string()))
    );
    assert_eq!(unprefix("graphify_query"), None);
    assert_eq!(unprefix("graphify_plugin_nounderscore"), None);
}

#[test]
fn unprefix_inverts_prefixing_without_underscore_in_id() {
    let name = prefixed_tool_name("opendoc", "index_all");
    assert_eq!(unprefix(&name), Some(("opendoc".to_string(), "index_all".to_string())));
    let name = prefixed_tool_name("open_doc", "index");
    assert_eq!(unprefix(&name), Some(("open".to_string(), "doc_index".to_string())));
}

use graphify::host::{list_plugin_tools, route_plugin_call, ListedTool, PluginState};

#[test]
fn test_unprefixed_name_is_rejected() {
    let ids = vec!["mock".to_string()];
    assert!(route_plugin_call("graphify_query", &ids).is_err());
    assert_eq!(
        route_plugin_call("graphify_query", &ids),
        Err("tool 'graphify_query' is not a namespaced plugin tool (expected 'graphify_plugin_<id>_<tool>')".to_string())
    );
}

#[test]
fn plugin_calls_route_to_known_plugins_only() {
    let ids = vec!["mock".to_string(), "other".to_string()];
    assert_eq!(
        route_plugin_call("graphify_plugin_mock_hello", &ids),
        Ok(("mock".to_string(), "hello".to_string()))
    );
    assert_eq!(
        route_plugin_call("graphify_plugin_ghost_hello", &ids),
        Err("unknown plugin 'ghost'".to_string())
    );
    let listed = list_plugin_tools(&vec![(
        "mock".to_string(),
        PluginState::Ready { tools: vec![Some("hello".to_string()), Some("bye".to_string())] },
    )]);
    let names: Vec<Option<String>> = listed.into_iter().map(|t| t.name).collect();
    assert_eq!(
        names,
        vec![Some("graphify_plugin_mock_hello".to_string()), Some("graphify_plugin_mock_bye".to_string())]
    );
}

use graphify::host::{await_step, WaitOutcome, WaitStep};

#[test]
fn waiting_skips_other_messages_and_fails_with_a_reason() {
    assert_eq!(await_step(&WaitOutcome::Message(Some(3)), 3, "p", "5s"), WaitStep::Accept);
    assert_eq!(await_step(&WaitOutcome::Message(Some(2)), 3, "p", "5s"), WaitStep::Skip);
    assert_eq!(await_step(&WaitOutcome::Message(None), 3, "p", "5s"), WaitStep::Skip);
    assert_eq!(
        await_step(&WaitOutcome::Timeout, 3, "p", "5s"),
        WaitStep::Fail("plugin 'p' did not respond to id 3 within 5s".to_string())
    );
    assert_eq!(
        await_step(&WaitOutcome::Disconnected, 3, "p", "5s"),
        WaitStep::Fail("plugin 'p' exited unexpectedly".to_string())
    );
    assert_eq!(
        await_step(&WaitOutcome::FramingError("bad".to_string()), 3, "p", "5s"),
        WaitStep::Fail("plugin 'p' framing error: bad".to_string())
    );
}

#[test]
fn seed_quarantined_loads_from_registry() {
    // The registry reports `plugin_a` quarantined in `test_workspace`.
    let mut breaker = CircuitBreaker::new("test_workspace");
    breaker.seed_quarantined(&["plugin_a".to_string()]);
    assert!(breaker.is_bypassed("plugin_a"));
}

#[test]
fn interleaved_calls_quarantine_by_consecutive_failures_per_plugin() {
    let mut b = CircuitBreaker::new("w");
    b.record_failure("a");
    b.record_failure("b");
    b.record_success("b");
    b.record_failure("a");
    b.record_failure("b");
    b.record_failure("b");
    assert!(!b.is_bypassed("a"));
    assert!(!b.is_bypassed("b"));
    b.record_failure("a");
    assert!(b.is_bypassed("a"));
    assert!(!b.is_bypassed("b"));
    b.record_success("a");
    assert!(b.is_bypassed("a"));
    b.clear_quarantine("a");
    assert!(!b.is_bypassed("a"));
    b.record_failure("a");
    b.record_failure("a");
    assert!(!b.is_bypassed("a"));
    b.record_failure("b");
    assert!(b.is_bypassed("b"));
}

#[test]
fn only_ready_plugins_list_their_tools() {
    let plugins = vec![
        ("a".to_string(), PluginState::Ready { tools: vec![Some("x".to_string()), None, Some("y".to_string())] }),
        ("b".to_string(), PluginState::Spawning),
        ("c".to_string(), PluginState::Failed("gone".to_string())),
        ("d".to_string(), PluginState::Ready { tools: vec![Some("z".to_string())] }),
        ("e".to_string(), PluginState::Ready { tools: vec![] }),
    ];
    assert!(plugins[0].1.is_ready());
    assert!(!plugins[1].1.is_ready());
    assert!(!plugins[2].1.is_ready());
    let listed = list_plugin_tools(&plugins);
    assert_eq!(
        listed,
        vec![
            ListedTool { plugin: 0, tool: 0, name: Some("graphify_plugin_a_x".to_string()) },
            ListedTool { plugin: 0, tool: 1, name: None },
            ListedTool { plugin: 0, tool: 2, name: Some("graphify_plugin_a_y".to_string()) },
            ListedTool { plugin: 3, tool: 0, name: Some("graphify_plugin_d_z".to_string()) },
        ]
    );
    assert!(list_plugin_tools(&vec![]).is_empty());
}

#[test]
fn test_scan_and_list_tools_namespaced() {
    // The mock plugin's state after its handshake: one tool, `hello`.
    let plugins = vec![("mock".to_string(), PluginState::Ready { tools: vec![Some("hello".to_string())] })];
    let tools = list_plugin_tools(&plugins);
    assert_eq!(tools.len(), 1);
    assert_eq!(tools[0].name.as_deref(), Some("graphify_plugin_mock_hello"));
}

#[test]
fn test_failed_plugin_contributes_no_tools() {
    // A plugin whose process exits at once ends the handshake failed.
    let plugins = vec![("dead".to_string(), PluginState::Failed("exited".to_string()))];
    assert!(list_plugin_tools(&plugins).is_empty(), "dead plugin must add no tools");
}
