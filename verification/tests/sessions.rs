use astray_verify::audit::{audit_contract, Severity};
use astray_verify::config::{CheckKind, CheckSettings};
use astray_verify::error::Error;
use astray_verify::fixture::{
    build_fixture, compare_fixture, record_settings, replay_settings, validate_fixture, Fixture,
    Verdict,
};
use astray_verify::json::{Json, Number};
use astray_verify::protocol::{match_response, Discovery, Progress, ServerContract};

fn s(text: &str) -> Json {
    Json::Str(text.to_string())
}

fn obj(entries: Vec<(&str, Json)>) -> Json {
    Json::Object(entries.into_iter().map(|(k, v)| (k.to_string(), v)).collect())
}

fn arr(items: Vec<Json>) -> Json {
    Json::Array(items)
}

fn num(n: u64) -> Json {
    Json::Number(Number::PosInt(n))
}

/// A tool as a parsed document holds it: the object's keys in sorted order.
fn tool(name: &str, description: &str) -> Json {
    obj(vec![("description", s(description)), ("name", s(name))])
}

fn response(id: u64, result: Json) -> Json {
    obj(vec![("jsonrpc", s("2.0")), ("id", num(id)), ("result", result)])
}

fn method_of(message: &Json) -> String {
    match message.get("method").and_then(|m| m.as_str()) {
        Some(m) => m.clone(),
        None => String::new(),
    }
}

fn id_of(message: &Json) -> Option<u64> {
    match message.get("id") {
        Some(Json::Number(Number::PosInt(id))) => Some(*id),
        _ => None,
    }
}

fn next(state: Discovery, reply: Json) -> (Option<Discovery>, Vec<Json>, Option<ServerContract>) {
    match state.advance(reply) {
        Ok(Progress::Continue { state, send }) => (Some(state), send, None),
        Ok(Progress::Finished(contract)) => (None, Vec::new(), Some(contract)),
        Err(_) => panic!("discovery failed"),
    }
}

/// Runs discovery against a server that advertises the given capabilities
/// and answers every list with the given items.
fn discover(capabilities: Json, tools: Json, resources: Json, prompts: Json) -> (ServerContract, Vec<(String, Option<u64>)>) {
    let mut sent = Vec::new();
    let (state, send) = Discovery::start("0.2.0");
    for m in &send {
        sent.push((method_of(m), id_of(m)));
    }
    let init = response(
        1,
        obj(vec![("protocolVersion", s("2025-06-18")), ("capabilities", capabilities)]),
    );
    let (mut state, send, _) = next(state, init);
    for m in &send {
        sent.push((method_of(m), id_of(m)));
    }
    let mut lists = vec![("tools", tools), ("resources", resources), ("prompts", prompts)];
    loop {
        let current = state.take().unwrap();
        let id = current.awaiting();
        let method = sent.last().unwrap().0.clone();
        let key = method.trim_end_matches("/list").to_string();
        let position = lists.iter().position(|(k, _)| *k == key).unwrap();
        let (_, items) = lists.remove(position);
        let (following, send, done) = next(current, response(id, obj(vec![(key.as_str(), items)])));
        for m in &send {
            sent.push((method_of(m), id_of(m)));
        }
        if let Some(contract) = done {
            return (contract, sent);
        }
        state = following;
    }
}

#[test]
fn discovery_asks_only_for_advertised_surfaces() {
    let caps = obj(vec![("tools", obj(vec![])), ("prompts", obj(vec![]))]);
    let (contract, sent) = discover(caps, arr(vec![tool("b", "x"), tool("a", "y")]), arr(vec![]), arr(vec![tool("p", "z")]));
    assert_eq!(
        sent,
        vec![
            ("initialize".to_string(), Some(1)),
            ("notifications/initialized".to_string(), None),
            ("tools/list".to_string(), Some(2)),
            ("prompts/list".to_string(), Some(3)),
        ]
    );
    assert_eq!(contract.protocol_version.as_deref(), Some("2025-06-18"));
    assert_eq!(astray_verify::contract::tool_names(&contract.tools), vec!["a", "b"]);
    assert!(contract.resources.equals(&arr(vec![])));
    assert_eq!(astray_verify::contract::tool_names(&contract.prompts), vec!["p"]);
}

#[test]
fn discovery_asks_for_all_three_when_advertised() {
    let caps = obj(vec![("resources", obj(vec![])), ("prompts", obj(vec![]))]);
    let (_, sent) = discover(caps, arr(vec![]), arr(vec![tool("r", "")]), arr(vec![]));
    let ids: Vec<Option<u64>> = sent.iter().map(|(_, id)| *id).collect();
    assert_eq!(ids, vec![Some(1), None, Some(2), Some(3), Some(4)]);
}

#[test]
fn initialize_request_names_the_client_and_protocol() {
    let (state, send) = Discovery::start("9.9.9");
    assert_eq!(state.awaiting(), 1);
    assert_eq!(send.len(), 1);
    let params = send[0].get("params").unwrap();
    assert!(params.get("protocolVersion").unwrap().equals(&s("2025-06-18")));
    let client = params.get("clientInfo").unwrap();
    assert!(client.get("name").unwrap().equals(&s("astray-verify")));
    assert!(client.get("version").unwrap().equals(&s("9.9.9")));
}

#[test]
fn a_list_response_without_the_list_fails() {
    let (state, _) = Discovery::start("0.2.0");
    let (state, _, _) = next(state, response(1, obj(vec![])));
    let state = state.unwrap();
    let result = state.advance(response(2, obj(vec![("other", arr(vec![]))])));
    assert!(matches!(result, Err(Error::MissingListResult { surface: CheckKind::Tools })));
}

#[test]
fn a_list_with_duplicate_names_fails_discovery() {
    let (state, _) = Discovery::start("0.2.0");
    let (state, _, _) = next(state, response(1, obj(vec![])));
    let state = state.unwrap();
    let result = state.advance(response(2, obj(vec![("tools", arr(vec![tool("a", ""), tool("a", "")]))])));
    assert!(matches!(result, Err(Error::DuplicateItemNames)));
}

#[test]
fn initialize_without_capabilities_skips_resources_and_prompts() {
    let (state, _) = Discovery::start("0.2.0");
    let (state, send, _) = next(state, response(1, obj(vec![])));
    assert_eq!(send.len(), 2);
    let (state, send, done) = next(state.unwrap(), response(2, obj(vec![("tools", arr(vec![]))])));
    assert!(state.is_none());
    assert!(send.is_empty());
    let contract = done.unwrap();
    assert!(contract.protocol_version.is_none());
    assert!(contract.capabilities.equals(&obj(vec![])));
}

#[test]
fn match_response_waits_for_its_own_id() {
    assert!(match_response(2, obj(vec![("id", num(1))])).is_none());
    assert!(match_response(2, obj(vec![("method", s("log"))])).is_none());
    assert!(match_response(2, obj(vec![("id", s("2"))])).is_none());
    match match_response(2, obj(vec![("id", num(2)), ("result", num(7))])) {
        Some(Ok(message)) => assert!(message.get("result").unwrap().equals(&num(7))),
        _ => panic!("expected the response"),
    }
    match match_response(2, obj(vec![("id", num(2)), ("error", s("boom"))])) {
        Some(Err(Error::ServerError { error })) => assert!(error.equals(&s("boom"))),
        _ => panic!("expected the server error"),
    }
}

fn contract(tools: Json, resources: Json, prompts: Json) -> ServerContract {
    ServerContract {
        protocol_version: Some("2025-06-18".to_string()),
        capabilities: obj(vec![("tools", obj(vec![]))]),
        tools,
        resources,
        prompts,
    }
}

fn settings(checks: Vec<CheckKind>) -> CheckSettings {
    CheckSettings { checks, timeout_ms: 20000 }
}

fn recorded(c: ServerContract) -> Fixture {
    build_fixture("echo".to_string(), vec!["python3".to_string(), "server.py".to_string()], c, settings(vec![CheckKind::Tools]))
}

#[test]
fn a_recording_replays_cleanly_against_the_same_server() {
    let caps = obj(vec![("tools", obj(vec![])), ("resources", obj(vec![])), ("prompts", obj(vec![]))]);
    let (first, _) = discover(caps.duplicate(), arr(vec![tool("echo", "Echo")]), arr(vec![tool("r", "")]), arr(vec![]));
    let fixture = recorded(first);
    assert!(validate_fixture(&fixture, "fixtures/echo.mcp.json").is_ok());
    let (again, _) = discover(caps, arr(vec![tool("echo", "Echo")]), arr(vec![tool("r", "")]), arr(vec![]));
    let all = settings(vec![CheckKind::Tools, CheckKind::Resources, CheckKind::Prompts]);
    assert!(matches!(compare_fixture(&fixture, &all, &again), Ok(Verdict::Pass)));
}

#[test]
fn a_changed_tool_fails_the_replay() {
    let fixture = recorded(contract(arr(vec![tool("echo", "Echo")]), arr(vec![]), arr(vec![])));
    let actual = contract(arr(vec![tool("echo", "Echo twice")]), arr(vec![]), arr(vec![]));
    match compare_fixture(&fixture, &settings(vec![CheckKind::Tools]), &actual) {
        Ok(Verdict::Fail { changes }) => assert_eq!(changes, vec!["changed contract for `echo`"]),
        _ => panic!("expected a failure"),
    }
}

#[test]
fn resource_changes_count_only_when_checked() {
    let fixture = recorded(contract(arr(vec![tool("echo", "")]), arr(vec![tool("r", "")]), arr(vec![])));
    let actual = contract(arr(vec![tool("echo", "")]), arr(vec![]), arr(vec![tool("p", "")]));
    assert!(matches!(compare_fixture(&fixture, &settings(vec![CheckKind::Tools]), &actual), Ok(Verdict::Pass)));
    match compare_fixture(&fixture, &settings(vec![CheckKind::Tools, CheckKind::Resources, CheckKind::Prompts]), &actual) {
        Ok(Verdict::Fail { changes }) => assert_eq!(
            changes,
            vec!["resources: removed tool `r`", "prompts: added tool `p`"]
        ),
        _ => panic!("expected a failure"),
    }
}

#[test]
fn a_first_version_fixture_without_resources_is_read() {
    let mut fixture = recorded(contract(arr(vec![tool("echo", "")]), Json::Null, Json::Null));
    fixture.version = 1;
    assert!(validate_fixture(&fixture, "f.json").is_ok());
    let actual = contract(arr(vec![tool("echo", "")]), arr(vec![]), arr(vec![]));
    let all = settings(vec![CheckKind::Tools, CheckKind::Resources, CheckKind::Prompts]);
    assert!(matches!(compare_fixture(&fixture, &all, &actual), Ok(Verdict::Pass)));
}

#[test]
fn invalid_fixtures_are_refused_with_the_first_problem() {
    let good = || recorded(contract(arr(vec![tool("echo", "")]), arr(vec![]), arr(vec![])));
    let mut f = good();
    f.version = 3;
    assert!(matches!(validate_fixture(&f, "p"), Err(Error::UnsupportedFixtureVersion { version: 3, .. })));
    let mut f = good();
    f.name = "a/b".to_string();
    assert!(matches!(validate_fixture(&f, "p"), Err(Error::InvalidFixtureNameIn { .. })));
    let mut f = good();
    f.transport = "http".to_string();
    assert!(matches!(validate_fixture(&f, "p"), Err(Error::UnsupportedTransport { .. })));
    let mut f = good();
    f.server = vec![String::new()];
    assert!(matches!(validate_fixture(&f, "p"), Err(Error::EmptyServerCommand { .. })));
    let mut f = good();
    f.tools = obj(vec![]);
    assert!(matches!(validate_fixture(&f, "p"), Err(Error::ListNotArray)));
    let mut f = good();
    f.settings.timeout_ms = 0;
    match validate_fixture(&f, "p") {
        Err(Error::ZeroTimeout { fixture: Some(name) }) => assert_eq!(name, "echo"),
        _ => panic!("expected a zero timeout"),
    }
}

#[test]
fn timeouts_come_from_the_override_or_the_fixture() {
    let f = recorded(contract(arr(vec![]), arr(vec![]), arr(vec![])));
    assert_eq!(replay_settings(&f, None).ok().unwrap().timeout_ms, 20000);
    assert_eq!(replay_settings(&f, Some(5)).ok().unwrap().timeout_ms, 5);
    assert!(matches!(replay_settings(&f, Some(0)), Err(Error::ZeroTimeout { .. })));
    let config = astray_verify::config::default_config();
    assert_eq!(record_settings(Some(vec![CheckKind::Prompts]), None, &config).ok().unwrap().timeout_ms, 20000);
    assert!(matches!(record_settings(Some(vec![]), Some(0), &config), Err(Error::ZeroTimeout { fixture: None })));
}

#[test]
fn recording_uses_the_project_default_checks_when_none_are_chosen() {
    let mut config = astray_verify::config::default_config();
    config.defaults.checks = vec![CheckKind::Tools, CheckKind::Resources, CheckKind::Prompts];
    config.defaults.timeout_ms = 30000;
    let s = record_settings(None, None, &config).ok().unwrap();
    assert_eq!(s.checks, vec![CheckKind::Tools, CheckKind::Resources, CheckKind::Prompts]);
    assert_eq!(s.timeout_ms, 30000);
    let chosen = record_settings(Some(vec![CheckKind::Tools]), Some(45000), &config).ok().unwrap();
    assert_eq!(chosen.checks, vec![CheckKind::Tools]);
    assert_eq!(chosen.timeout_ms, 45000);
}

#[test]
fn recording_keeps_the_server_protocol_version_or_the_requested_one() {
    let mut c = contract(arr(vec![]), arr(vec![]), arr(vec![]));
    c.protocol_version = None;
    let f = recorded(c);
    assert_eq!(f.protocol_version, "2025-06-18");
    assert_eq!(f.version, 2);
    assert_eq!(f.transport, "stdio");
}

#[test]
fn audit_of_a_clean_contract_reports_one_informational_finding() {
    let c = contract(arr(vec![tool("a", "A")]), arr(vec![tool("r", "R")]), arr(vec![tool("p", "P")]));
    let findings = audit_contract(&c);
    assert_eq!(findings.len(), 1);
    assert_eq!(findings[0].severity, Severity::Info);
    assert_eq!(findings[0].score, 0);
    assert_eq!(findings[0].area, "MCP contract");
}

#[test]
fn audit_puts_the_weakest_link_first_and_keeps_ties_in_order() {
    let mut c = contract(arr(vec![tool("a", ""), obj(vec![("name", s("b"))])]), arr(vec![]), arr(vec![]));
    c.protocol_version = None;
    c.capabilities = obj(vec![]);
    let findings = audit_contract(&c);
    let summary: Vec<(String, u8)> = findings.iter().map(|f| (f.area.clone(), f.score)).collect();
    assert_eq!(
        summary,
        vec![
            ("protocol handshake".to_string(), 100),
            ("capability advertisement".to_string(), 85),
            ("resources".to_string(), 45),
            ("prompts".to_string(), 45),
            ("tools contract".to_string(), 20),
            ("tools contract".to_string(), 20),
        ]
    );
    assert_eq!(findings[4].finding, "`a` has no description");
    assert_eq!(findings[5].finding, "`b` has no description");
    assert_eq!(findings[2].finding, "resources/list exposes no items");
    assert_eq!(
        findings[2].recommendation,
        "Confirm that resources are intentionally unavailable, or expose and snapshot the expected resources contract."
    );
    assert_eq!(findings[0].severity.as_str(), "critical");
}

#[test]
fn audit_does_not_flag_an_empty_tool_list_as_unadvertised() {
    let mut c = contract(arr(vec![]), arr(vec![tool("r", "R")]), arr(vec![tool("p", "P")]));
    c.capabilities = obj(vec![]);
    let findings = audit_contract(&c);
    assert_eq!(findings.len(), 1);
    assert_eq!(findings[0].area, "tools");
    assert_eq!(findings[0].finding, "tools/list exposes no items");
}

#[test]
fn the_audit_report_names_the_weakest_link_and_counts_the_lists() {
    let mut c = contract(arr(vec![tool("a", ""), tool("b", "B")]), arr(vec![]), arr(vec![tool("p", "P")]));
    c.protocol_version = None;
    let findings = audit_contract(&c);
    let report = astray_verify::report::make_audit_report(&c, &findings);
    let text = |v: &Json| match v {
        Json::Str(s) => s.clone(),
        _ => panic!("not a string"),
    };
    assert_eq!(text(report.get("command").unwrap()), "audit");
    assert_eq!(text(report.get("status").unwrap()), "ok");
    assert!(report.get("protocol_version").unwrap().equals(&Json::Null));
    assert!(report.get("tools").unwrap().equals(&num(2)));
    assert!(report.get("resources").unwrap().equals(&num(0)));
    assert!(report.get("prompts").unwrap().equals(&num(1)));
    let keys = |v: &Json| match v {
        Json::Object(entries) => entries.iter().map(|(k, _)| k.clone()).collect::<Vec<String>>(),
        _ => panic!("not an object"),
    };
    assert_eq!(
        keys(&report),
        vec!["command", "status", "protocol_version", "capabilities", "tools", "resources", "prompts", "weakest_link", "findings"]
    );
    let weakest = report.get("weakest_link").unwrap();
    assert_eq!(keys(weakest), vec!["area", "severity", "score", "finding", "recommendation"]);
    assert_eq!(text(weakest.get("area").unwrap()), "protocol handshake");
    assert_eq!(text(weakest.get("severity").unwrap()), "critical");
    assert!(weakest.get("score").unwrap().equals(&num(100)));
    match report.get("findings").unwrap() {
        Json::Array(items) => {
            assert_eq!(items.len(), findings.len());
            assert!(items[0].equals(weakest));
        }
        _ => panic!("findings is not an array"),
    }
}
