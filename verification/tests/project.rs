use astray_verify::config::{
    check_config, default_checks, default_config, default_timeout_ms, fixture_path, fixtures_dir,
    safe_relative_path, validate_fixture_name, CheckKind, CheckSettings, ProjectConfig,
};
use astray_verify::error::Error;
use astray_verify::fixture::Verdict;
use astray_verify::report::{
    audit_plan, captured_text, checks_display, config_lines, doctor_ok, failed_fixture_name,
    fixture_count_line, init, log_path, make_config_report, make_log_entry, millis_text,
    read_mtime, select_fixture_files, tests_summary, verdict_lines, AuditTarget,
};
use astray_verify::json::{Json, Number};
use astray_verify::text::decimal_text;
use astray_verify::ui::{ColorMode, Ui};
use astray_verify::watch::{rerun_needed, Modified, WatchSnapshot};

fn plain() -> Ui {
    Ui::new(ColorMode::Never, false, false)
}

#[test]
fn defaults_are_tools_and_twenty_seconds() {
    assert_eq!(default_checks(), vec![CheckKind::Tools]);
    assert_eq!(default_timeout_ms(), 20000);
    let settings = CheckSettings::default();
    assert_eq!(settings.checks, vec![CheckKind::Tools]);
    assert_eq!(settings.timeout_ms, 20000);
    let config = default_config();
    assert_eq!(config.version, 2);
    assert_eq!(config.fixtures_dir, "fixtures");
}

#[test]
fn safe_relative_paths() {
    for ok in ["fixtures", "a/b", "a/./b", "a/.", "..a", "a..", ".hidden", "a//b", "a/"] {
        assert_eq!(safe_relative_path(ok, "f").ok(), Some(ok.to_string()), "{ok}");
    }
    for bad in ["", "/abs", ".", "./a", "..", "../a", "a/..", "a/../b", "a/..//b"] {
        match safe_relative_path(bad, "fixtures_dir") {
            Err(Error::UnsafePath { field }) => assert_eq!(field, "fixtures_dir", "{bad}"),
            _ => panic!("{bad} should be refused"),
        }
    }
}

#[test]
fn fixture_names() {
    for ok in ["echo", "a.b", "...", "-x"] {
        assert!(validate_fixture_name(ok).is_ok(), "{ok}");
    }
    for bad in ["", ".", "..", "a/b", "a\\b", "/"] {
        assert!(matches!(validate_fixture_name(bad), Err(Error::InvalidFixtureName)), "{bad}");
    }
}

#[test]
fn config_checks() {
    let mut config = default_config();
    assert!(check_config(&config).is_ok());
    config.version = 1;
    assert!(check_config(&config).is_ok());
    config.version = 3;
    assert!(matches!(check_config(&config), Err(Error::UnsupportedConfigVersion { version: 3 })));
    config.version = 0;
    assert!(matches!(check_config(&config), Err(Error::UnsupportedConfigVersion { version: 0 })));
    config.version = 2;
    config.fixtures_dir = "../elsewhere".to_string();
    assert!(matches!(check_config(&config), Err(Error::UnsafePath { .. })));
}

#[test]
fn fixture_paths_join_root_directory_and_file() {
    let config = default_config();
    assert_eq!(fixtures_dir("/work", &config).ok(), Some("/work/fixtures".to_string()));
    assert_eq!(fixtures_dir("/work/", &config).ok(), Some("/work/fixtures".to_string()));
    assert_eq!(
        fixture_path("/work", &config, "echo").ok(),
        Some("/work/fixtures/echo.mcp.json".to_string())
    );
    assert!(matches!(fixture_path("/work", &config, ".."), Err(Error::InvalidFixtureName)));
    let mut odd = default_config();
    odd.fixtures_dir = "/tmp".to_string();
    assert!(matches!(fixture_path("/work", &odd, "echo"), Err(Error::UnsafePath { .. })));
}

#[test]
fn paint_colours_only_when_asked() {
    let coloured = Ui::new(ColorMode::Always, false, false);
    assert_eq!(coloured.paint("1;32", "ok"), "\x1b[1;32mok\x1b[0m");
    assert_eq!(plain().paint("1;32", "ok"), "ok");
    assert!(!Ui::new(ColorMode::Always, true, true).color);
    assert!(Ui::new(ColorMode::Auto, false, true).color);
    assert!(!Ui::new(ColorMode::Auto, false, false).color);
    assert!(!Ui::new(ColorMode::Never, false, true).color);
}

#[test]
fn redirected_output_is_plain() {
    let redirected = Ui::new(ColorMode::Auto, false, false);
    assert_eq!(redirected.paint("1;31", "FAIL"), "FAIL");
    assert_eq!(redirected.success_line("PASS  echo"), Some("✓ PASS  echo".to_string()));
    assert!(redirected.header_lines("Verify contracts").is_empty());
    let terminal = Ui::new(ColorMode::Auto, false, true);
    assert_eq!(terminal.success_line("ok"), Some("\x1b[1;32m✓\x1b[0m ok".to_string()));
    assert_eq!(terminal.header_lines("t").len(), 3);
}

#[test]
fn lines_are_silent_in_json_mode() {
    let json = Ui::new(ColorMode::Never, true, true);
    assert!(json.step_line("x").is_none());
    assert!(json.header_lines("t").is_empty());
    assert_eq!(plain().step_line("x"), Some("● x".to_string()));
    assert_eq!(plain().success_line("x"), Some("✓ x".to_string()));
    assert_eq!(plain().failure_line("x"), Some("✗ x".to_string()));
    assert_eq!(plain().detail_line("label", "v"), Some("  label v".to_string()));
    assert!(plain().header_lines("t").is_empty());
    let terminal = Ui::new(ColorMode::Never, false, true);
    assert_eq!(
        terminal.header_lines("Verify contracts"),
        vec![
            "ASTRAY VERIFY  MCP CONTRACTS".to_string(),
            "────────────────────────────────────────".to_string(),
            "Verify contracts".to_string(),
        ]
    );
}

#[test]
fn numbers_and_counts() {
    assert_eq!(decimal_text(0), "0");
    assert_eq!(decimal_text(20000), "20000");
    assert_eq!(decimal_text(u64::MAX), "18446744073709551615");
    assert_eq!(captured_text(1), "Captured 1 tool");
    assert_eq!(captured_text(0), "Captured 0 tools");
    assert_eq!(captured_text(12), "Captured 12 tools");
    assert_eq!(tests_summary(1, 0), "1 passed · 0 failed");
    assert_eq!(millis_text(30000), "30000 ms");
    assert_eq!(
        fixture_count_line(&plain(), 1),
        Some("✓ 1 fixture available".to_string())
    );
    assert_eq!(
        fixture_count_line(&plain(), 3),
        Some("✓ 3 fixtures available".to_string())
    );
    assert_eq!(
        fixture_count_line(&plain(), 0),
        Some("✗ No fixtures captured yet".to_string())
    );
}

#[test]
fn checks_are_shown_in_lower_case() {
    assert_eq!(checks_display(&vec![]), "[]");
    assert_eq!(checks_display(&vec![CheckKind::Tools]), "[tools]");
    assert_eq!(
        checks_display(&vec![CheckKind::Tools, CheckKind::Resources, CheckKind::Prompts]),
        "[tools, resources, prompts]"
    );
}

#[test]
fn config_command_shows_and_reports_the_configuration() {
    let config = default_config();
    assert_eq!(
        config_lines(&plain(), &config),
        vec!["  fixtures fixtures", "  checks [tools]", "  timeout 20000 ms"]
    );
    let report = make_config_report(&config);
    let inner = report.get("config").unwrap();
    assert!(inner.get("version").unwrap().equals(&Json::Number(Number::PosInt(2))));
    assert!(report.get("status").unwrap().equals(&Json::Str("ok".to_string())));
}

#[test]
fn failed_fixture_names_drop_the_extension() {
    assert_eq!(failed_fixture_name(Some("echo.mcp.json")), "echo");
    assert_eq!(failed_fixture_name(Some("a.mcp.mcp.json")), "a");
    assert_eq!(failed_fixture_name(Some("plain.json")), "plain");
    assert_eq!(failed_fixture_name(Some(".json")), ".json");
    assert_eq!(failed_fixture_name(None), "unknown");
}

#[test]
fn fixture_files_are_the_json_files_in_order() {
    let names: Vec<String> = ["b.mcp.json", "notes.txt", "a.mcp.json", ".json", "c.json"]
        .iter()
        .map(|s| s.to_string())
        .collect();
    assert_eq!(select_fixture_files(&names), vec!["a.mcp.json", "b.mcp.json", "c.json"]);
}

#[test]
fn verdict_lines_show_pass_or_the_changes() {
    assert_eq!(verdict_lines(&plain(), "echo", &Verdict::Pass), vec!["✓ PASS  echo"]);
    let fail = Verdict::Fail { changes: vec!["removed tool `x`".to_string()] };
    assert_eq!(
        verdict_lines(&plain(), "echo", &fail),
        vec!["✗ FAIL  echo", "   removed tool `x`"]
    );
    let silent = Verdict::Fail { changes: vec![] };
    assert_eq!(
        verdict_lines(&plain(), "echo", &silent),
        vec![
            "✗ FAIL  echo",
            "   tools/list changed; record again only if this was intentional."
        ]
    );
}

#[test]
fn init_reports_what_it_did() {
    let config = default_config();
    let (lines, report) = init("/work", &config, true, &plain()).ok().unwrap();
    assert_eq!(lines, vec!["✓ Created /work/astray.verify.json", "  fixtures /work/fixtures"]);
    assert_eq!(report.config, "/work/astray.verify.json");
    assert!(report.created);
    assert!(report.note.is_none());
    let (lines, report) = init("/work", &config, false, &plain()).ok().unwrap();
    assert_eq!(lines[0], "✓ Using /work/astray.verify.json");
    assert_eq!(report.note.as_deref(), Some("configuration already existed"));
}

#[test]
fn audit_plan_chooses_its_target() {
    assert!(matches!(audit_plan(0, vec!["x".to_string()], None), Err(Error::ZeroTimeout { fixture: None })));
    assert!(matches!(audit_plan(5, vec![], None), Err(Error::NoAuditTarget)));
    match audit_plan(5, vec![], Some("echo".to_string())) {
        Ok((AuditTarget::Fixture(name), settings)) => {
            assert_eq!(name, "echo");
            assert_eq!(settings.checks, vec![CheckKind::Tools, CheckKind::Resources, CheckKind::Prompts]);
        }
        _ => panic!("expected the fixture"),
    }
    assert!(matches!(
        audit_plan(5, vec!["python3".to_string()], Some("echo".to_string())),
        Ok((AuditTarget::Command(_), _))
    ));
}

#[test]
fn watch_and_doctor_decisions() {
    assert_eq!(read_mtime(None), 0);
    assert_eq!(read_mtime(Some(None)), 0);
    assert_eq!(read_mtime(Some(Some(17))), 17);
    assert!(doctor_ok(1, None));
    assert!(!doctor_ok(0, None));
    assert!(!doctor_ok(2, Some(false)));
    assert!(doctor_ok(2, Some(true)));
}

#[test]
fn log_entries_and_log_paths() {
    let ok = make_log_entry(5, "audit", Some(true), None);
    assert!(ok.get("status").unwrap().equals(&Json::Str("ok".to_string())));
    assert!(ok.get("error").unwrap().equals(&Json::Null));
    assert!(ok.get("command").unwrap().equals(&Json::Str("audit".to_string())));
    let failed = make_log_entry(5, "test", Some(false), None);
    assert!(failed.get("status").unwrap().equals(&Json::Str("failed".to_string())));
    let error = make_log_entry(5, "test", None, Some("boom".to_string()));
    assert!(error.get("error").unwrap().equals(&Json::Str("boom".to_string())));
    assert_eq!(log_path("/work", "audit.jsonl").ok(), Some("/work/audit.jsonl".to_string()));
    assert!(matches!(log_path("/work", "/var/log/x"), Err(Error::UnsafePath { .. })));
}

#[test]
fn project_config_is_plain_data() {
    let config = ProjectConfig {
        version: 1,
        fixtures_dir: "snapshots".to_string(),
        defaults: CheckSettings { checks: vec![CheckKind::Prompts], timeout_ms: 1 },
    };
    assert!(check_config(&config).is_ok());
    assert_eq!(fixtures_dir("", &config).ok(), Some("snapshots".to_string()));
}

fn at(secs: u64, nanos: u32) -> Modified {
    Modified::At { before_epoch: false, secs, nanos }
}

fn look(stamps: Vec<(&str, Modified)>) -> WatchSnapshot {
    WatchSnapshot::take(stamps.into_iter().map(|(p, m)| (p.to_string(), m)).collect())
}

#[test]
fn watch_reruns_on_every_change_and_only_then() {
    let first = look(vec![("astray.verify.json", at(10, 0)), ("fixtures", at(10, 0)), ("fixtures/a.mcp.json", at(10, 5))]);
    assert!(!rerun_needed(None, &first));
    let same_in_other_order = look(vec![("fixtures/a.mcp.json", at(10, 5)), ("fixtures", at(10, 0)), ("astray.verify.json", at(10, 0))]);
    assert!(!rerun_needed(Some(&first), &same_in_other_order));
    let edited_within_the_second = look(vec![("astray.verify.json", at(10, 0)), ("fixtures", at(10, 0)), ("fixtures/a.mcp.json", at(10, 6))]);
    assert!(rerun_needed(Some(&first), &edited_within_the_second));
    let added = look(vec![("astray.verify.json", at(10, 0)), ("fixtures", at(10, 0)), ("fixtures/a.mcp.json", at(10, 5)), ("fixtures/b.mcp.json", at(11, 0))]);
    assert!(rerun_needed(Some(&first), &added));
    let removed = look(vec![("astray.verify.json", at(10, 0)), ("fixtures", at(10, 0))]);
    assert!(rerun_needed(Some(&first), &removed));
    let sum_kept = look(vec![("astray.verify.json", at(9, 0)), ("fixtures", at(11, 0)), ("fixtures/a.mcp.json", at(10, 5))]);
    assert!(rerun_needed(Some(&first), &sum_kept));
    let unreadable = look(vec![("astray.verify.json", Modified::Unknown), ("fixtures", at(10, 0)), ("fixtures/a.mcp.json", at(10, 5))]);
    assert!(rerun_needed(Some(&first), &unreadable));
    assert!(first.same_as(&same_in_other_order));
}

#[test]
fn error_messages_read_as_the_command_line_prints_them() {
    assert_eq!(Error::ListNotArray.message(), "MCP list response must be an array");
    assert_eq!(
        Error::UnsafePath { field: "fixtures_dir".to_string() }.message(),
        "fixtures_dir must be a non-empty relative path without . or .. components"
    );
    assert_eq!(
        Error::UnsupportedConfigVersion { version: 7 }.message(),
        "unsupported config version 7; expected 1 or 2"
    );
    assert_eq!(
        Error::MissingListResult { surface: astray_verify::config::CheckKind::Resources }.message(),
        "resources/list response did not contain result.resources"
    );
    assert_eq!(
        Error::UnsupportedFixtureVersion { path: "f.json".to_string(), version: 3 }.message(),
        "f.json: unsupported fixture version 3; expected 1 or 2"
    );
    assert_eq!(
        Error::InvalidFixtureNameIn { path: "f.json".to_string() }.message(),
        "f.json: invalid fixture name: fixture name must be a simple, non-empty file name"
    );
    assert_eq!(
        Error::UnsupportedTransport { name: "echo".to_string(), transport: "http".to_string() }.message(),
        "echo: unsupported transport http"
    );
    assert_eq!(Error::EmptyServerCommand { name: "echo".to_string() }.message(), "echo: server command is empty");
    assert_eq!(
        Error::ZeroTimeout { fixture: Some("echo".to_string()) }.message(),
        "echo: timeout_ms must be greater than zero"
    );
    assert_eq!(Error::ZeroTimeout { fixture: None }.message(), "timeout_ms must be greater than zero");
    assert_eq!(Error::MissingServerCommand.message(), "server command is required after --");
    assert_eq!(Error::ServerError { error: Json::Null }.message(), "MCP server returned an error: ");
}

#[test]
fn the_test_run_status_follows_the_failures() {
    assert_eq!(astray_verify::report::tests_outcome(0), ("ok", true));
    assert_eq!(astray_verify::report::tests_outcome(2), ("failed", false));
}
