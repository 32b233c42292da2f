use vstd::prelude::*;

use crate::audit::{issues_view, AuditIssue, IssueV, Severity};
use crate::contract::{names_of, tool_names};
use crate::protocol::{ContractV, ServerContract};
use crate::config::{
    fixtures_dir, is_safe_relative_path, join_path, join_path_text, safe_relative_path, CheckKind, CheckSettings, ProjectConfig, CONFIG_FILE,
};
use crate::contract::strings_view;
use crate::entries::{keys_distinct, lemma_lookup_distinct};
use crate::audit::surface_word;
use crate::error::Error;
use crate::fixture::Verdict;
use crate::text::{
    decimal, decimal_text, join3, lemma_str_lt_total, lemma_str_lt_transitive, same_text, str_less,
    str_lt,
};
use crate::json::{array_of, entries_view, object_of, string_of, values_view, Json, JsonV, Number};
use crate::ui::Ui;

verus! {

/// Adds the line, if there is one.
fn push_line(lines: &mut Vec<String>, line: Option<String>)
    ensures
        strings_view(final(lines)@) == match line {
            Some(l) => strings_view(old(lines)@).push(l@),
            None => strings_view(old(lines)@),
        },
{
    match line {
        Some(l) => {
            lines.push(l);
            proof {
                assert(strings_view(lines@) =~= strings_view(old(lines)@).push(l@));
            }
        },
        None => {},
    }
}

/// `s` when `n` is not one, for plurals.
pub open spec fn plural(n: nat) -> Seq<char> {
    if n == 1 {
        ""@
    } else {
        "s"@
    }
}

fn plural_text(n: u64) -> (r: &'static str)
    ensures
        r@ == plural(n as nat),
{
    if n == 1 {
        ""
    } else {
        "s"
    }
}

/// What `init` reports.
pub struct InitReport {
    pub config: String,
    pub fixtures_dir: String,
    pub created: bool,
    pub note: Option<String>,
}

/// `init`, once the project is ensured: the lines to show after the header
/// (the config file created or used, the fixtures directory) and the report.
pub fn init(root: &str, config: &ProjectConfig, created: bool, ui: &Ui) -> (r: Result<
    (Vec<String>, InitReport),
    Error,
>)
    ensures
        match r {
            Ok((lines, report)) => {
                let config_path = join_path(root@, CONFIG_FILE@);
                let dir = join_path(root@, config.fixtures_dir@);
                &&& is_safe_relative_path(config.fixtures_dir@)
                &&& strings_view(lines@) == (if ui.json {
                    Seq::<Seq<char>>::empty()
                } else {
                    seq![
                        ui.painted("1;32"@, "✓"@) + " "@ + (if created {
                            "Created "@
                        } else {
                            "Using "@
                        }) + config_path,
                        "  "@ + ui.painted("2"@, "fixtures"@) + " "@ + dir,
                    ]
                })
                &&& report.config@ == config_path
                &&& report.fixtures_dir@ == dir
                &&& report.created == created
                &&& match report.note {
                    Some(n) => !created && n@ == "configuration already existed"@,
                    None => created,
                }
            },
            Err(e) => !crate::config::is_safe_relative_path(config.fixtures_dir@) && e.is_unsafe_path(
                "fixtures_dir"@,
            ),
        },
{
    let dir = fixtures_dir(root, config)?;
    let config_path = join_path_text(root, CONFIG_FILE);
    let mut lines = Vec::new();
    let verb = if created {
        "Created "
    } else {
        "Using "
    };
    let message = join3(verb, config_path.as_str(), "");
    proof {
        reveal_strlit("");
        assert(message@ =~= verb@ + config_path@);
    }
    let first = ui.success_line(message.as_str());
    let second = ui.detail_line("fixtures", dir.as_str());
    let ghost g1 = first;
    let ghost g2 = second;
    push_line(&mut lines, first);
    push_line(&mut lines, second);
    proof {
        if ui.json {
            assert(strings_view(lines@) =~= Seq::<Seq<char>>::empty());
        } else {
            let a = g1->Some_0@;
            let b = g2->Some_0@;
            assert(a =~= ui.painted("1;32"@, "✓"@) + " "@ + verb@ + config_path@);
            assert(strings_view(lines@) =~= seq![a, b]);
        }
    }
    let note = if created {
        None
    } else {
        Some(String::from_str("configuration already existed"))
    };
    Ok((lines, InitReport { config: config_path, fixtures_dir: dir, created, note }))
}

/// `record`'s line for the number of tools captured.
pub fn captured_text(n: u64) -> (r: String)
    ensures
        r@ == "Captured "@ + decimal(n as nat) + " tool"@ + plural(n as nat),
{
    let count = decimal_text(n);
    let mut s = join3("Captured ", count.as_str(), " tool");
    s.append(plural_text(n));
    s
}

impl Ui {
    /// The text of a detail line.
    pub open spec fn detail_text(&self, label: Seq<char>, value: Seq<char>) -> Seq<char> {
        "  "@ + self.painted("2"@, label) + " "@ + value
    }

    /// The text of a success line.
    pub open spec fn success_text(&self, text: Seq<char>) -> Seq<char> {
        self.painted("1;32"@, "✓"@) + " "@ + text
    }

    /// The text of a failure line.
    pub open spec fn failure_text(&self, text: Seq<char>) -> Seq<char> {
        self.painted("1;31"@, "✗"@) + " "@ + text
    }
}

/// How a verdict reads on screen: a pass line with the name, or
/// `FAIL` with the name and a detail line per change (or, without any, a
/// note that the tools list changed).
pub open spec fn verdict_text(ui: Ui, name: Seq<char>, verdict: Verdict) -> Seq<Seq<char>> {
    if ui.json {
        Seq::empty()
    } else {
        match verdict {
            Verdict::Pass => seq![ui.success_text("PASS  "@ + name)],
            Verdict::Fail { changes } => seq![ui.failure_text("FAIL  "@ + name)]
                + strings_view(changes@).map_values(|c: Seq<char>| ui.detail_text(""@, c)) + (if changes@.len()
                == 0 {
                seq![ui.detail_text(""@, "tools/list changed; record again only if this was intentional."@)]
            } else {
                Seq::empty()
            }),
        }
    }
}

pub fn verdict_lines(ui: &Ui, name: &str, verdict: &Verdict) -> (r: Vec<String>)
    ensures
        strings_view(r@) == verdict_text(*ui, name@, *verdict),
        shows_verdict(strings_view(r@), *ui, name@, *verdict),
{
    proof {
        lemma_verdict_shows_every_change(*ui, name@, *verdict);
    }
    let mut lines: Vec<String> = Vec::new();
    if ui.json {
        proof {
            assert(strings_view(lines@) =~= verdict_text(*ui, name@, *verdict));
        }
        return lines;
    }
    match verdict {
        Verdict::Pass => {
            let text = join3("PASS  ", name, "");
            proof {
                reveal_strlit("");
                assert(text@ =~= "PASS  "@ + name@);
            }
            let line = ui.success_line(text.as_str());
            push_line(&mut lines, line);
            proof {
                assert(strings_view(lines@) =~= verdict_text(*ui, name@, *verdict));
            }
        },
        Verdict::Fail { changes } => {
            let text = join3("FAIL  ", name, "");
            proof {
                reveal_strlit("");
                assert(text@ =~= "FAIL  "@ + name@);
            }
            let line = ui.failure_line(text.as_str());
            push_line(&mut lines, line);
            let ghost head = strings_view(lines@);
            let ghost details = strings_view(changes@).map_values(|c: Seq<char>| ui.detail_text(""@, c));
            let mut i: usize = 0;
            while i < changes.len()
                invariant
                    !ui.json,
                    i <= changes.len(),
                    details == strings_view(changes@).map_values(|c: Seq<char>| ui.detail_text(""@, c)),
                    strings_view(lines@) == head + details.take(i as int),
                decreases changes.len() - i,
            {
                let line = ui.detail_line("", changes[i].as_str());
                let ghost before = strings_view(lines@);
                push_line(&mut lines, line);
                proof {
                    assert(details.take(i + 1) =~= details.take(i as int).push(details[i as int]));
                }
                i = i + 1;
            }
            proof {
                assert(details.take(changes.len() as int) =~= details);
            }
            if changes.len() == 0 {
                let line = ui.detail_line("", "tools/list changed; record again only if this was intentional.");
                push_line(&mut lines, line);
            }
            proof {
                assert(strings_view(lines@) =~= verdict_text(*ui, name@, *verdict));
            }
        },
    }
    lines
}

/// The last `.mcp` suffixes taken off, as `trim_end_matches(".mcp")` does.
pub open spec fn trim_mcp(s: Seq<char>) -> Seq<char>
    decreases s.len(),
{
    if s.len() >= 4 && s.subrange(s.len() - 4, s.len() as int) == ".mcp"@ {
        trim_mcp(s.subrange(0, s.len() - 4))
    } else {
        s
    }
}

/// Where the last `.` of the first `n` characters is (-1 if none).
pub open spec fn last_dot(name: Seq<char>, n: int) -> int
    decreases n,
{
    if n <= 0 {
        -1
    } else if name[n - 1] == '.' {
        n - 1
    } else {
        last_dot(name, n - 1)
    }
}

/// `Path::file_stem` of a file name: the part before the last `.`, unless
/// that dot is the first character (or there is none).
pub open spec fn file_stem(name: Seq<char>) -> Seq<char> {
    let k = last_dot(name, name.len() as int);
    if k > 0 {
        name.subrange(0, k)
    } else {
        name
    }
}

/// The name `run_tests` reports for a fixture file that failed: its stem
/// without `.mcp` suffixes, or `unknown` when it has no file name.
pub open spec fn failed_name(file_name: Option<Seq<char>>) -> Seq<char> {
    match file_name {
        Some(n) => trim_mcp(file_stem(n)),
        None => "unknown"@,
    }
}

fn file_stem_text(name: &str) -> (r: String)
    ensures
        r@ == file_stem(name@),
{
    let len = name.unicode_len();
    let mut n: usize = len;
    while n > 0 && name.get_char(n - 1) != '.'
        invariant
            len == name@.len(),
            n <= len,
            last_dot(name@, len as int) == last_dot(name@, n as int),
        decreases n,
    {
        n = n - 1;
    }
    if n >= 2 {
        name.substring_char(0, n - 1).to_owned()
    } else {
        name.to_owned()
    }
}

fn trim_mcp_text(s: &str) -> (r: String)
    ensures
        r@ == trim_mcp(s@),
{
    proof {
        reveal_strlit(".mcp");
    }
    let mut end = s.unicode_len();
    proof {
        assert(s@.subrange(0, end as int) =~= s@);
    }
    while end >= 4 && s.get_char(end - 4) == '.' && s.get_char(end - 3) == 'm' && s.get_char(end - 2)
        == 'c' && s.get_char(end - 1) == 'p'
        invariant
            end <= s@.len(),
            trim_mcp(s@) == trim_mcp(s@.subrange(0, end as int)),
        decreases end,
    {
        let ghost t = s@.subrange(0, end as int);
        proof {
            reveal_strlit(".mcp");
            assert(t.subrange(t.len() - 4, t.len() as int) =~= ".mcp"@);
            assert(t.subrange(0, t.len() - 4) =~= s@.subrange(0, end - 4));
        }
        end = end - 4;
    }
    proof {
        reveal_strlit(".mcp");
        let t = s@.subrange(0, end as int);
        if end >= 4 {
            assert(t.subrange(t.len() - 4, t.len() as int) != ".mcp"@) by {
                if t.subrange(t.len() - 4, t.len() as int) == ".mcp"@ {
                    assert(t.subrange(t.len() - 4, t.len() as int)[0] == '.');
                    assert(t.subrange(t.len() - 4, t.len() as int)[1] == 'm');
                    assert(t.subrange(t.len() - 4, t.len() as int)[2] == 'c');
                    assert(t.subrange(t.len() - 4, t.len() as int)[3] == 'p');
                }
            }
        }
    }
    s.substring_char(0, end).to_owned()
}

/// The name `run_tests` reports for a fixture file that failed.
pub fn failed_fixture_name(file_name: Option<&str>) -> (r: String)
    ensures
        r@ == failed_name(
            match file_name {
                Some(n) => Some(n@),
                None => None,
            },
        ),
{
    match file_name {
        Some(n) => {
            let stem = file_stem_text(n);
            trim_mcp_text(stem.as_str())
        },
        None => String::from_str("unknown"),
    }
}

/// Names in strictly increasing order.
pub open spec fn strictly_sorted(s: Seq<Seq<char>>) -> bool {
    forall|i: int, j: int| 0 <= i < j < s.len() ==> str_lt(#[trigger] s[i], #[trigger] s[j])
}

/// The file name has the extension `json` (as `Path::extension` reads it:
/// after the last dot, which must not be the first character).
pub open spec fn has_json_extension(name: Seq<char>) -> bool {
    name.len() > 5 && name.subrange(name.len() - 5, name.len() as int) == ".json"@
}

fn has_json_extension_exec(name: &str) -> (r: bool)
    ensures
        r == has_json_extension(name@),
{
    proof {
        reveal_strlit(".json");
    }
    let len = name.unicode_len();
    if len <= 5 {
        return false;
    }
    let tail = name.substring_char(len - 5, len);
    let r = same_text(tail, ".json");
    r
}

/// Puts a name into a strictly sorted list, unless it is there already.
fn insert_name(out: &mut Vec<String>, x: String)
    requires
        strictly_sorted(strings_view(old(out)@)),
    ensures
        strictly_sorted(strings_view(final(out)@)),
        forall|n: Seq<char>| #[trigger] strings_view(final(out)@).contains(n) <==> (strings_view(
            old(out)@,
        ).contains(n) || n == x@),
{
    let ghost old_v = strings_view(out@);
    let ghost xv = x@;
    let len = out.len();
    let mut p: usize = 0;
    while p < len && str_less(out[p].as_str(), x.as_str())
        invariant
            len == out.len(),
            out@ == old(out)@,
            old_v == strings_view(out@),
            xv == x@,
            p <= len,
            forall|j: int| 0 <= j < p ==> str_lt(#[trigger] old_v[j], xv),
        decreases len - p,
    {
        p = p + 1;
    }
    proof {
        if p < len {
            lemma_str_lt_total(old_v[p as int], xv);
        }
        assert forall|j: int| p < j < len implies str_lt(xv, #[trigger] old_v[j]) by {
            assert(str_lt(old_v[p as int], old_v[j]));
            if old_v[p as int] != xv {
                lemma_str_lt_transitive(xv, old_v[p as int], old_v[j]);
            }
        }
    }
    if p < len && out[p] == x {
        proof {
            assert forall|n: Seq<char>| #[trigger] strings_view(out@).contains(n) <==> (old_v.contains(n) || n == xv) by {
                if n == xv {
                    assert(old_v[p as int] == xv);
                }
            }
        }
        return;
    }
    out.insert(p, x);
    proof {
        let nv = strings_view(out@);
        assert(nv =~= old_v.insert(p as int, xv));
        assert(strictly_sorted(nv)) by {
            assert forall|a: int, b: int| 0 <= a < b < nv.len() implies str_lt(#[trigger] nv[a], #[trigger] nv[b]) by {
                if b < p {
                    assert(nv[a] == old_v[a] && nv[b] == old_v[b]);
                } else if b == p {
                    assert(nv[a] == old_v[a]);
                } else if a < p {
                    assert(nv[a] == old_v[a] && nv[b] == old_v[b - 1]);
                    if b - 1 > p {
                        lemma_str_lt_transitive(old_v[a], xv, old_v[b - 1]);
                    } else if old_v[p as int] != xv {
                        lemma_str_lt_transitive(old_v[a], xv, old_v[b - 1]);
                    }
                } else if a == p {
                    assert(nv[b] == old_v[b - 1]);
                } else {
                    assert(nv[a] == old_v[a - 1] && nv[b] == old_v[b - 1]);
                }
            }
        }
        assert forall|n: Seq<char>| #[trigger] nv.contains(n) <==> (old_v.contains(n) || n == xv) by {
            if nv.contains(n) {
                let a = choose|a: int| 0 <= a < nv.len() && nv[a] == n;
                if a < p {
                    assert(old_v[a] == n);
                } else if a > p {
                    assert(old_v[a - 1] == n);
                }
            }
            if old_v.contains(n) {
                let a = choose|a: int| 0 <= a < old_v.len() && old_v[a] == n;
                if a < p {
                    assert(nv[a] == n);
                } else {
                    assert(nv[a + 1] == n);
                }
            }
            if n == xv {
                assert(nv[p as int] == n);
            }
        }
    }
}

/// The fixture files of a directory listing: the names with the extension
/// `json`, in order, each once.
pub fn select_fixture_files(names: &Vec<String>) -> (r: Vec<String>)
    ensures
        strictly_sorted(strings_view(r@)),
        forall|n: Seq<char>| #[trigger] strings_view(r@).contains(n) <==> (strings_view(
            names@,
        ).contains(n) && has_json_extension(n)),
{
    let mut out: Vec<String> = Vec::new();
    let ghost nv = strings_view(names@);
    let mut i: usize = 0;
    while i < names.len()
        invariant
            i <= names.len(),
            nv == strings_view(names@),
            strictly_sorted(strings_view(out@)),
            forall|n: Seq<char>| #[trigger] strings_view(out@).contains(n) <==> (nv.take(i as int).contains(n)
                && has_json_extension(n)),
        decreases names.len() - i,
    {
        let ghost before = strings_view(out@);
        proof {
            assert(nv.take(i + 1) =~= nv.take(i as int).push(nv[i as int]));
        }
        if has_json_extension_exec(names[i].as_str()) {
            insert_name(&mut out, names[i].clone());
        }
        proof {
            assert forall|n: Seq<char>| #[trigger] strings_view(out@).contains(n) <==> (nv.take(i + 1).contains(n)
                && has_json_extension(n)) by {
                if nv.take(i + 1).contains(n) && n != nv[i as int] {
                    let a = choose|a: int| 0 <= a < i + 1 && #[trigger] nv.take(i + 1)[a] == n;
                    assert(nv.take(i as int)[a] == n);
                }
                if nv.take(i as int).contains(n) {
                    let a = choose|a: int| 0 <= a < i && #[trigger] nv.take(i as int)[a] == n;
                    assert(nv.take(i + 1)[a] == n);
                }
                assert(nv.take(i + 1)[i as int] == nv[i as int]);
            }
        }
        i = i + 1;
    }
    proof {
        assert(nv.take(names.len() as int) =~= nv);
    }
    out
}

/// `run_tests`' summary line.
pub fn tests_summary(passed: u64, failed: u64) -> (r: String)
    ensures
        r@ == decimal(passed as nat) + " passed · "@ + decimal(failed as nat) + " failed"@,
{
    let p = decimal_text(passed);
    let f = decimal_text(failed);
    let mut s = join3(p.as_str(), " passed · ", f.as_str());
    s.append(" failed");
    s
}

/// `run_tests` succeeds when no fixture failed.
pub open spec fn tests_status_ok(failed: nat) -> bool {
    failed == 0
}

/// `run_tests`' outcome from the number of fixtures that failed: its
/// status word, `ok` or `failed`, and whether the run succeeded.
pub fn tests_outcome(failed: u64) -> (r: (&'static str, bool))
    ensures
        r.1 == tests_status_ok(failed as nat),
        r.0@ == if r.1 {
            "ok"@
        } else {
            "failed"@
        },
{
    if failed == 0 {
        ("ok", true)
    } else {
        ("failed", false)
    }
}

/// The settings of an audit: all three surfaces, the given timeout, which
/// must not be zero.
pub fn audit_settings(timeout_ms: u64) -> (r: Result<CheckSettings, Error>)
    ensures
        match r {
            Ok(s) => timeout_ms > 0 && s.timeout_ms == timeout_ms && s.checks@ == seq![
                CheckKind::Tools,
                CheckKind::Resources,
                CheckKind::Prompts,
            ],
            Err(e) => timeout_ms == 0 && e == Error::ZeroTimeout { fixture: None },
        },
{
    if timeout_ms == 0 {
        return Err(Error::ZeroTimeout { fixture: None });
    }
    let mut checks = Vec::new();
    checks.push(CheckKind::Tools);
    checks.push(CheckKind::Resources);
    checks.push(CheckKind::Prompts);
    proof {
        assert(checks@ =~= seq![CheckKind::Tools, CheckKind::Resources, CheckKind::Prompts]);
    }
    Ok(CheckSettings { checks, timeout_ms })
}

/// The lines `audit` shows: the weakest link with its finding and repair,
/// then every other finding with its severity.
pub open spec fn audit_text(ui: Ui, findings: Seq<AuditIssue>) -> Seq<Seq<char>> {
    if ui.json {
        Seq::empty()
    } else {
        let top = findings[0];
        seq![
            ui.failure_text("Weakest link: "@ + top.area@ + " ("@ + top.severity.word() + ")"@),
            ui.detail_text("finding"@, top.finding@),
            ui.detail_text("action"@, top.recommendation@),
        ] + findings.skip(1).map_values(
            |f: AuditIssue| ui.detail_text(f.severity.word(), f.area@ + ": "@ + f.finding@),
        )
    }
}

pub fn audit_lines(ui: &Ui, findings: &Vec<AuditIssue>) -> (r: Vec<String>)
    requires
        findings.len() > 0,
    ensures
        strings_view(r@) == audit_text(*ui, findings@),
{
    let mut lines: Vec<String> = Vec::new();
    if ui.json {
        proof {
            assert(strings_view(lines@) =~= audit_text(*ui, findings@));
        }
        return lines;
    }
    let top = &findings[0];
    let mut head = join3("Weakest link: ", top.area.as_str(), " (");
    head.append(top.severity.as_str());
    head.append(")");
    push_line(&mut lines, ui.failure_line(head.as_str()));
    push_line(&mut lines, ui.detail_line("finding", top.finding.as_str()));
    push_line(&mut lines, ui.detail_line("action", top.recommendation.as_str()));
    let ghost first = strings_view(lines@);
    let ghost rest = findings@.skip(1).map_values(
        |f: AuditIssue| ui.detail_text(f.severity.word(), f.area@ + ": "@ + f.finding@),
    );
    proof {
        assert(first =~= seq![
            ui.failure_text("Weakest link: "@ + top.area@ + " ("@ + top.severity.word() + ")"@),
            ui.detail_text("finding"@, top.finding@),
            ui.detail_text("action"@, top.recommendation@),
        ]);
    }
    let mut i: usize = 1;
    while i < findings.len()
        invariant
            !ui.json,
            1 <= i <= findings.len(),
            rest == findings@.skip(1).map_values(
                |f: AuditIssue| ui.detail_text(f.severity.word(), f.area@ + ": "@ + f.finding@),
            ),
            strings_view(lines@) == first + rest.take(i - 1),
        decreases findings.len() - i,
    {
        let f = &findings[i];
        let text = join3(f.area.as_str(), ": ", f.finding.as_str());
        push_line(&mut lines, ui.detail_line(f.severity.as_str(), text.as_str()));
        proof {
            assert(rest[i - 1] == ui.detail_text(f.severity.word(), f.area@ + ": "@ + f.finding@));
            assert(rest.take(i as int) =~= rest.take(i - 1).push(rest[i - 1]));
        }
        i = i + 1;
    }
    proof {
        assert(rest.take(findings.len() - 1) =~= rest);
        assert(strings_view(lines@) =~= audit_text(*ui, findings@));
    }
    lines
}

/// The lower-case name of a surface.
pub open spec fn check_word(k: CheckKind) -> Seq<char> {
    k.result_key()
}

/// The checks as `format!("{:?}", checks).to_lowercase()` writes them:
/// `[tools, resources]`.
pub open spec fn checks_text(checks: Seq<CheckKind>) -> Seq<char> {
    "["@ + joined_words(checks) + "]"@
}

/// The words of the checks joined by `, `.
pub open spec fn joined_words(checks: Seq<CheckKind>) -> Seq<char>
    decreases checks.len(),
{
    if checks.len() == 0 {
        Seq::empty()
    } else if checks.len() == 1 {
        check_word(checks[0])
    } else {
        joined_words(checks.drop_last()) + ", "@ + check_word(checks.last())
    }
}

pub fn checks_display(checks: &Vec<CheckKind>) -> (r: String)
    ensures
        r@ == checks_text(checks@),
{
    let mut words = String::from_str("");
    proof {
        reveal_strlit("");
        assert(words@ =~= joined_words(checks@.take(0)));
    }
    let mut i: usize = 0;
    while i < checks.len()
        invariant
            i <= checks.len(),
            words@ == joined_words(checks@.take(i as int)),
        decreases checks.len() - i,
    {
        proof {
            assert(checks@.take(i + 1).drop_last() =~= checks@.take(i as int));
        }
        if i > 0 {
            words.append(", ");
        }
        words.append(checks[i].key_name());
        proof {
            if i == 0 {
                assert(words@ =~= check_word(checks@[0]));
            }
        }
        i = i + 1;
    }
    proof {
        assert(checks@.take(checks.len() as int) =~= checks@);
    }
    join3("[", words.as_str(), "]")
}

/// A duration in milliseconds as shown: `20000 ms`.
pub fn millis_text(ms: u64) -> (r: String)
    ensures
        r@ == decimal(ms as nat) + " ms"@,
{
    let d = decimal_text(ms);
    let mut s = String::from_str(d.as_str());
    s.append(" ms");
    s
}

/// The lines `config` shows: the header, then the fixtures directory, the
/// default checks and the default timeout.
pub fn config_lines(ui: &Ui, config: &ProjectConfig) -> (r: Vec<String>)
    ensures
        strings_view(r@) == if ui.json {
            Seq::<Seq<char>>::empty()
        } else {
            ui.header_lines_spec("Project configuration"@) + seq![
                ui.detail_text("fixtures"@, config.fixtures_dir@),
                ui.detail_text("checks"@, checks_text(config.defaults.checks@)),
                ui.detail_text("timeout"@, decimal(config.defaults.timeout_ms as nat) + " ms"@),
            ]
        },
{
    let mut lines: Vec<String> = Vec::new();
    if ui.json {
        proof {
            assert(strings_view(lines@) =~= Seq::<Seq<char>>::empty());
        }
        return lines;
    }
    let mut lines = ui.header_lines("Project configuration");
    let ghost head = strings_view(lines@);
    push_line(&mut lines, ui.detail_line("fixtures", config.fixtures_dir.as_str()));
    let checks = checks_display(&config.defaults.checks);
    push_line(&mut lines, ui.detail_line("checks", checks.as_str()));
    let timeout = millis_text(config.defaults.timeout_ms);
    push_line(&mut lines, ui.detail_line("timeout", timeout.as_str()));
    proof {
        assert(strings_view(lines@) =~= head + seq![
            ui.detail_text("fixtures"@, config.fixtures_dir@),
            ui.detail_text("checks"@, checks_text(config.defaults.checks@)),
            ui.detail_text("timeout"@, decimal(config.defaults.timeout_ms as nat) + " ms"@),
        ]);
    }
    lines
}

/// The line `doctor` shows for the number of fixtures.
pub fn fixture_count_line(ui: &Ui, count: u64) -> (r: Option<String>)
    ensures
        match r {
            Some(line) => !ui.json && line@ == if count == 0 {
                ui.failure_text("No fixtures captured yet"@)
            } else {
                ui.success_text(decimal(count as nat) + " fixture"@ + plural(count as nat) + " available"@)
            },
            None => ui.json,
        },
{
    if count == 0 {
        ui.failure_line("No fixtures captured yet")
    } else {
        let d = decimal_text(count);
        let mut text = join3(d.as_str(), " fixture", plural_text(count));
        text.append(" available");
        ui.success_line(text.as_str())
    }
}

/// `doctor` is satisfied when there is a fixture and, if the suite ran,
/// it passed.
pub fn doctor_ok(fixtures: u64, suite_passed: Option<bool>) -> (r: bool)
    ensures
        r == (fixtures > 0 && suite_passed != Some(false)),
{
    fixtures > 0 && match suite_passed {
        Some(passed) => passed,
        None => true,
    }
}

/// A member of an object.
pub open spec fn member(key: Seq<char>, value: JsonV) -> (Seq<char>, JsonV) {
    (key, value)
}

/// One check of `doctor`'s report: its name, status and path.
pub open spec fn doctor_check(name: Seq<char>, status: Seq<char>, path: Seq<char>) -> JsonV {
    JsonV::Object(
        seq![
            member("name"@, JsonV::Str(name)),
            member("path"@, JsonV::Str(path)),
            member("status"@, JsonV::Str(status)),
        ],
    )
}

fn entry(key: &str, value: Json) -> (r: (String, Json))
    ensures
        r.0@ == key@,
        r.1@ == value@,
{
    (String::from_str(key), value)
}

pub fn make_doctor_check(name: &str, status: &str, path: &str) -> (r: Json)
    ensures
        r@ == doctor_check(name@, status@, path@),
        r@.field("name"@) == Some(JsonV::Str(name@)),
        r@.field("status"@) == Some(JsonV::Str(status@)),
        r@.field("path"@) == Some(JsonV::Str(path@)),
{
    proof {
        lemma_doctor_check_fields(name@, status@, path@);
    }
    let mut v = Vec::new();
    v.push(entry("name", string_of(name)));
    v.push(entry("path", string_of(path)));
    v.push(entry("status", string_of(status)));
    proof {
        assert(entries_view(v@) =~= seq![
            member("name"@, JsonV::Str(name@)),
            member("path"@, JsonV::Str(path@)),
            member("status"@, JsonV::Str(status@)),
        ]);
    }
    object_of(v)
}

/// `doctor`'s check of the fixtures: their count, `missing` or `ok`.
pub open spec fn fixtures_check(count: u64) -> JsonV {
    JsonV::Object(
        seq![
            member("count"@, JsonV::Number(Number::PosInt(count))),
            member("name"@, JsonV::Str("fixtures"@)),
            member("status"@, JsonV::Str(if count == 0 { "missing"@ } else { "ok"@ })),
        ],
    )
}

pub fn make_fixtures_check(count: u64) -> (r: Json)
    ensures
        r@ == fixtures_check(count),
        r@.field("count"@) == Some(JsonV::Number(Number::PosInt(count))),
        r@.field("name"@) == Some(JsonV::Str("fixtures"@)),
        (r@.field("status"@) == Some(JsonV::Str("missing"@))) <==> count == 0,
        count > 0 ==> r@.field("status"@) == Some(JsonV::Str("ok"@)),
{
    proof {
        lemma_fixtures_check_status(count);
    }
    let mut v = Vec::new();
    v.push(entry("count", Json::Number(Number::PosInt(count))));
    v.push(entry("name", string_of("fixtures")));
    v.push(entry("status", string_of(if count == 0 { "missing" } else { "ok" })));
    proof {
        assert(entries_view(v@) =~= fixtures_check(count)->Object_0);
    }
    object_of(v)
}

/// `doctor`'s report: its checks, and `ok` or `attention`.
pub open spec fn doctor_report(ok: bool, checks: Seq<JsonV>) -> JsonV {
    JsonV::Object(
        seq![
            member("checks"@, JsonV::Array(checks)),
            member("command"@, JsonV::Str("doctor"@)),
            member("status"@, JsonV::Str(if ok { "ok"@ } else { "attention"@ })),
        ],
    )
}

pub fn make_doctor_report(ok: bool, checks: Vec<Json>) -> (r: Json)
    ensures
        r@ == doctor_report(ok, values_view(checks@)),
        r@.field("command"@) == Some(JsonV::Str("doctor"@)),
        r@.field("checks"@) == Some(JsonV::Array(values_view(checks@))),
        (r@.field("status"@) == Some(JsonV::Str("ok"@))) <==> ok,
        !ok ==> r@.field("status"@) == Some(JsonV::Str("attention"@)),
{
    proof {
        lemma_doctor_report_fields(ok, values_view(checks@));
    }
    let mut v = Vec::new();
    v.push(entry("checks", array_of(checks)));
    v.push(entry("command", string_of("doctor")));
    v.push(entry("status", string_of(if ok { "ok" } else { "attention" })));
    proof {
        assert(entries_view(v@) =~= doctor_report(ok, values_view(checks@))->Object_0);
    }
    object_of(v)
}

/// A line of the execution log: when, which command, `ok` or `failed`,
/// and the error if there was one.
pub open spec fn log_entry(timestamp: u64, command: Seq<char>, ok: bool, error: Option<Seq<char>>) -> JsonV {
    JsonV::Object(
        seq![
            member("command"@, JsonV::Str(command)),
            member(
                "error"@,
                match error {
                    Some(e) => JsonV::Str(e),
                    None => JsonV::Null,
                },
            ),
            member("status"@, JsonV::Str(if ok { "ok"@ } else { "failed"@ })),
            member("timestamp"@, JsonV::Number(Number::PosInt(timestamp))),
        ],
    )
}

/// The text of an optional string.
pub open spec fn opt_text(o: Option<String>) -> Option<Seq<char>> {
    match o {
        Some(s) => Some(s@),
        None => None,
    }
}

/// `run`'s log line. The status is `ok` only when the command succeeded
/// and reported success.
pub fn make_log_entry(timestamp: u64, command: &str, succeeded: Option<bool>, error: Option<String>) -> (r:
    Json)
    ensures
        r@ == log_entry(
            timestamp,
            command@,
            succeeded == Some(true),
            opt_text(error),
        ),
        r@.field("command"@) == Some(JsonV::Str(command@)),
        r@.field("timestamp"@) == Some(JsonV::Number(Number::PosInt(timestamp))),
        r@.field("error"@) == Some(
            match error {
                Some(e) => JsonV::Str(e@),
                None => JsonV::Null,
            },
        ),
        (r@.field("status"@) == Some(JsonV::Str("ok"@))) <==> succeeded == Some(true),
        succeeded != Some(true) ==> r@.field("status"@) == Some(JsonV::Str("failed"@)),
{
    proof {
        lemma_log_entry_fields(timestamp, command@, succeeded == Some(true), opt_text(error));
    }
    let ok = match succeeded {
        Some(s) => s,
        None => false,
    };
    let ghost ev = opt_text(error);
    let error_value = match error {
        Some(e) => Json::Str(e),
        None => Json::Null,
    };
    let mut v = Vec::new();
    v.push(entry("command", string_of(command)));
    v.push(entry("error", error_value));
    v.push(entry("status", string_of(if ok { "ok" } else { "failed" })));
    v.push(entry("timestamp", Json::Number(Number::PosInt(timestamp))));
    proof {
        assert(entries_view(v@) =~= log_entry(timestamp, command@, ok, ev)->Object_0);
    }
    object_of(v)
}

/// The seconds since the epoch of a modification time, as `read_mtime`
/// reads them: zero when the time is unknown (`None`) or before the epoch
/// (`Some(None)`).
pub fn read_mtime(time: Option<Option<u64>>) -> (r: u64)
    ensures
        r == match time {
            Some(Some(secs)) => secs,
            _ => 0,
        },
{
    match time {
        Some(Some(secs)) => secs,
        _ => 0,
    }
}

/// The JSON form of a check kind: its lower-case name.
pub open spec fn check_value(k: CheckKind) -> JsonV {
    JsonV::Str(k.result_key())
}

/// The JSON form of the project configuration.
pub open spec fn config_value(config: ProjectConfig) -> JsonV {
    JsonV::Object(
        seq![
            member(
                "defaults"@,
                JsonV::Object(
                    seq![
                        member("checks"@, JsonV::Array(config.defaults.checks@.map_values(|k: CheckKind| check_value(k)))),
                        member("timeout_ms"@, JsonV::Number(Number::PosInt(config.defaults.timeout_ms))),
                    ],
                ),
            ),
            member("fixtures_dir"@, JsonV::Str(config.fixtures_dir@)),
            member("version"@, JsonV::Number(Number::PosInt(config.version as u64))),
        ],
    )
}

/// `config`'s report.
pub open spec fn config_report(config: ProjectConfig) -> JsonV {
    JsonV::Object(
        seq![
            member("command"@, JsonV::Str("config"@)),
            member("config"@, config_value(config)),
            member("status"@, JsonV::Str("ok"@)),
        ],
    )
}

pub fn make_config_report(config: &ProjectConfig) -> (r: Json)
    ensures
        r@ == config_report(*config),
        reports_config(r@, *config),
{
    proof {
        lemma_config_report_mirrors_config(*config);
    }
    let mut checks: Vec<Json> = Vec::new();
    let mut i: usize = 0;
    while i < config.defaults.checks.len()
        invariant
            i <= config.defaults.checks.len(),
            values_view(checks@) == config.defaults.checks@.take(i as int).map_values(
                |k: CheckKind| check_value(k),
            ),
        decreases config.defaults.checks.len() - i,
    {
        let ghost before = values_view(checks@);
        let item = string_of(config.defaults.checks[i].key_name());
        proof {
            assert(item@ == check_value(config.defaults.checks@[i as int]));
        }
        checks.push(item);
        proof {
            assert(values_view(checks@) =~= before.push(item@));
            assert(config.defaults.checks@.take(i + 1) =~= config.defaults.checks@.take(i as int).push(
                config.defaults.checks@[i as int],
            ));
            assert(values_view(checks@) =~= config.defaults.checks@.take(i + 1).map_values(
                |k: CheckKind| check_value(k),
            ));
        }
        i = i + 1;
    }
    proof {
        assert(config.defaults.checks@.take(config.defaults.checks.len() as int) =~= config.defaults.checks@);
    }
    let ghost cv = config_value(*config);
    let checks_value = array_of(checks);
    let mut defaults = Vec::new();
    defaults.push(entry("checks", checks_value));
    defaults.push(entry("timeout_ms", Json::Number(Number::PosInt(config.defaults.timeout_ms))));
    let defaults_value = object_of(defaults);
    proof {
        assert(entries_view(defaults@) =~= cv->Object_0[0].1->Object_0);
        assert(defaults_value@ == cv->Object_0[0].1);
    }
    let mut value = Vec::new();
    value.push(entry("defaults", defaults_value));
    value.push(entry("fixtures_dir", Json::Str(config.fixtures_dir.clone())));
    value.push(entry("version", Json::Number(Number::PosInt(config.version as u64))));
    let config_json = object_of(value);
    proof {
        assert(entries_view(value@) =~= cv->Object_0);
        assert(config_json@ == cv);
    }
    let mut report = Vec::new();
    report.push(entry("command", string_of("config")));
    report.push(entry("config", config_json));
    report.push(entry("status", string_of("ok")));
    proof {
        assert(entries_view(report@) =~= config_report(*config)->Object_0);
    }
    object_of(report)
}

/// The server command is there (`McpProcess::start` needs a program).
pub fn check_server_command(server: &Vec<String>) -> (r: Result<(), Error>)
    ensures
        r is Ok <==> server@.len() > 0,
        r matches Err(e) ==> e == Error::MissingServerCommand,
{
    if server.len() == 0 {
        Err(Error::MissingServerCommand)
    } else {
        Ok(())
    }
}

/// What an audit inspects: a server command, or the server of a saved fixture.
pub enum AuditTarget {
    Command(Vec<String>),
    Fixture(String),
}

/// `audit`'s choice of target and settings: the timeout must not be zero;
/// a server command given after `--` is used, else the fixture named with
/// `--name`, else there is nothing to audit.
pub fn audit_plan(timeout_ms: u64, server: Vec<String>, name: Option<String>) -> (r: Result<
    (AuditTarget, CheckSettings),
    Error,
>)
    ensures
        match r {
            Ok((target, settings)) => timeout_ms > 0 && settings.timeout_ms == timeout_ms
                && settings.checks@ == seq![CheckKind::Tools, CheckKind::Resources, CheckKind::Prompts]
                && match target {
                AuditTarget::Command(s) => server@.len() > 0 && s@ == server@,
                AuditTarget::Fixture(n) => server@.len() == 0 && opt_text(name) == Some(n@),
            },
            Err(e) => if timeout_ms == 0 {
                e == Error::ZeroTimeout { fixture: None }
            } else {
                server@.len() == 0 && name is None && e == Error::NoAuditTarget
            },
        },
{
    let settings = audit_settings(timeout_ms)?;
    if server.len() > 0 {
        return Ok((AuditTarget::Command(server), settings));
    }
    match name {
        Some(n) => Ok((AuditTarget::Fixture(n), settings)),
        None => Err(Error::NoAuditTarget),
    }
}

/// Where `--log` writes: the path, which must be a safe relative path,
/// under the project root.
pub fn log_path(root: &str, path: &str) -> (r: Result<String, Error>)
    ensures
        match r {
            Ok(p) => is_safe_relative_path(path@) && p@ == join_path(root@, path@),
            Err(e) => !is_safe_relative_path(path@) && e.is_unsafe_path("log path"@),
        },
{
    let rel = safe_relative_path(path, "log path")?;
    Ok(join_path_text(root, rel.as_str()))
}

/// The JSON form of an audit finding, its members in the order the report
/// prints them.
pub open spec fn issue_value(i: IssueV) -> JsonV {
    JsonV::Object(
        seq![
            member("area"@, JsonV::Str(i.area)),
            member("severity"@, JsonV::Str(i.severity.word())),
            member("score"@, JsonV::Number(Number::PosInt(i.score as u64))),
            member("finding"@, JsonV::Str(i.finding)),
            member("recommendation"@, JsonV::Str(i.recommendation)),
        ],
    )
}

/// The number of named items of a list, as a JSON number.
pub open spec fn count_value(list: JsonV) -> JsonV {
    JsonV::Number(Number::PosInt(names_of(list).len() as u64))
}

/// `audit`'s report: the contract's protocol version and capabilities, how
/// many named tools, resources and prompts it has, the weakest link (the
/// first finding) and every finding in order, its members in the order the
/// report prints them.
pub open spec fn audit_report(c: ContractV, findings: Seq<IssueV>) -> JsonV {
    JsonV::Object(
        seq![
            member("command"@, JsonV::Str("audit"@)),
            member("status"@, JsonV::Str("ok"@)),
            member(
                "protocol_version"@,
                match c.protocol_version {
                    Some(v) => JsonV::Str(v),
                    None => JsonV::Null,
                },
            ),
            member("capabilities"@, c.capabilities),
            member("tools"@, count_value(c.tools)),
            member("resources"@, count_value(c.resources)),
            member("prompts"@, count_value(c.prompts)),
            member("weakest_link"@, issue_value(findings[0])),
            member("findings"@, JsonV::Array(findings.map_values(|i: IssueV| issue_value(i)))),
        ],
    )
}

fn issue_json(i: &AuditIssue) -> (r: Json)
    ensures
        r@ == issue_value(i@),
{
    let mut v = Vec::new();
    v.push(entry("area", Json::Str(i.area.clone())));
    v.push(entry("severity", string_of(i.severity.as_str())));
    v.push(entry("score", Json::Number(Number::PosInt(i.score as u64))));
    v.push(entry("finding", Json::Str(i.finding.clone())));
    v.push(entry("recommendation", Json::Str(i.recommendation.clone())));
    proof {
        assert(entries_view(v@) =~= issue_value(i@)->Object_0);
    }
    object_of(v)
}

fn count_json(list: &Json) -> (r: Json)
    ensures
        r@ == count_value(list@),
{
    let names = tool_names(list);
    proof {
        assert(names@.len() == names_of(list@).len());
    }
    Json::Number(Number::PosInt(names.len() as u64))
}

/// Builds `audit`'s report from the discovered contract and its findings.
pub fn make_audit_report(contract: &ServerContract, findings: &Vec<AuditIssue>) -> (r: Json)
    requires
        findings.len() > 0,
    ensures
        r@ == audit_report(contract@, issues_view(findings@)),
{
    let mut all: Vec<Json> = Vec::new();
    let mut i: usize = 0;
    while i < findings.len()
        invariant
            i <= findings.len(),
            values_view(all@) == issues_view(findings@).take(i as int).map_values(
                |x: IssueV| issue_value(x),
            ),
        decreases findings.len() - i,
    {
        let ghost before = values_view(all@);
        let item = issue_json(&findings[i]);
        all.push(item);
        proof {
            assert(issues_view(findings@).take(i + 1) =~= issues_view(findings@).take(i as int).push(
                findings@[i as int]@,
            ));
            assert(values_view(all@) =~= before.push(item@));
            assert(values_view(all@) =~= issues_view(findings@).take(i + 1).map_values(
                |x: IssueV| issue_value(x),
            ));
        }
        i = i + 1;
    }
    proof {
        assert(issues_view(findings@).take(findings.len() as int) =~= issues_view(findings@));
    }
    let protocol_version = match &contract.protocol_version {
        Some(v) => Json::Str(v.clone()),
        None => Json::Null,
    };
    let weakest = issue_json(&findings[0]);
    let mut v = Vec::new();
    v.push(entry("command", string_of("audit")));
    v.push(entry("status", string_of("ok")));
    v.push(entry("protocol_version", protocol_version));
    v.push(entry("capabilities", contract.capabilities.duplicate()));
    v.push(entry("tools", count_json(&contract.tools)));
    v.push(entry("resources", count_json(&contract.resources)));
    v.push(entry("prompts", count_json(&contract.prompts)));
    v.push(entry("weakest_link", weakest));
    v.push(entry("findings", array_of(all)));
    proof {
        assert(entries_view(v@) =~= audit_report(contract@, issues_view(findings@))->Object_0);
    }
    object_of(v)
}

/// A member of an object whose keys are distinct is found under its key.
proof fn lemma_member_found(e: Seq<(Seq<char>, JsonV)>, i: int)
    requires
        keys_distinct(e),
        0 <= i < e.len(),
    ensures
        JsonV::Object(e).field(e[i].0) == Some(e[i].1),
{
    lemma_lookup_distinct(e, i);
}

/// Three entries with pairwise different keys have distinct keys.
proof fn lemma_three_keys_distinct(e: Seq<(Seq<char>, JsonV)>)
    requires
        e.len() == 3,
        e[0].0 != e[1].0,
        e[0].0 != e[2].0,
        e[1].0 != e[2].0,
    ensures
        keys_distinct(e),
{
}

/// Two entries with different keys have distinct keys.
proof fn lemma_two_keys_distinct(e: Seq<(Seq<char>, JsonV)>)
    requires
        e.len() == 2,
        e[0].0 != e[1].0,
    ensures
        keys_distinct(e),
{
}

/// The report mirrors the configuration: `config` holds its version, its
/// fixtures directory and, under `defaults`, its checks (each by its
/// lower-case name, in order) and its timeout.
pub open spec fn reports_config(report: JsonV, config: ProjectConfig) -> bool {
    &&& report.field("command"@) == Some(JsonV::Str("config"@))
    &&& report.field("status"@) == Some(JsonV::Str("ok"@))
    &&& report.field("config"@) matches Some(v)
    &&& v.field("version"@) == Some(JsonV::Number(Number::PosInt(config.version as u64)))
    &&& v.field("fixtures_dir"@) == Some(JsonV::Str(config.fixtures_dir@))
    &&& v.field("defaults"@) matches Some(d)
    &&& d.field("timeout_ms"@) == Some(JsonV::Number(Number::PosInt(config.defaults.timeout_ms)))
    &&& d.field("checks"@) matches Some(JsonV::Array(ks))
    &&& ks.len() == config.defaults.checks@.len()
    &&& forall|i: int|
        0 <= i < ks.len() ==> #[trigger] ks[i] == JsonV::Str(surface_word(config.defaults.checks@[i]))
}

/// `config`'s report shows the loaded configuration itself, member by
/// member, and nothing in its place.
pub proof fn lemma_config_report_mirrors_config(config: ProjectConfig)
    ensures
        reports_config(config_report(config), config),
{
    reveal_strlit("command");
    reveal_strlit("config");
    reveal_strlit("status");
    reveal_strlit("defaults");
    reveal_strlit("fixtures_dir");
    reveal_strlit("version");
    reveal_strlit("checks");
    reveal_strlit("timeout_ms");
    let r = config_report(config)->Object_0;
    let v = config_value(config);
    let c = v->Object_0;
    let d = c[0].1;
    let de = d->Object_0;
    assert(r[0].0 == "command"@ && r[1].0 == "config"@ && r[2].0 == "status"@);
    assert("command"@.len() == 7 && "config"@.len() == 6);
    assert("config"@[0] != "status"@[0]);
    assert(c[0].0 == "defaults"@ && c[1].0 == "fixtures_dir"@ && c[2].0 == "version"@);
    assert("defaults"@.len() == 8 && "fixtures_dir"@.len() == 12 && "version"@.len() == 7);
    lemma_three_keys_distinct(r);
    lemma_three_keys_distinct(c);
    assert(de[0].0 == "checks"@ && de[1].0 == "timeout_ms"@);
    assert("checks"@.len() == 6 && "timeout_ms"@.len() == 10);
    lemma_two_keys_distinct(de);
    lemma_member_found(r, 0);
    lemma_member_found(r, 1);
    lemma_member_found(r, 2);
    lemma_member_found(c, 0);
    lemma_member_found(c, 1);
    lemma_member_found(c, 2);
    lemma_member_found(de, 0);
    lemma_member_found(de, 1);
    let ks = de[0].1->Array_0;
    assert forall|i: int| 0 <= i < ks.len() implies #[trigger] ks[i] == JsonV::Str(
        surface_word(config.defaults.checks@[i]),
    ) by {
        match config.defaults.checks@[i] {
            CheckKind::Tools => {},
            CheckKind::Resources => {},
            CheckKind::Prompts => {},
        }
    }
}

/// The fixtures check of `doctor` counts the fixtures and is `missing`
/// exactly when there are none, `ok` for every positive count.
pub proof fn lemma_fixtures_check_status(count: u64)
    ensures
        fixtures_check(count).field("count"@) == Some(JsonV::Number(Number::PosInt(count))),
        fixtures_check(count).field("name"@) == Some(JsonV::Str("fixtures"@)),
        (fixtures_check(count).field("status"@) == Some(JsonV::Str("missing"@))) <==> count == 0,
        count > 0 ==> fixtures_check(count).field("status"@) == Some(JsonV::Str("ok"@)),
{
    reveal_strlit("count");
    reveal_strlit("name");
    reveal_strlit("status");
    reveal_strlit("missing");
    reveal_strlit("ok");
    let e = fixtures_check(count)->Object_0;
    assert(e[0].0 == "count"@ && e[1].0 == "name"@ && e[2].0 == "status"@);
    assert("count"@.len() == 5 && "name"@.len() == 4 && "status"@.len() == 6);
    assert("missing"@.len() == 7 && "ok"@.len() == 2);
    lemma_three_keys_distinct(e);
    lemma_member_found(e, 0);
    lemma_member_found(e, 1);
    lemma_member_found(e, 2);
}

/// One check of `doctor`'s report holds the name, status and path given.
pub proof fn lemma_doctor_check_fields(name: Seq<char>, status: Seq<char>, path: Seq<char>)
    ensures
        doctor_check(name, status, path).field("name"@) == Some(JsonV::Str(name)),
        doctor_check(name, status, path).field("status"@) == Some(JsonV::Str(status)),
        doctor_check(name, status, path).field("path"@) == Some(JsonV::Str(path)),
{
    reveal_strlit("name");
    reveal_strlit("path");
    reveal_strlit("status");
    let e = doctor_check(name, status, path)->Object_0;
    assert(e[0].0 == "name"@ && e[1].0 == "path"@ && e[2].0 == "status"@);
    assert("name"@[0] != "path"@[0] && "status"@.len() == 6 && "name"@.len() == 4 && "path"@.len() == 4);
    lemma_three_keys_distinct(e);
    lemma_member_found(e, 0);
    lemma_member_found(e, 1);
    lemma_member_found(e, 2);
}

/// `doctor`'s report holds its checks in order and is `ok` exactly when the
/// project needs no attention.
pub proof fn lemma_doctor_report_fields(ok: bool, checks: Seq<JsonV>)
    ensures
        doctor_report(ok, checks).field("command"@) == Some(JsonV::Str("doctor"@)),
        doctor_report(ok, checks).field("checks"@) == Some(JsonV::Array(checks)),
        (doctor_report(ok, checks).field("status"@) == Some(JsonV::Str("ok"@))) <==> ok,
        !ok ==> doctor_report(ok, checks).field("status"@) == Some(JsonV::Str("attention"@)),
{
    reveal_strlit("checks");
    reveal_strlit("command");
    reveal_strlit("status");
    reveal_strlit("ok");
    reveal_strlit("attention");
    let e = doctor_report(ok, checks)->Object_0;
    assert(e[0].0 == "checks"@ && e[1].0 == "command"@ && e[2].0 == "status"@);
    assert("checks"@[0] != "status"@[0] && "checks"@.len() == 6 && "command"@.len() == 7);
    assert("ok"@.len() == 2 && "attention"@.len() == 9);
    lemma_three_keys_distinct(e);
    lemma_member_found(e, 0);
    lemma_member_found(e, 1);
    lemma_member_found(e, 2);
}

/// A line of the execution log holds the command, the time, the error if
/// there was one, and `ok` exactly when the command succeeded, else
/// `failed`.
pub proof fn lemma_log_entry_fields(timestamp: u64, command: Seq<char>, ok: bool, error: Option<Seq<char>>)
    ensures
        log_entry(timestamp, command, ok, error).field("command"@) == Some(JsonV::Str(command)),
        log_entry(timestamp, command, ok, error).field("timestamp"@) == Some(
            JsonV::Number(Number::PosInt(timestamp)),
        ),
        log_entry(timestamp, command, ok, error).field("error"@) == Some(
            match error {
                Some(e) => JsonV::Str(e),
                None => JsonV::Null,
            },
        ),
        (log_entry(timestamp, command, ok, error).field("status"@) == Some(JsonV::Str("ok"@))) <==> ok,
        !ok ==> log_entry(timestamp, command, ok, error).field("status"@) == Some(JsonV::Str("failed"@)),
{
    reveal_strlit("command");
    reveal_strlit("error");
    reveal_strlit("status");
    reveal_strlit("timestamp");
    reveal_strlit("ok");
    reveal_strlit("failed");
    let e = log_entry(timestamp, command, ok, error)->Object_0;
    assert(e[0].0 == "command"@ && e[1].0 == "error"@ && e[2].0 == "status"@ && e[3].0 == "timestamp"@);
    assert("command"@.len() == 7 && "error"@.len() == 5 && "status"@.len() == 6 && "timestamp"@.len() == 9);
    assert("ok"@.len() == 2 && "failed"@.len() == 6);
    assert(keys_distinct(e)) by {
        assert forall|i: int, j: int| 0 <= i < e.len() && 0 <= j < e.len() && i != j implies #[trigger] e[i].0
            != #[trigger] e[j].0 by {
            assert(e[i].0.len() != e[j].0.len());
        }
    }
    lemma_member_found(e, 0);
    lemma_member_found(e, 1);
    lemma_member_found(e, 2);
    lemma_member_found(e, 3);
}

/// What a verdict shows: nothing in JSON mode; for a pass, one line marked
/// with a check and `PASS  <name>`; for a failure, the line `FAIL  <name>`
/// marked with a cross, then one detail line for each change, in order, or,
/// when no change was found, one line saying that the tools list changed.
pub open spec fn shows_verdict(lines: Seq<Seq<char>>, ui: Ui, name: Seq<char>, verdict: Verdict) -> bool {
    if ui.json {
        lines.len() == 0
    } else {
        match verdict {
            Verdict::Pass => lines == seq![ui.painted("1;32"@, "✓"@) + " "@ + ("PASS  "@ + name)],
            Verdict::Fail { changes } => {
                &&& lines.len() == 1 + (if changes@.len() == 0 {
                    1
                } else {
                    changes@.len() as int
                })
                &&& lines[0] == ui.painted("1;31"@, "✗"@) + " "@ + ("FAIL  "@ + name)
                &&& forall|k: int|
                    0 <= k < changes@.len() ==> #[trigger] lines[k + 1] == "  "@ + ui.painted("2"@, ""@)
                        + " "@ + changes@[k]@
                &&& changes@.len() == 0 ==> lines[1] == "  "@ + ui.painted("2"@, ""@) + " "@
                    + "tools/list changed; record again only if this was intentional."@
            },
        }
    }
}

/// The lines of a verdict show it: a failure shows every change it found,
/// one line each, in order.
pub proof fn lemma_verdict_shows_every_change(ui: Ui, name: Seq<char>, verdict: Verdict)
    ensures
        shows_verdict(verdict_text(ui, name, verdict), ui, name, verdict),
{
    let lines = verdict_text(ui, name, verdict);
    if !ui.json {
        if let Verdict::Fail { changes } = verdict {
            let details = strings_view(changes@).map_values(|c: Seq<char>| ui.detail_text(""@, c));
            assert forall|k: int| 0 <= k < changes@.len() implies #[trigger] lines[k + 1] == "  "@
                + ui.painted("2"@, ""@) + " "@ + changes@[k]@ by {
                assert(lines[k + 1] == details[k]);
            }
        }
    }
}

} // verus!
