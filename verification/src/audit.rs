use vstd::prelude::*;

use crate::config::CheckKind;
use crate::contract::strings_view;
use crate::json::{values_view, Json, JsonV};
use crate::protocol::ServerContract;
use crate::seq_facts::lemma_filter_none;
use crate::text::join3;

verus! {

/// How serious an audit finding is.
#[derive(Clone, Copy, PartialEq, Eq, Structural, Debug)]
pub enum Severity {
    Critical,
    High,
    Medium,
    Low,
    Info,
}

impl Severity {
    /// The lower-case word for the severity.
    pub fn as_str(&self) -> (r: &'static str)
        ensures
            r@ == self.word(),
    {
        match self {
            Severity::Critical => "critical",
            Severity::High => "high",
            Severity::Medium => "medium",
            Severity::Low => "low",
            Severity::Info => "info",
        }
    }

    pub open spec fn word(self) -> Seq<char> {
        match self {
            Severity::Critical => "critical"@,
            Severity::High => "high"@,
            Severity::Medium => "medium"@,
            Severity::Low => "low"@,
            Severity::Info => "info"@,
        }
    }
}

/// One weakness found by an audit, with its risk score and a repair.
pub struct AuditIssue {
    pub area: String,
    pub severity: Severity,
    pub score: u8,
    pub finding: String,
    pub recommendation: String,
}

/// The model of an audit finding.
pub struct IssueV {
    pub area: Seq<char>,
    pub severity: Severity,
    pub score: u8,
    pub finding: Seq<char>,
    pub recommendation: Seq<char>,
}

impl View for AuditIssue {
    type V = IssueV;

    open spec fn view(&self) -> IssueV {
        IssueV {
            area: self.area@,
            severity: self.severity,
            score: self.score,
            finding: self.finding@,
            recommendation: self.recommendation@,
        }
    }
}

pub open spec fn issues_view(v: Seq<AuditIssue>) -> Seq<IssueV> {
    v.map_values(|i: AuditIssue| i@)
}

pub open spec fn issue(
    area: Seq<char>,
    severity: Severity,
    score: u8,
    finding: Seq<char>,
    recommendation: Seq<char>,
) -> IssueV {
    IssueV { area, severity, score, finding, recommendation }
}

/// The finding for a handshake without a protocol version.
pub open spec fn missing_version_issue() -> IssueV {
    issue(
        "protocol handshake"@,
        Severity::Critical,
        100,
        "initialize did not return protocolVersion"@,
        "Return the negotiated protocolVersion from initialize before serving other requests."@,
    )
}

/// The finding for tools served without the tools capability.
pub open spec fn unadvertised_tools_issue() -> IssueV {
    issue(
        "capability advertisement"@,
        Severity::High,
        85,
        "tools/list returned tools but initialize did not advertise tools capability"@,
        "Declare the tools capability in initialize so clients can discover the surface reliably."@,
    )
}

/// The finding for a discovery surface with no items.
pub open spec fn empty_surface_issue(area: Seq<char>) -> IssueV {
    issue(
        area,
        Severity::Medium,
        45,
        area + "/list exposes no items"@,
        "Confirm that "@ + area + " are intentionally unavailable, or expose and snapshot the expected "@
            + area + " contract."@,
    )
}

/// The name an audit gives an item: its string name, or `unknown`.
pub open spec fn display_name(item: JsonV) -> Seq<char> {
    match item.string_field("name"@) {
        Some(name) => name,
        None => "unknown"@,
    }
}

/// The finding for an item without a description.
pub open spec fn undescribed_issue(area: Seq<char>, item: JsonV) -> IssueV {
    issue(
        area + " contract"@,
        Severity::Low,
        20,
        "`"@ + display_name(item) + "` has no description"@,
        "Add a concise description so MCP clients and agents can select it safely."@,
    )
}

/// The finding reported when nothing else is.
pub open spec fn clean_issue() -> IssueV {
    issue(
        "MCP contract"@,
        Severity::Info,
        0,
        "No protocol or discoverability weaknesses detected in the selected checks."@,
        "Keep the recorded fixture in CI to preserve this baseline."@,
    )
}

/// An item lacks a description: it has no string `description`, or an empty one.
pub open spec fn lacks_description(item: JsonV) -> bool {
    match item.string_field("description"@) {
        Some(d) => d.len() == 0,
        None => true,
    }
}

/// The findings for one discovery surface, in item order.
pub open spec fn surface_issues(area: Seq<char>, items: Seq<JsonV>) -> Seq<IssueV> {
    (if items.len() == 0 {
        seq![empty_surface_issue(area)]
    } else {
        Seq::empty()
    }) + items.filter(|item: JsonV| lacks_description(item)).map_values(
        |item: JsonV| undescribed_issue(area, item),
    )
}

/// The findings of an audit in the order the checks make them.
pub open spec fn raw_issues(c: ServerContract) -> Seq<IssueV> {
    let found = (if c.protocol_version is None {
        seq![missing_version_issue()]
    } else {
        Seq::empty()
    }) + (if c.capabilities@.field("tools"@) is None && !(c.tools@ matches JsonV::Array(items)
        && items.len() == 0) {
        seq![unadvertised_tools_issue()]
    } else {
        Seq::empty()
    }) + surface_issues("tools"@, c.tools@->Array_0) + surface_issues(
        "resources"@,
        c.resources@->Array_0,
    ) + surface_issues("prompts"@, c.prompts@->Array_0);
    if found.len() == 0 {
        seq![clean_issue()]
    } else {
        found
    }
}

/// Scores do not increase along the list.
pub open spec fn by_descending_score(s: Seq<IssueV>) -> bool {
    forall|i: int, j: int| 0 <= i < j < s.len() ==> (#[trigger] s[i]).score >= (#[trigger] s[j]).score
}

/// The findings of one score, in their order.
pub open spec fn with_score(s: Seq<IssueV>, score: u8) -> Seq<IssueV> {
    s.filter(|x: IssueV| x.score == score)
}

/// `s` is `raw` stably sorted by descending score: sorted, and each score's
/// findings kept in the order they were found.
pub open spec fn stably_sorted_from(s: Seq<IssueV>, raw: Seq<IssueV>) -> bool {
    &&& by_descending_score(s)
    &&& forall|score: u8| #[trigger] with_score(s, score) == with_score(raw, score)
}

/// Filtering by score splits over concatenation.
proof fn lemma_with_score_add(a: Seq<IssueV>, b: Seq<IssueV>, score: u8)
    ensures
        with_score(a + b, score) == with_score(a, score) + with_score(b, score),
{
    Seq::filter_distributes_over_add(a, b, |x: IssueV| x.score == score);
}

/// Appending a finding extends the filter of its score only.
proof fn lemma_with_score_push(a: Seq<IssueV>, x: IssueV, score: u8)
    ensures
        with_score(a.push(x), score) == if x.score == score {
            with_score(a, score).push(x)
        } else {
            with_score(a, score)
        },
{
    reveal(Seq::filter);
    assert(a.push(x).drop_last() =~= a);
}

/// A single finding is kept by the filter of its own score only.
proof fn lemma_with_score_single(x: IssueV, score: u8)
    ensures
        with_score(seq![x], score) == if x.score == score {
            seq![x]
        } else {
            Seq::<IssueV>::empty()
        },
{
    reveal_with_fuel(Seq::filter, 2);
    assert(seq![x].drop_last() =~= Seq::<IssueV>::empty());
}

/// Inserts a finding after every finding of at least its score, keeping the
/// list sorted by descending score and each score's findings in order.
fn insert_by_score(out: &mut Vec<AuditIssue>, x: AuditIssue)
    requires
        by_descending_score(issues_view(old(out)@)),
    ensures
        final(out).len() == old(out).len() + 1,
        by_descending_score(issues_view(final(out)@)),
        forall|score: u8| #[trigger] with_score(issues_view(final(out)@), score) == with_score(
            issues_view(old(out)@).push(x@),
            score,
        ),
{
    let ghost old_v = issues_view(out@);
    let ghost xv = x@;
    let len = out.len();
    let mut p: usize = 0;
    while p < len && out[p].score >= x.score
        invariant
            len == out.len(),
            out@ == old(out)@,
            old_v == issues_view(out@),
            xv == x@,
            p <= len,
            forall|j: int| 0 <= j < p ==> (#[trigger] old_v[j]).score >= xv.score,
        decreases len - p,
    {
        p = p + 1;
    }
    proof {
        assert forall|j: int| p <= j < len implies (#[trigger] old_v[j]).score < xv.score by {
            if j > p {
                assert(old_v[p as int].score >= old_v[j].score);
            }
        }
    }
    out.insert(p, x);
    proof {
        let nv = issues_view(out@);
        let front = old_v.take(p as int);
        let back = old_v.skip(p as int);
        assert(nv =~= front + seq![xv] + back);
        assert(old_v =~= front + back);
        assert(by_descending_score(nv)) by {
            assert forall|a: int, b: int| 0 <= a < b < nv.len() implies (#[trigger] nv[a]).score >= (#[trigger] nv[b]).score by {
                if b < p {
                    assert(nv[a] == old_v[a] && nv[b] == old_v[b]);
                } else if b == p {
                    assert(nv[a] == old_v[a]);
                } else if a < p {
                    assert(nv[a] == old_v[a] && nv[b] == old_v[b - 1]);
                } else if a == p {
                    assert(nv[b] == old_v[b - 1]);
                } else {
                    assert(nv[a] == old_v[a - 1] && nv[b] == old_v[b - 1]);
                }
            }
        }
        assert forall|score: u8| #[trigger] with_score(nv, score) == with_score(old_v.push(xv), score) by {
            lemma_with_score_add(front + seq![xv], back, score);
            lemma_with_score_add(front, seq![xv], score);
            lemma_with_score_add(front + back, seq![xv], score);
            lemma_with_score_add(front, back, score);
            lemma_with_score_single(xv, score);
            assert(old_v.push(xv) =~= (front + back) + seq![xv]);
            if xv.score == score {
                assert forall|j: int| 0 <= j < back.len() implies !((|y: IssueV| y.score == score)(#[trigger] back[j])) by {
                    assert(back[j] == old_v[p + j]);
                }
                lemma_filter_none(back, |y: IssueV| y.score == score);
                assert(with_score(back, score) =~= Seq::<IssueV>::empty());
                assert(with_score(nv, score) =~= with_score(front, score) + seq![xv]);
                assert(with_score(old_v.push(xv), score) =~= with_score(front, score) + seq![xv]);
            } else {
                assert(with_score(nv, score) =~= with_score(front, score) + with_score(back, score));
                assert(with_score(old_v.push(xv), score) =~= with_score(front, score) + with_score(back, score));
            }
        }
    }
}

fn text(s: &str) -> (r: String)
    ensures
        r@ == s@,
{
    String::from_str(s)
}

/// Whether a list item lacks a description.
fn lacks_description_exec(item: &Json) -> (r: bool)
    ensures
        r == lacks_description(item@),
{
    match item.get("description") {
        Some(d) => match d.as_str() {
            Some(s) => s.as_str().is_empty(),
            None => true,
        },
        None => true,
    }
}

/// The name an audit gives an item.
fn display_name_exec(item: &Json) -> (r: String)
    ensures
        r@ == display_name(item@),
{
    match item.get("name") {
        Some(n) => match n.as_str() {
            Some(s) => s.clone(),
            None => text("unknown"),
        },
        None => text("unknown"),
    }
}

/// Appends the findings for one discovery surface.
#[verifier::loop_isolation(false)]
fn surface_findings(area: &str, items: &Vec<Json>, found: &mut Vec<AuditIssue>)
    ensures
        issues_view(final(found)@) == issues_view(old(found)@) + surface_issues(
            area@,
            values_view(items@),
        ),
{
    let ghost iv = values_view(items@);
    let ghost start = issues_view(found@);
    let ghost lacks = |item: JsonV| lacks_description(item);
    let ghost describe = |item: JsonV| undescribed_issue(area@, item);
    if items.len() == 0 {
        let mut finding = text(area);
        finding.append("/list exposes no items");
        let mut recommendation = join3("Confirm that ", area, " are intentionally unavailable, or expose and snapshot the expected ");
        recommendation.append(area);
        recommendation.append(" contract.");
        found.push(AuditIssue { area: text(area), severity: Severity::Medium, score: 45, finding, recommendation });
    }
    let ghost head = issues_view(found@);
    proof {
        assert(head =~= start + (if iv.len() == 0 { seq![empty_surface_issue(area@)] } else { Seq::empty() }));
        reveal(Seq::filter);
        assert(iv.take(0).filter(lacks) =~= Seq::empty());
        assert(head =~= head + iv.take(0).filter(lacks).map_values(describe));
    }
    let mut i: usize = 0;
    while i < items.len()
        invariant
            i <= items.len(),
            iv == values_view(items@),
            issues_view(found@) == head + iv.take(i as int).filter(lacks).map_values(describe),
        decreases items.len() - i,
    {
        let ghost before = issues_view(found@);
        proof {
            reveal(Seq::filter);
            assert(iv.take(i + 1).drop_last() =~= iv.take(i as int));
            assert(iv.take(i + 1).last() == items@[i as int]@);
        }
        if lacks_description_exec(&items[i]) {
            let name = display_name_exec(&items[i]);
            let mut issue_area = text(area);
            issue_area.append(" contract");
            let finding = join3("`", name.as_str(), "` has no description");
            let recommendation = text("Add a concise description so MCP clients and agents can select it safely.");
            found.push(AuditIssue { area: issue_area, severity: Severity::Low, score: 20, finding, recommendation });
            proof {
                assert(issues_view(found@) =~= before.push(describe(items@[i as int]@)));
                assert(iv.take(i + 1).filter(lacks) == iv.take(i as int).filter(lacks).push(items@[i as int]@));
                assert(issues_view(found@) =~= head + iv.take(i + 1).filter(lacks).map_values(describe));
            }
        } else {
            proof {
                assert(!lacks(iv.take(i + 1).last()));
                assert(iv.take(i + 1).filter(lacks) == iv.take(i as int).filter(lacks));
            }
        }
        i = i + 1;
    }
    proof {
        assert(iv.take(items.len() as int) =~= iv);
    }
}

/// `audit_contract`: the weaknesses of a discovered contract, highest risk
/// first; the findings of equal score keep the order in which they were
/// found, and a clean contract yields one informational finding.
pub fn audit_contract(contract: &ServerContract) -> (r: Vec<AuditIssue>)
    requires
        contract.lists_are_arrays(),
    ensures
        stably_sorted_from(issues_view(r@), raw_issues(*contract)),
        r.len() > 0,
        contract.protocol_version is None ==> r@[0]@ == (IssueV {
            area: "protocol handshake"@,
            severity: Severity::Critical,
            score: 100,
            finding: "initialize did not return protocolVersion"@,
            recommendation: "Return the negotiated protocolVersion from initialize before serving other requests."@,
        }),
        forall|surface: CheckKind, i: int|
            0 <= i < surface_list(*contract, surface).len() && match (#[trigger] surface_list(
                *contract,
                surface,
            )[i]).field("description"@) {
                Some(JsonV::Str(d)) => d.len() == 0,
                _ => true,
            } ==> issues_view(r@).contains(
                IssueV {
                    area: surface_word(surface) + " contract"@,
                    severity: Severity::Low,
                    score: 20,
                    finding: "`"@ + (match surface_list(*contract, surface)[i].field("name"@) {
                        Some(JsonV::Str(n)) => n,
                        _ => "unknown"@,
                    }) + "` has no description"@,
                    recommendation: "Add a concise description so MCP clients and agents can select it safely."@,
                },
            ),
{
    let mut found: Vec<AuditIssue> = Vec::new();
    let ghost c = *contract;
    if contract.protocol_version.is_none() {
        found.push(AuditIssue {
            area: text("protocol handshake"),
            severity: Severity::Critical,
            score: 100,
            finding: text("initialize did not return protocolVersion"),
            recommendation: text("Return the negotiated protocolVersion from initialize before serving other requests."),
        });
    }
    let advertised = contract.capabilities.get("tools").is_some();
    let no_tools = match contract.tools.as_array() {
        Some(items) => items.len() == 0,
        None => false,
    };
    let ghost after_version = issues_view(found@);
    proof {
        assert(after_version =~= (if c.protocol_version is None {
            seq![missing_version_issue()]
        } else {
            Seq::empty()
        }));
    }
    if !advertised && !no_tools {
        found.push(AuditIssue {
            area: text("capability advertisement"),
            severity: Severity::High,
            score: 85,
            finding: text("tools/list returned tools but initialize did not advertise tools capability"),
            recommendation: text("Declare the tools capability in initialize so clients can discover the surface reliably."),
        });
    }
    let ghost after_capability = issues_view(found@);
    proof {
        assert(after_capability =~= after_version + (if c.capabilities@.field("tools"@) is None && !(c.tools@ matches JsonV::Array(items)
            && items.len() == 0) {
            seq![unadvertised_tools_issue()]
        } else {
            Seq::empty()
        }));
    }
    if let Some(items) = contract.tools.as_array() {
        surface_findings("tools", items, &mut found);
    }
    if let Some(items) = contract.resources.as_array() {
        surface_findings("resources", items, &mut found);
    }
    if let Some(items) = contract.prompts.as_array() {
        surface_findings("prompts", items, &mut found);
    }
    proof {
        assert(issues_view(found@) =~= after_capability + surface_issues("tools"@, c.tools@->Array_0) + surface_issues(
            "resources"@,
            c.resources@->Array_0,
        ) + surface_issues("prompts"@, c.prompts@->Array_0));
    }
    if found.len() == 0 {
        found.push(AuditIssue {
            area: text("MCP contract"),
            severity: Severity::Info,
            score: 0,
            finding: text("No protocol or discoverability weaknesses detected in the selected checks."),
            recommendation: text("Keep the recorded fixture in CI to preserve this baseline."),
        });
    }
    let ghost raw = issues_view(found@);
    proof {
        assert(raw =~= raw_issues(*contract));
    }
    let mut out: Vec<AuditIssue> = Vec::new();
    proof {
        assert forall|score: u8| #[trigger] with_score(issues_view(out@), score) == with_score(raw.take(0), score) by {
            reveal(Seq::filter);
            assert(issues_view(out@) =~= raw.take(0));
        }
    }
    for x in it: found.into_iter()
        invariant
            it.seq() == found@,
            raw == issues_view(found@),
            by_descending_score(issues_view(out@)),
            out.len() == it.index(),
            forall|score: u8| #[trigger] with_score(issues_view(out@), score) == with_score(raw.take(it.index() as int), score),
    {
        let ghost i = it.index();
        let ghost before = issues_view(out@);
        let ghost xv = x@;
        proof {
            assert(raw.take(i + 1) =~= raw.take(i as int).push(xv));
        }
        insert_by_score(&mut out, x);
        proof {
            assert forall|score: u8| #[trigger] with_score(issues_view(out@), score) == with_score(raw.take(i + 1), score) by {
                lemma_with_score_push(before, xv, score);
                lemma_with_score_push(raw.take(i as int), xv, score);
            }
        }
    }
    proof {
        assert(raw.take(raw.len() as int) =~= raw);
        assert forall|surface: CheckKind, i: int|
            0 <= i < surface_list(*contract, surface).len() && match (#[trigger] surface_list(
                *contract,
                surface,
            )[i]).field("description"@) {
                Some(JsonV::Str(d)) => d.len() == 0,
                _ => true,
            } implies issues_view(out@).contains(
                IssueV {
                    area: surface_word(surface) + " contract"@,
                    severity: Severity::Low,
                    score: 20,
                    finding: "`"@ + (match surface_list(*contract, surface)[i].field("name"@) {
                        Some(JsonV::Str(n)) => n,
                        _ => "unknown"@,
                    }) + "` has no description"@,
                    recommendation: "Add a concise description so MCP clients and agents can select it safely."@,
                },
            ) by {
            lemma_undescribed_items_are_reported(*contract, issues_view(out@), surface, i);
        }
        if contract.protocol_version is None {
            lemma_missing_version_is_weakest(*contract, issues_view(out@));
        }
    }
    out
}

/// The name of a discovery surface.
pub open spec fn surface_word(surface: CheckKind) -> Seq<char> {
    match surface {
        CheckKind::Tools => "tools"@,
        CheckKind::Resources => "resources"@,
        CheckKind::Prompts => "prompts"@,
    }
}

/// The items of a discovery surface of a contract.
pub open spec fn surface_list(c: ServerContract, surface: CheckKind) -> Seq<JsonV> {
    match surface {
        CheckKind::Tools => c.tools@->Array_0,
        CheckKind::Resources => c.resources@->Array_0,
        CheckKind::Prompts => c.prompts@->Array_0,
    }
}

/// A finding in the raw findings of an audit stays among its ranked findings.
proof fn lemma_raw_finding_kept(c: ServerContract, findings: Seq<IssueV>, x: IssueV)
    requires
        stably_sorted_from(findings, raw_issues(c)),
        raw_issues(c).contains(x),
    ensures
        findings.contains(x),
{
    let raw = raw_issues(c);
    let k = choose|k: int| 0 <= k < raw.len() && raw[k] == x;
    let pred = |y: IssueV| y.score == x.score;
    raw.lemma_filter_contains(pred, k);
    assert(with_score(findings, x.score) == with_score(raw, x.score));
    findings.lemma_filter_contains_rev(pred, x);
}

/// A finding of one surface is among the raw findings of the audit.
proof fn lemma_surface_finding_raw(c: ServerContract, surface: CheckKind, x: IssueV)
    requires
        c.lists_are_arrays(),
        surface_issues(surface_word(surface), surface_list(c, surface)).contains(x),
    ensures
        raw_issues(c).contains(x),
{
    let a = if c.protocol_version is None {
        seq![missing_version_issue()]
    } else {
        Seq::<IssueV>::empty()
    };
    let b = if c.capabilities@.field("tools"@) is None && !(c.tools@ matches JsonV::Array(items)
        && items.len() == 0) {
        seq![unadvertised_tools_issue()]
    } else {
        Seq::<IssueV>::empty()
    };
    let t = surface_issues("tools"@, c.tools@->Array_0);
    let r = surface_issues("resources"@, c.resources@->Array_0);
    let p = surface_issues("prompts"@, c.prompts@->Array_0);
    let found = a + b + t + r + p;
    let s = surface_issues(surface_word(surface), surface_list(c, surface));
    let k = choose|k: int| 0 <= k < s.len() && s[k] == x;
    let at = match surface {
        CheckKind::Tools => a.len() + b.len() + k,
        CheckKind::Resources => a.len() + b.len() + t.len() + k,
        CheckKind::Prompts => a.len() + b.len() + t.len() + r.len() + k,
    };
    assert(found[at] == x);
    assert(found.len() > 0);
    assert(raw_issues(c) == found);
}

/// Every item of every discovery surface that lacks a description (it has
/// no string `description`, or an empty one) is reported, whatever the
/// surface: a low finding, scored 20, in the area `<surface> contract`,
/// saying that the item (by its string name, or `unknown`) has no
/// description. The ranked findings of the audit hold it.
pub proof fn lemma_undescribed_items_are_reported(
    c: ServerContract,
    findings: Seq<IssueV>,
    surface: CheckKind,
    i: int,
)
    requires
        c.lists_are_arrays(),
        stably_sorted_from(findings, raw_issues(c)),
        0 <= i < surface_list(c, surface).len(),
        match surface_list(c, surface)[i].field("description"@) {
            Some(JsonV::Str(d)) => d.len() == 0,
            _ => true,
        },
    ensures
        findings.contains(
            IssueV {
                area: surface_word(surface) + " contract"@,
                severity: Severity::Low,
                score: 20,
                finding: "`"@ + (match surface_list(c, surface)[i].field("name"@) {
                    Some(JsonV::Str(n)) => n,
                    _ => "unknown"@,
                }) + "` has no description"@,
                recommendation: "Add a concise description so MCP clients and agents can select it safely."@,
            },
        ),
{
    let items = surface_list(c, surface);
    let area = surface_word(surface);
    let item = items[i];
    let x = undescribed_issue(area, item);
    let lacks = |item: JsonV| lacks_description(item);
    let describe = |item: JsonV| undescribed_issue(area, item);
    assert(lacks(item));
    items.lemma_filter_contains(lacks, i);
    let kept = items.filter(lacks);
    let k = choose|k: int| 0 <= k < kept.len() && kept[k] == item;
    let mapped = kept.map_values(describe);
    assert(mapped[k] == x);
    let e = if items.len() == 0 {
        seq![empty_surface_issue(area)]
    } else {
        Seq::<IssueV>::empty()
    };
    let s = surface_issues(area, items);
    assert(s == e + mapped);
    assert(s[e.len() + k] == x);
    lemma_surface_finding_raw(c, surface, x);
    lemma_raw_finding_kept(c, findings, x);
}

/// A discovery surface with no items is reported, whatever the surface: a
/// medium finding, scored 45, in the area of the surface, saying that its
/// list exposes no items.
pub proof fn lemma_empty_surfaces_are_reported(c: ServerContract, findings: Seq<IssueV>, surface: CheckKind)
    requires
        c.lists_are_arrays(),
        stably_sorted_from(findings, raw_issues(c)),
        surface_list(c, surface).len() == 0,
    ensures
        findings.contains(
            IssueV {
                area: surface_word(surface),
                severity: Severity::Medium,
                score: 45,
                finding: surface_word(surface) + "/list exposes no items"@,
                recommendation: "Confirm that "@ + surface_word(surface)
                    + " are intentionally unavailable, or expose and snapshot the expected "@
                    + surface_word(surface) + " contract."@,
            },
        ),
{
    let area = surface_word(surface);
    let items = surface_list(c, surface);
    let x = empty_surface_issue(area);
    let s = surface_issues(area, items);
    assert(s[0] == x);
    lemma_surface_finding_raw(c, surface, x);
    lemma_raw_finding_kept(c, findings, x);
}

/// The findings of a surface score below 100.
proof fn lemma_surface_scores_below_critical(area: Seq<char>, items: Seq<JsonV>)
    ensures
        forall|k: int|
            0 <= k < surface_issues(area, items).len() ==> (#[trigger] surface_issues(
                area,
                items,
            )[k]).score < 100,
{
    let e = if items.len() == 0 {
        seq![empty_surface_issue(area)]
    } else {
        Seq::<IssueV>::empty()
    };
    let mapped = items.filter(|item: JsonV| lacks_description(item)).map_values(
        |item: JsonV| undescribed_issue(area, item),
    );
    let s = surface_issues(area, items);
    assert(s == e + mapped);
    assert forall|k: int| 0 <= k < s.len() implies #[trigger] s[k].score < 100 by {
        if k < e.len() {
            assert(s[k] == e[k]);
        } else {
            assert(s[k] == mapped[k - e.len()]);
        }
    }
}

/// A server that lists tools without advertising the tools capability is
/// reported: a high finding, scored 85, on the capability advertisement.
pub proof fn lemma_unadvertised_tools_are_reported(c: ServerContract, findings: Seq<IssueV>)
    requires
        c.lists_are_arrays(),
        stably_sorted_from(findings, raw_issues(c)),
        c.capabilities@.field("tools"@) is None,
        c.tools@->Array_0.len() > 0,
    ensures
        findings.contains(
            IssueV {
                area: "capability advertisement"@,
                severity: Severity::High,
                score: 85,
                finding: "tools/list returned tools but initialize did not advertise tools capability"@,
                recommendation: "Declare the tools capability in initialize so clients can discover the surface reliably."@,
            },
        ),
{
    let x = unadvertised_tools_issue();
    let a = if c.protocol_version is None {
        seq![missing_version_issue()]
    } else {
        Seq::<IssueV>::empty()
    };
    let found = a + seq![x] + surface_issues("tools"@, c.tools@->Array_0) + surface_issues(
        "resources"@,
        c.resources@->Array_0,
    ) + surface_issues("prompts"@, c.prompts@->Array_0);
    assert(found[a.len() as int] == x);
    assert(raw_issues(c) == found);
    lemma_raw_finding_kept(c, findings, x);
}

/// Without a protocol version, the critical finding is the only raw finding
/// scored 100, and none scores more.
proof fn lemma_missing_version_alone_at_top(c: ServerContract)
    requires
        c.lists_are_arrays(),
        c.protocol_version is None,
    ensures
        with_score(raw_issues(c), 100) == seq![missing_version_issue()],
        forall|j: int| 0 <= j < raw_issues(c).len() ==> (#[trigger] raw_issues(c)[j]).score <= 100,
{
    let raw = raw_issues(c);
    let x = missing_version_issue();
    let b = if c.capabilities@.field("tools"@) is None && !(c.tools@ matches JsonV::Array(items)
        && items.len() == 0) {
        seq![unadvertised_tools_issue()]
    } else {
        Seq::<IssueV>::empty()
    };
    let t = surface_issues("tools"@, c.tools@->Array_0);
    let r = surface_issues("resources"@, c.resources@->Array_0);
    let p = surface_issues("prompts"@, c.prompts@->Array_0);
    let rest = b + t + r + p;
    lemma_surface_scores_below_critical("tools"@, c.tools@->Array_0);
    lemma_surface_scores_below_critical("resources"@, c.resources@->Array_0);
    lemma_surface_scores_below_critical("prompts"@, c.prompts@->Array_0);
    assert(raw =~= seq![x] + rest);
    assert forall|j: int| 0 <= j < rest.len() implies #[trigger] rest[j].score < 100 by {
        if j < b.len() {
            assert(rest[j] == b[j]);
        } else if j < b.len() + t.len() {
            assert(rest[j] == t[j - b.len()]);
        } else if j < b.len() + t.len() + r.len() {
            assert(rest[j] == r[j - b.len() - t.len()]);
        } else {
            assert(rest[j] == p[j - b.len() - t.len() - r.len()]);
        }
    }
    assert forall|j: int| 0 <= j < raw.len() implies (#[trigger] raw[j]).score <= 100 by {
        if j > 0 {
            assert(raw[j] == rest[j - 1]);
        }
    }
    let top = |y: IssueV| y.score == 100u8;
    assert forall|j: int| 0 <= j < rest.len() implies !top(#[trigger] rest[j]) by {}
    lemma_filter_none(rest, top);
    lemma_with_score_add(seq![x], rest, 100);
    lemma_with_score_single(x, 100);
    assert(with_score(rest, 100) =~= Seq::<IssueV>::empty());
    assert(with_score(raw, 100) =~= seq![x]);
}

/// When one raw finding alone has the top score, it comes first.
proof fn lemma_sole_top_first(findings: Seq<IssueV>, raw: Seq<IssueV>, x: IssueV)
    requires
        stably_sorted_from(findings, raw),
        with_score(raw, x.score) == seq![x],
        forall|j: int| 0 <= j < raw.len() ==> (#[trigger] raw[j]).score <= x.score,
    ensures
        findings.len() > 0,
        findings[0] == x,
{
    let top = |y: IssueV| y.score == x.score;
    assert(with_score(findings, x.score) == with_score(raw, x.score));
    assert(with_score(findings, x.score)[0] == x);
    findings.lemma_filter_contains_rev(top, x);
    let s0 = findings[0].score;
    let at_s0 = |y: IssueV| y.score == s0;
    findings.lemma_filter_contains(at_s0, 0);
    assert(with_score(findings, s0) == with_score(raw, s0));
    raw.lemma_filter_contains_rev(at_s0, findings[0]);
    let kx = choose|kx: int| 0 <= kx < findings.len() && findings[kx] == x;
    if kx > 0 {
        assert(findings[0].score >= findings[kx].score);
    }
    assert(s0 == x.score);
    findings.lemma_filter_contains(top, 0);
    assert(with_score(findings, x.score).contains(findings[0]));
}

/// A handshake without a protocol version is the weakest link: the first
/// of the ranked findings is the critical one, scored 100, on the protocol
/// handshake.
pub proof fn lemma_missing_version_is_weakest(c: ServerContract, findings: Seq<IssueV>)
    requires
        c.lists_are_arrays(),
        stably_sorted_from(findings, raw_issues(c)),
        c.protocol_version is None,
    ensures
        findings.len() > 0,
        findings[0] == (IssueV {
            area: "protocol handshake"@,
            severity: Severity::Critical,
            score: 100,
            finding: "initialize did not return protocolVersion"@,
            recommendation: "Return the negotiated protocolVersion from initialize before serving other requests."@,
        }),
{
    lemma_missing_version_alone_at_top(c);
    lemma_sole_top_first(findings, raw_issues(c), missing_version_issue());
}

} // verus!
