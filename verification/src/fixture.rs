use vstd::prelude::*;

use crate::config::{
    is_fixture_name, validate_fixture_name, CheckKind, CheckSettings, ProjectConfig, MCP_VERSION,
};
use crate::contract::{
    changes_between, contract_changes, lemma_no_changes_iff_same_items, lemma_same_items_same_list,
    named_map, strings_view,
};
use crate::error::Error;
use crate::json::{lemma_array_view, values_view, Json, JsonV};
use crate::normalize::{
    lemma_normal_is_array, named_items_result, normal_list, normalize_named_items, normalize_tools,
};
use crate::protocol::ServerContract;

verus! {

/// A recorded contract (`fixtures/<name>.mcp.json`).
pub struct Fixture {
    pub version: u8,
    pub name: String,
    pub transport: String,
    pub server: Vec<String>,
    pub protocol_version: String,
    pub tools: Json,
    pub resources: Json,
    pub prompts: Json,
    pub settings: CheckSettings,
}

/// A list as a fixture stores it: a missing list (which a fixture of the
/// first version has for resources and prompts, read as `null`) counts as
/// an empty one.
pub open spec fn stored_list(v: JsonV) -> JsonV {
    match v {
        JsonV::Null => JsonV::Array(Seq::empty()),
        other => other,
    }
}

pub fn stored_list_exec(v: &Json) -> (r: Json)
    ensures
        r@ == stored_list(v@),
{
    match v {
        Json::Null => {
            let items: Vec<Json> = Vec::new();
            proof {
                lemma_array_view(items);
                assert(values_view(items@) =~= Seq::<JsonV>::empty());
            }
            Json::Array(items)
        },
        other => other.duplicate(),
    }
}

/// The command is there: at least one word, the first one not empty.
pub open spec fn has_server_command(server: Seq<String>) -> bool {
    server.len() > 0 && server[0]@.len() > 0
}

/// The checks `validate_fixture` makes, and the first one that fails.
pub open spec fn fixture_problem(f: Fixture, path: Seq<char>) -> Option<Error> {
    if !(1 <= f.version <= 2) {
        Some(Error::UnsupportedFixtureVersion { path: arbitrary(), version: f.version })
    } else if !is_fixture_name(f.name@) {
        Some(Error::InvalidFixtureNameIn { path: arbitrary() })
    } else if f.transport@ != "stdio"@ {
        Some(Error::UnsupportedTransport { name: arbitrary(), transport: arbitrary() })
    } else if !has_server_command(f.server@) {
        Some(Error::EmptyServerCommand { name: arbitrary() })
    } else if named_items_result(f.tools@) is Err {
        Some(named_items_result(f.tools@)->Err_0)
    } else if named_items_result(stored_list(f.resources@)) is Err {
        Some(named_items_result(stored_list(f.resources@))->Err_0)
    } else if named_items_result(stored_list(f.prompts@)) is Err {
        Some(named_items_result(stored_list(f.prompts@))->Err_0)
    } else if f.settings.timeout_ms == 0 {
        Some(Error::ZeroTimeout { fixture: arbitrary() })
    } else {
        None
    }
}

/// The error is the one `fixture_problem` names, with its details.
pub open spec fn is_fixture_error(e: Error, f: Fixture, path: Seq<char>) -> bool {
    match fixture_problem(f, path) {
        Some(Error::UnsupportedFixtureVersion { .. }) => e matches Error::UnsupportedFixtureVersion {
            path: p,
            version: v,
        } && p@ == path && v == f.version,
        Some(Error::InvalidFixtureNameIn { .. }) => e matches Error::InvalidFixtureNameIn { path: p }
            && p@ == path,
        Some(Error::UnsupportedTransport { .. }) => e matches Error::UnsupportedTransport {
            name: n,
            transport: t,
        } && n@ == f.name@ && t@ == f.transport@,
        Some(Error::EmptyServerCommand { .. }) => e matches Error::EmptyServerCommand { name: n }
            && n@ == f.name@,
        Some(Error::ZeroTimeout { .. }) => e.is_zero_timeout_of(f.name@),
        Some(other) => e == other,
        None => false,
    }
}

/// `validate_fixture`: a fixture is accepted when its version is 1 or 2,
/// its name is a simple file name, its transport is stdio, it has a server
/// command, its three lists pass `normalize_named_items` and its timeout
/// is not zero; otherwise the first failing check is reported.
pub fn validate_fixture(fixture: &Fixture, path: &str) -> (r: Result<(), Error>)
    ensures
        r is Ok <==> fixture_problem(*fixture, path@) is None,
        r matches Err(e) ==> is_fixture_error(e, *fixture, path@),
{
    if !(1 <= fixture.version && fixture.version <= 2) {
        return Err(
            Error::UnsupportedFixtureVersion { path: String::from_str(path), version: fixture.version },
        );
    }
    if validate_fixture_name(fixture.name.as_str()).is_err() {
        return Err(Error::InvalidFixtureNameIn { path: String::from_str(path) });
    }
    let stdio = String::from_str("stdio");
    if fixture.transport != stdio {
        return Err(
            Error::UnsupportedTransport {
                name: fixture.name.clone(),
                transport: fixture.transport.clone(),
            },
        );
    }
    if fixture.server.len() == 0 || fixture.server[0].as_str().is_empty() {
        return Err(Error::EmptyServerCommand { name: fixture.name.clone() });
    }
    normalize_tools(fixture.tools.duplicate())?;
    normalize_named_items(stored_list_exec(&fixture.resources))?;
    normalize_named_items(stored_list_exec(&fixture.prompts))?;
    if fixture.settings.timeout_ms == 0 {
        return Err(Error::ZeroTimeout { fixture: Some(fixture.name.clone()) });
    }
    Ok(())
}

/// A timeout: the one given, or else the default.
pub open spec fn effective_timeout(given: Option<u64>, default: u64) -> u64 {
    match given {
        Some(t) => t,
        None => default,
    }
}

/// The settings a replay uses: the fixture's checks, and the timeout
/// override if one is given, else the fixture's timeout.
pub fn replay_settings(fixture: &Fixture, timeout_override: Option<u64>) -> (r: Result<
    CheckSettings,
    Error,
>)
    ensures
        match r {
            Ok(s) => s.checks@ == fixture.settings.checks@ && s.timeout_ms == effective_timeout(
                timeout_override,
                fixture.settings.timeout_ms,
            ) && s.timeout_ms > 0,
            Err(e) => effective_timeout(timeout_override, fixture.settings.timeout_ms) == 0
                && e.is_zero_timeout_of(fixture.name@),
        },
{
    let mut settings = fixture.settings.duplicate();
    settings.timeout_ms = match timeout_override {
        Some(t) => t,
        None => fixture.settings.timeout_ms,
    };
    if settings.timeout_ms == 0 {
        return Err(Error::ZeroTimeout { fixture: Some(fixture.name.clone()) });
    }
    Ok(settings)
}

/// The checks a recording makes: the ones chosen, or else the project's
/// default checks.
pub open spec fn effective_checks(given: Option<Seq<CheckKind>>, default: Seq<CheckKind>) -> Seq<CheckKind> {
    match given {
        Some(c) => c,
        None => default,
    }
}

/// The settings a recording uses: the chosen checks, or else the project's
/// default checks, and the given timeout, or else the project's default
/// timeout.
pub fn record_settings(checks: Option<Vec<CheckKind>>, timeout_ms: Option<u64>, config: &ProjectConfig) -> (r:
    Result<CheckSettings, Error>)
    ensures
        match r {
            Ok(s) => s.checks@ == effective_checks(
                match checks {
                    Some(c) => Some(c@),
                    None => None,
                },
                config.defaults.checks@,
            ) && s.timeout_ms == effective_timeout(timeout_ms, config.defaults.timeout_ms)
                && s.timeout_ms > 0,
            Err(e) => effective_timeout(timeout_ms, config.defaults.timeout_ms) == 0 && e
                == Error::ZeroTimeout { fixture: None },
        },
{
    let timeout_ms = match timeout_ms {
        Some(t) => t,
        None => config.defaults.timeout_ms,
    };
    if timeout_ms == 0 {
        return Err(Error::ZeroTimeout { fixture: None });
    }
    let checks = match checks {
        Some(c) => c,
        None => config.defaults.duplicate().checks,
    };
    Ok(CheckSettings { checks, timeout_ms })
}

/// `record`'s fixture: version 2 over stdio, the server's protocol version
/// (or the one asked for, if it named none) and its three lists.
pub fn build_fixture(name: String, server: Vec<String>, contract: ServerContract, settings: CheckSettings) -> (r: Fixture)
    ensures
        r.version == 2,
        r.name@ == name@,
        r.transport@ == "stdio"@,
        r.server@ == server@,
        r.protocol_version@ == match contract.protocol_version {
            Some(v) => v@,
            None => MCP_VERSION@,
        },
        r.tools@ == contract.tools@,
        r.resources@ == contract.resources@,
        r.prompts@ == contract.prompts@,
        r.settings == settings,
{
    let protocol_version = match contract.protocol_version {
        Some(v) => v,
        None => String::from_str(MCP_VERSION),
    };
    Fixture {
        version: 2,
        name,
        transport: String::from_str("stdio"),
        server,
        protocol_version,
        tools: contract.tools,
        resources: contract.resources,
        prompts: contract.prompts,
        settings,
    }
}

/// The outcome of replaying a fixture: it passed, or it failed with the
/// change lines to show.
pub enum Verdict {
    Pass,
    Fail { changes: Vec<String> },
}

/// The lines with a prefix before each.
pub open spec fn prefixed(prefix: Seq<char>, lines: Seq<Seq<char>>) -> Seq<Seq<char>> {
    lines.map_values(|l: Seq<char>| prefix + l)
}

/// The change lines of a replay: the tools changes, then, where the fixture
/// checks them, the resources and the prompts changes, each marked.
pub open spec fn replay_changes(
    tools: JsonV,
    resources: JsonV,
    prompts: JsonV,
    checks: Seq<CheckKind>,
    actual: ServerContract,
) -> Seq<Seq<char>> {
    changes_between(tools, actual.tools@) + (if checks.contains(CheckKind::Resources) {
        prefixed("resources: "@, changes_between(resources, actual.resources@))
    } else {
        Seq::empty()
    }) + (if checks.contains(CheckKind::Prompts) {
        prefixed("prompts: "@, changes_between(prompts, actual.prompts@))
    } else {
        Seq::empty()
    })
}

/// What replaying a fixture against a server's contract gives: the fixture's
/// lists are normalized first (failing as `normalize_named_items` does);
/// the replay passes when no change is reported and the tools lists are
/// equal.
pub open spec fn replay_result(f: Fixture, checks: Seq<CheckKind>, actual: ServerContract) -> Result<
    Seq<Seq<char>>,
    Error,
> {
    let t = named_items_result(f.tools@);
    let r = named_items_result(stored_list(f.resources@));
    let p = named_items_result(stored_list(f.prompts@));
    if t is Err {
        Err(t->Err_0)
    } else if r is Err {
        Err(r->Err_0)
    } else if p is Err {
        Err(p->Err_0)
    } else {
        Ok(replay_changes(t->Ok_0, r->Ok_0, p->Ok_0, checks, actual))
    }
}

/// The replay passes: no change lines, and the tools lists are equal.
pub open spec fn replay_passes(f: Fixture, checks: Seq<CheckKind>, actual: ServerContract) -> bool {
    &&& replay_result(f, checks, actual) matches Ok(changes)
    &&& changes.len() == 0
    &&& actual.tools@ == named_items_result(f.tools@)->Ok_0
}

/// Marks each line with the prefix.
fn prefix_lines(prefix: &str, lines: Vec<String>) -> (r: Vec<String>)
    ensures
        strings_view(r@) == prefixed(prefix@, strings_view(lines@)),
{
    let mut out: Vec<String> = Vec::new();
    let mut i: usize = 0;
    while i < lines.len()
        invariant
            i <= lines.len(),
            strings_view(out@) == prefixed(prefix@, strings_view(lines@)).take(i as int),
        decreases lines.len() - i,
    {
        let ghost before = out@;
        let mut line = String::from_str(prefix);
        line.append(lines[i].as_str());
        out.push(line);
        proof {
            let all = prefixed(prefix@, strings_view(lines@));
            assert(all[i as int] == prefix@ + lines@[i as int]@);
            assert(strings_view(out@) =~= strings_view(before).push(all[i as int]));
            assert(all.take(i + 1) =~= all.take(i as int).push(all[i as int]));
            assert(strings_view(out@) =~= prefixed(prefix@, strings_view(lines@)).take(i + 1));
        }
        i = i + 1;
    }
    proof {
        assert(prefixed(prefix@, strings_view(lines@)).take(lines.len() as int) =~= prefixed(
            prefix@,
            strings_view(lines@),
        ));
    }
    out
}

fn contains_check(checks: &Vec<CheckKind>, kind: CheckKind) -> (r: bool)
    ensures
        r == checks@.contains(kind),
{
    let mut i: usize = 0;
    while i < checks.len()
        invariant
            i <= checks.len(),
            forall|j: int| 0 <= j < i ==> checks@[j] != kind,
        decreases checks.len() - i,
    {
        if checks[i] == kind {
            proof {
                assert(checks@[i as int] == kind);
            }
            return true;
        }
        i = i + 1;
    }
    false
}

/// The comparison that `test_fixture` makes once the server's contract is
/// discovered: the change lines, and whether the replay passes.
pub fn compare_fixture(fixture: &Fixture, settings: &CheckSettings, actual: &ServerContract) -> (r:
    Result<Verdict, Error>)
    ensures
        match r {
            Ok(Verdict::Pass) => replay_passes(*fixture, settings.checks@, *actual),
            Ok(Verdict::Fail { changes }) => !replay_passes(*fixture, settings.checks@, *actual)
                && replay_result(*fixture, settings.checks@, *actual) == Ok::<
                Seq<Seq<char>>,
                Error,
            >(strings_view(changes@)),
            Err(e) => replay_result(*fixture, settings.checks@, *actual) == Err::<
                Seq<Seq<char>>,
                Error,
            >(e),
        },
{
    let expected_tools = normalize_tools(fixture.tools.duplicate())?;
    let expected_resources = normalize_named_items(stored_list_exec(&fixture.resources))?;
    let expected_prompts = normalize_named_items(stored_list_exec(&fixture.prompts))?;
    let mut changes = contract_changes(&expected_tools, &actual.tools);
    let ghost tool_lines = strings_view(changes@);
    let mut resource_lines: Vec<String> = Vec::new();
    if contains_check(&settings.checks, CheckKind::Resources) {
        resource_lines = prefix_lines("resources: ", contract_changes(&expected_resources, &actual.resources));
    }
    let mut prompt_lines: Vec<String> = Vec::new();
    if contains_check(&settings.checks, CheckKind::Prompts) {
        prompt_lines = prefix_lines("prompts: ", contract_changes(&expected_prompts, &actual.prompts));
    }
    let ghost r1 = strings_view(resource_lines@);
    let ghost p1 = strings_view(prompt_lines@);
    changes.append(&mut resource_lines);
    changes.append(&mut prompt_lines);
    proof {
        assert(strings_view(changes@) =~= tool_lines + r1 + p1);
        assert(r1 =~= (if settings.checks@.contains(CheckKind::Resources) {
            prefixed("resources: "@, changes_between(expected_resources@, actual.resources@))
        } else {
            Seq::empty()
        }));
        assert(p1 =~= (if settings.checks@.contains(CheckKind::Prompts) {
            prefixed("prompts: "@, changes_between(expected_prompts@, actual.prompts@))
        } else {
            Seq::empty()
        }));
    }
    if changes.len() == 0 && actual.tools.equals(&expected_tools) {
        Ok(Verdict::Pass)
    } else {
        Ok(Verdict::Fail { changes })
    }
}

/// A fixture recorded from the contract that discovery found passes a
/// replay against that same contract, whatever checks it selects.
pub proof fn lemma_replay_of_recording_passes(f: Fixture, checks: Seq<CheckKind>, c: ServerContract)
    requires
        c@.lists_are_normal(),
        f.tools@ == c.tools@,
        f.resources@ == c.resources@,
        f.prompts@ == c.prompts@,
    ensures
        replay_passes(f, checks, c),
        replay_result(f, checks, c) == Ok::<Seq<Seq<char>>, Error>(Seq::empty()),
{
    lemma_normal_is_array(c.resources@);
    lemma_normal_is_array(c.prompts@);
    lemma_no_changes_iff_same_items(c.tools@, c.tools@);
    lemma_no_changes_iff_same_items(c.resources@, c.resources@);
    lemma_no_changes_iff_same_items(c.prompts@, c.prompts@);
    let changes = replay_changes(c.tools@, c.resources@, c.prompts@, checks, c);
    assert(changes =~= Seq::<Seq<char>>::empty());
}

/// A fixture whose lists are normal passes a replay exactly when the
/// server's tools, resources and prompts (the latter two where checked)
/// map the same names to the same items as the fixture's.
pub proof fn lemma_replay_passes_iff_same_items(f: Fixture, checks: Seq<CheckKind>, c: ServerContract)
    requires
        normal_list(f.tools@),
        normal_list(f.resources@),
        normal_list(f.prompts@),
        c@.lists_are_normal(),
    ensures
        replay_passes(f, checks, c) <==> {
            &&& named_map(f.tools@) == named_map(c.tools@)
            &&& checks.contains(CheckKind::Resources) ==> named_map(f.resources@) == named_map(
                c.resources@,
            )
            &&& checks.contains(CheckKind::Prompts) ==> named_map(f.prompts@) == named_map(
                c.prompts@,
            )
        },
{
    lemma_normal_is_array(f.resources@);
    lemma_normal_is_array(f.prompts@);
    lemma_no_changes_iff_same_items(f.tools@, c.tools@);
    lemma_no_changes_iff_same_items(f.resources@, c.resources@);
    lemma_no_changes_iff_same_items(f.prompts@, c.prompts@);
    lemma_same_items_same_list(f.tools@, c.tools@);
}

/// What `record` writes, `validate_fixture` accepts: a fixture of the
/// current version over stdio, whose name passed `validate_fixture_name`,
/// with a server command, a timeout above zero and the lists that discovery
/// returned, has no problem, wherever it is read from.
pub proof fn lemma_recorded_fixture_is_valid(f: Fixture, path: Seq<char>)
    requires
        f.version == 2,
        f.transport@ == "stdio"@,
        is_fixture_name(f.name@),
        has_server_command(f.server@),
        f.settings.timeout_ms > 0,
        normal_list(f.tools@),
        normal_list(f.resources@),
        normal_list(f.prompts@),
    ensures
        fixture_problem(f, path) is None,
{
    lemma_normal_is_array(f.resources@);
    lemma_normal_is_array(f.prompts@);
}

} // verus!
