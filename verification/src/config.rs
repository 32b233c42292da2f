use vstd::prelude::*;

use crate::error::Error;
use crate::text::join3;

verus! {

/// The name of the project configuration file.
pub const CONFIG_FILE: &'static str = "astray.verify.json";

/// The default fixtures directory.
pub const FIXTURES_DIR: &'static str = "fixtures";

/// The MCP protocol version that the client asks for.
pub const MCP_VERSION: &'static str = "2025-06-18";

/// The default request timeout, in milliseconds.
pub const DEFAULT_TIMEOUT_MS: u64 = 20000u64;

/// An MCP discovery surface that a fixture can check.
#[derive(Clone, Copy, PartialEq, Eq, Structural, Debug)]
pub enum CheckKind {
    Tools,
    Resources,
    Prompts,
}

/// Which surfaces a fixture checks and how long a request may take.
pub struct CheckSettings {
    pub checks: Vec<CheckKind>,
    pub timeout_ms: u64,
}

/// The project configuration (`astray.verify.json`).
pub struct ProjectConfig {
    pub version: u8,
    pub fixtures_dir: String,
    pub defaults: CheckSettings,
}

/// `default_checks`: only the tools surface.
pub fn default_checks() -> (r: Vec<CheckKind>)
    ensures
        r@ == seq![CheckKind::Tools],
{
    let mut v = Vec::new();
    v.push(CheckKind::Tools);
    proof {
        assert(v@ =~= seq![CheckKind::Tools]);
    }
    v
}

/// `default_timeout_ms`.
pub fn default_timeout_ms() -> (r: u64)
    ensures
        r == DEFAULT_TIMEOUT_MS,
{
    DEFAULT_TIMEOUT_MS
}

impl Default for CheckSettings {
    fn default() -> (r: Self)
        ensures
            r.checks@ == seq![CheckKind::Tools],
            r.timeout_ms == DEFAULT_TIMEOUT_MS,
    {
        CheckSettings { checks: default_checks(), timeout_ms: default_timeout_ms() }
    }
}

impl CheckSettings {
    /// A copy of the settings.
    pub fn duplicate(&self) -> (r: CheckSettings)
        ensures
            r.checks@ == self.checks@,
            r.timeout_ms == self.timeout_ms,
    {
        let mut checks = Vec::new();
        let mut i: usize = 0;
        while i < self.checks.len()
            invariant
                i <= self.checks.len(),
                checks@ == self.checks@.take(i as int),
            decreases self.checks.len() - i,
        {
            checks.push(self.checks[i]);
            proof {
                assert(checks@ =~= self.checks@.take(i + 1));
            }
            i = i + 1;
        }
        proof {
            assert(checks@ =~= self.checks@);
        }
        CheckSettings { checks, timeout_ms: self.timeout_ms }
    }
}

/// `default_config`: version 2, fixtures under `fixtures`, default settings.
pub fn default_config() -> (r: ProjectConfig)
    ensures
        r.version == 2,
        r.fixtures_dir@ == FIXTURES_DIR@,
        r.defaults.checks@ == seq![CheckKind::Tools],
        r.defaults.timeout_ms == DEFAULT_TIMEOUT_MS,
{
    ProjectConfig {
        version: 2,
        fixtures_dir: String::from_str(FIXTURES_DIR),
        defaults: CheckSettings::default(),
    }
}

/// A path segment begins at `i`.
pub open spec fn segment_starts(p: Seq<char>, i: int) -> bool {
    i == 0 || p[i - 1] == '/'
}

/// A path segment ends at `j`.
pub open spec fn segment_ends(p: Seq<char>, j: int) -> bool {
    j == p.len() || p[j] == '/'
}

/// The path has a `..` segment.
pub open spec fn has_parent_segment(p: Seq<char>) -> bool {
    exists|i: int|
        0 <= i && i + 2 <= p.len() && segment_starts(p, i) && #[trigger] p[i] == '.' && p[i + 1]
            == '.' && segment_ends(p, i + 2)
}

/// The path starts with a `.` segment (the only `.` segment that path
/// parsing keeps; later ones are dropped).
pub open spec fn starts_with_current_dir(p: Seq<char>) -> bool {
    p.len() >= 1 && p[0] == '.' && segment_ends(p, 1)
}

/// A path is a safe relative path: not empty, not absolute, and its
/// components are all plain names (no `.` or `..` components).
pub open spec fn is_safe_relative_path(p: Seq<char>) -> bool {
    &&& p.len() > 0
    &&& p[0] != '/'
    &&& !starts_with_current_dir(p)
    &&& !has_parent_segment(p)
}

fn unsafe_path(field: &str) -> (e: Error)
    ensures
        e.is_unsafe_path(field@),
{
    Error::UnsafePath { field: String::from_str(field) }
}

/// `safe_relative_path`: the path, if it is a non-empty relative path
/// without `.` or `..` components; `field` names it in the error.
pub fn safe_relative_path(path: &str, field: &str) -> (r: Result<String, Error>)
    ensures
        match r {
            Ok(p) => is_safe_relative_path(path@) && p@ == path@,
            Err(e) => !is_safe_relative_path(path@) && e.is_unsafe_path(field@),
        },
{
    let len = path.unicode_len();
    if len == 0 {
        return Err(unsafe_path(field));
    }
    let first = path.get_char(0);
    if first == '/' {
        return Err(unsafe_path(field));
    }
    if first == '.' && (len == 1 || path.get_char(1) == '/') {
        return Err(unsafe_path(field));
    }
    let mut i: usize = 0;
    while i < len
        invariant
            len == path@.len(),
            i <= len,
            forall|k: int|
                0 <= k < i && k + 2 <= len && segment_starts(path@, k) ==> !(#[trigger] path@[k]
                    == '.' && path@[k + 1] == '.' && segment_ends(path@, k + 2)),
        decreases len - i,
    {
        let starts = i == 0 || path.get_char(i - 1) == '/';
        if starts && len - i >= 2 && path.get_char(i) == '.' && path.get_char(i + 1) == '.' && (
        len - i == 2 || path.get_char(i + 2) == '/') {
            proof {
                assert(path@[i as int] == '.');
            }
            return Err(unsafe_path(field));
        }
        i = i + 1;
    }
    Ok(path.to_owned())
}

/// A fixture name is a simple file name: not empty, not `.` or `..`, and
/// without `/` or `\`.
pub open spec fn is_fixture_name(name: Seq<char>) -> bool {
    &&& name.len() > 0
    &&& name != "."@
    &&& name != ".."@
    &&& !name.contains('/')
    &&& !name.contains('\\')
}

/// `validate_fixture_name`: the name must be a simple file name. (A name
/// without separators that is not `.` or `..` is always its own file name,
/// so asking the path for its file name would add nothing to these tests.)
pub fn validate_fixture_name(name: &str) -> (r: Result<(), Error>)
    ensures
        r is Ok <==> is_fixture_name(name@),
        r matches Err(e) ==> e == Error::InvalidFixtureName,
{
    proof {
        reveal_strlit(".");
        reveal_strlit("..");
    }
    let len = name.unicode_len();
    if len == 0 {
        return Err(Error::InvalidFixtureName);
    }
    if len == 1 && name.get_char(0) == '.' {
        proof {
            assert(name@ =~= "."@);
        }
        return Err(Error::InvalidFixtureName);
    }
    if len == 2 && name.get_char(0) == '.' && name.get_char(1) == '.' {
        proof {
            assert(name@ =~= ".."@);
        }
        return Err(Error::InvalidFixtureName);
    }
    let mut i: usize = 0;
    while i < len
        invariant
            len == name@.len(),
            i <= len,
            forall|k: int| 0 <= k < i ==> #[trigger] name@[k] != '/' && name@[k] != '\\',
        decreases len - i,
    {
        let c = name.get_char(i);
        if c == '/' || c == '\\' {
            proof {
                assert(name@[i as int] == c);
            }
            return Err(Error::InvalidFixtureName);
        }
        i = i + 1;
    }
    proof {
        if name@ == "."@ {
            assert(name@.len() == 1 && name@[0] == '.');
        }
        if name@ == ".."@ {
            assert(name@.len() == 2 && name@[0] == '.' && name@[1] == '.');
        }
    }
    Ok(())
}

/// The config file's version is one this tool reads.
pub open spec fn supported_version(version: u8) -> bool {
    1 <= version <= 2
}

/// The checks that `load_config` makes of a parsed configuration.
pub fn check_config(config: &ProjectConfig) -> (r: Result<(), Error>)
    ensures
        r is Ok <==> supported_version(config.version) && is_safe_relative_path(
            config.fixtures_dir@,
        ),
        r matches Err(e) ==> if !supported_version(config.version) {
            e == Error::UnsupportedConfigVersion { version: config.version }
        } else {
            e.is_unsafe_path("fixtures_dir"@)
        },
{
    if !(1 <= config.version && config.version <= 2) {
        return Err(Error::UnsupportedConfigVersion { version: config.version });
    }
    match safe_relative_path(config.fixtures_dir.as_str(), "fixtures_dir") {
        Ok(_) => Ok(()),
        Err(e) => Err(e),
    }
}

/// `PathBuf::join` with a relative path: the two parts with one separator
/// between them (none when the base is empty or already ends with one).
pub open spec fn join_path(base: Seq<char>, rel: Seq<char>) -> Seq<char> {
    if base.len() == 0 || base.last() == '/' {
        base + rel
    } else {
        base + "/"@ + rel
    }
}

/// `PathBuf::join` with a relative path.
pub fn join_path_text(base: &str, rel: &str) -> (r: String)
    ensures
        r@ == join_path(base@, rel@),
{
    proof {
        reveal_strlit("");
    }
    let len = base.unicode_len();
    if len == 0 || base.get_char(len - 1) == '/' {
        join3(base, "", rel)
    } else {
        join3(base, "/", rel)
    }
}

/// `fixtures_dir`: the fixtures directory under the project root.
pub fn fixtures_dir(root: &str, config: &ProjectConfig) -> (r: Result<String, Error>)
    ensures
        match r {
            Ok(d) => is_safe_relative_path(config.fixtures_dir@) && d@ == join_path(
                root@,
                config.fixtures_dir@,
            ),
            Err(e) => !is_safe_relative_path(config.fixtures_dir@) && e.is_unsafe_path("fixtures_dir"@),
        },
{
    let rel = safe_relative_path(config.fixtures_dir.as_str(), "fixtures_dir")?;
    Ok(join_path_text(root, rel.as_str()))
}

/// The file name of a fixture.
pub open spec fn fixture_file_name(name: Seq<char>) -> Seq<char> {
    name + ".mcp.json"@
}

/// `fixture_path`: where the fixture of that name is kept.
pub fn fixture_path(root: &str, config: &ProjectConfig, name: &str) -> (r: Result<String, Error>)
    ensures
        match r {
            Ok(p) => is_fixture_name(name@) && is_safe_relative_path(config.fixtures_dir@) && p@
                == join_path(join_path(root@, config.fixtures_dir@), fixture_file_name(name@)),
            Err(e) => if !is_fixture_name(name@) {
                e == Error::InvalidFixtureName
            } else {
                !is_safe_relative_path(config.fixtures_dir@) && e.is_unsafe_path("fixtures_dir"@)
            },
        },
{
    validate_fixture_name(name)?;
    let dir = fixtures_dir(root, config)?;
    let file = join3(name, ".mcp.json", "");
    proof {
        assert(file@ =~= fixture_file_name(name@)) by {
            reveal_strlit("");
        }
    }
    Ok(join_path_text(dir.as_str(), file.as_str()))
}

} // verus!
