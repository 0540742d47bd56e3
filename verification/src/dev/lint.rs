//! Static validator for `plugin.toml` manifests.
//!
//! Checks naming conventions, semantic versions, runtime targets, priority ranges, entrypoint
//! presence, duplicate commands and tools, tool parameter schemas and adapter declarations.
//! Reading the manifest file and probing the file system is the caller's part; every rule is
//! decided here.
use vstd::prelude::*;

use crate::json::{json_get, json_str, JsonValue};
use crate::manifest::{AdapterSection, CommandDefinition, PluginManifest, ToolDefinitionEntry};
use crate::text::{chars_of, decimal, is_ascii_digit, is_ascii_lower, is_ws, joined_path, owned, push_char, push_str, spec_to_lowercase, split_char, split_on, str_equal, strs, trim};

verus! {

/// Errors raised before a manifest can be linted.
#[derive(Debug)]
pub enum LintError {
    /// The manifest file could not be read.
    Io {
        /// Path of the manifest.
        path: String,
        /// Description of the failure.
        message: String,
    },
    /// The manifest is not valid TOML for the schema.
    Toml {
        /// Path of the manifest.
        path: String,
        /// Description of the failure.
        message: String,
    },
    /// No `plugin.toml` at the given path.
    ManifestNotFound(String),
}

/// Outcome of a lint run.
pub struct LintReport {
    /// Path of the analyzed manifest.
    pub manifest_path: String,
    /// Root directory of the plugin.
    pub plugin_root: String,
    /// Declared plugin identifier.
    pub plugin_id: Option<String>,
    /// Declared display name.
    pub plugin_name: Option<String>,
    /// Declared runtime.
    pub runtime: Option<String>,
    /// Violations of the manifest rules.
    pub errors: Vec<String>,
    /// Potential problems that do not invalidate the manifest.
    pub warnings: Vec<String>,
}

impl LintReport {
    /// Whether no error was found.
    pub fn is_valid(&self) -> (r: bool)
        ensures
            r == (self.errors@.len() == 0),
    {
        self.errors.len() == 0
    }
}

/// What a path given to the linter turned out to be.
pub enum PathProbe {
    /// A file, with its parent directory.
    File {
        /// Parent directory (`.` when the path has none).
        parent: String,
    },
    /// A directory; `manifest_is_file` tells whether `<dir>/plugin.toml` is a file.
    Dir {
        /// Whether the directory holds a `plugin.toml` file.
        manifest_is_file: bool,
    },
    /// Neither a file nor a directory.
    Missing,
}

/// Resolves the manifest file and plugin root for `path`: a file is the manifest itself, a
/// directory must hold `plugin.toml`.
pub fn find_manifest_path(path: &str, probe: PathProbe) -> (r: Result<(String, String), LintError>)
    ensures
        match probe {
            PathProbe::File { parent } => r matches Ok((m, root)) && m@ == path@ && root == parent,
            PathProbe::Dir { manifest_is_file } => if manifest_is_file {
                r matches Ok((m, root)) && m@ == joined_path(path@, "plugin.toml"@) && root@ == path@
            } else {
                r matches Err(LintError::ManifestNotFound(p)) && p@ == joined_path(path@, "plugin.toml"@)
            },
            PathProbe::Missing => r matches Err(LintError::ManifestNotFound(p)) && p@ == path@,
        },
{
    match probe {
        PathProbe::File { parent } => Ok((owned(path), parent)),
        PathProbe::Dir { manifest_is_file } => {
            let candidate = crate::text::join_path(path, "plugin.toml");
            if manifest_is_file {
                Ok((candidate, owned(path)))
            } else {
                Err(LintError::ManifestNotFound(candidate))
            }
        },
        PathProbe::Missing => Err(LintError::ManifestNotFound(owned(path))),
    }
}

// ---------------------------------------------------------------------------------------------
// Character classes
// ---------------------------------------------------------------------------------------------

/// Unicode alphanumeric class of a character (`char::is_alphanumeric`).
pub uninterp spec fn unicode_alphanumeric(c: char) -> bool;

/// Whether `c` is alphabetic or numeric in Unicode (`char::is_alphanumeric`).
#[verifier::external_body]
pub(crate) fn is_alphanumeric(c: char) -> (r: bool)
    ensures
        r == unicode_alphanumeric(c),
{
    c.is_alphanumeric()
}

/// Characters allowed in a plugin identifier.
pub open spec fn id_char(c: char) -> bool {
    is_ascii_lower(c) || is_ascii_digit(c) || c == '.' || c == '_' || c == '-'
}

/// Characters allowed in a tool name.
pub open spec fn tool_char(c: char) -> bool {
    unicode_alphanumeric(c) || c == '_' || c == '-'
}

/// Characters allowed in an adapter platform identifier.
pub open spec fn platform_char(c: char) -> bool {
    is_ascii_lower(c) || is_ascii_digit(c) || c == '_' || c == '-'
}

/// Position of the first character of `s` rejected by `ok`.
pub open spec fn first_bad(s: Seq<char>, ok: spec_fn(char) -> bool) -> Option<int> {
    if exists|i: int| 0 <= i < s.len() && !ok(s[i]) {
        Some(choose|i: int| 0 <= i < s.len() && !ok(s[i]) && forall|j: int| 0 <= j < i ==> ok(s[j]))
    } else {
        None
    }
}

proof fn lemma_first_bad(s: Seq<char>, ok: spec_fn(char) -> bool, i: int)
    requires
        0 <= i < s.len(),
        !ok(s[i]),
        forall|j: int| 0 <= j < i ==> ok(s[j]),
    ensures
        first_bad(s, ok) == Some(i),
{
    let k = choose|k: int| 0 <= k < s.len() && !ok(s[k]) && forall|j: int| 0 <= j < k ==> ok(s[j]);
    if k < i {
        assert(ok(s[k]));
    }
    if i < k {
        assert(ok(s[i]));
    }
}

/// Which character class a check uses.
pub enum CharClass {
    /// Plugin identifier characters.
    Id,
    /// Tool name characters.
    Tool,
    /// Adapter platform characters.
    Platform,
}

/// The predicate of a character class.
pub open spec fn class_fn(k: CharClass) -> spec_fn(char) -> bool {
    match k {
        CharClass::Id => |c: char| id_char(c),
        CharClass::Tool => |c: char| tool_char(c),
        CharClass::Platform => |c: char| platform_char(c),
    }
}

fn in_class(k: &CharClass, c: char) -> (r: bool)
    ensures
        r == (class_fn(*k))(c),
{
    match k {
        CharClass::Id => crate::text::is_ascii_lowercase(c) || crate::text::is_ascii_digit_char(c) || c == '.' || c == '_' || c == '-',
        CharClass::Tool => is_alphanumeric(c) || c == '_' || c == '-',
        CharClass::Platform => crate::text::is_ascii_lowercase(c) || crate::text::is_ascii_digit_char(c) || c == '_' || c == '-',
    }
}

fn find_bad(s: &str, k: CharClass) -> (r: Option<char>)
    ensures
        match first_bad(s@, class_fn(k)) {
            Some(i) => r == Some(s@[i]),
            None => r is None,
        },
{
    let v = chars_of(s);
    for i in 0..v.len()
        invariant
            v@ == s@,
            forall|j: int| 0 <= j < i ==> (class_fn(k))(v@[j]),
    {
        if !in_class(&k, v[i]) {
            proof {
                lemma_first_bad(s@, class_fn(k), i as int);
            }
            return Some(v[i]);
        }
    }
    None
}

// ---------------------------------------------------------------------------------------------
// Numbers
// ---------------------------------------------------------------------------------------------

/// Value of a string of decimal digits.
pub open spec fn digits_value(d: Seq<char>) -> nat
    decreases d.len(),
{
    if d.len() == 0 {
        0
    } else {
        digits_value(d.drop_last()) * 10 + ((d.last() as u32) - 48) as nat
    }
}

/// Whether `s` parses as a `u64` (`str::parse::<u64>`): an optional `+`, then at least one
/// ASCII digit, with a value that fits.
pub open spec fn parses_u64(s: Seq<char>) -> bool {
    &&& unsigned_digits(s).len() > 0
    &&& forall|i: int| 0 <= i < unsigned_digits(s).len() ==> is_ascii_digit(#[trigger] unsigned_digits(s)[i])
    &&& digits_value(unsigned_digits(s)) <= u64::MAX
}

/// `s` without one leading `+`.
pub open spec fn unsigned_digits(s: Seq<char>) -> Seq<char> {
    if s.len() > 0 && s[0] == '+' {
        s.drop_first()
    } else {
        s
    }
}

fn check_u64(s: &str) -> (r: bool)
    ensures
        r == parses_u64(s@),
{
    let v = chars_of(s);
    let start: usize = if v.len() > 0 && v[0] == '+' { 1 } else { 0 };
    let ghost d = unsigned_digits(s@);
    assert(d =~= v@.skip(start as int));
    if start >= v.len() {
        return false;
    }
    let mut acc: u64 = 0;
    let mut i: usize = start;
    assert(v@.skip(start as int).take(0) =~= Seq::<char>::empty());
    while i < v.len()
        invariant
            start <= i <= v@.len(),
            v@ == s@,
            d == unsigned_digits(s@),
            d == v@.skip(start as int),
            forall|j: int| 0 <= j < i - start ==> is_ascii_digit(#[trigger] d[j]),
            acc == digits_value(d.take(i - start)),
        decreases v@.len() - i,
    {
        let c = v[i];
        assert(d[i - start] == v@[i as int]);
        if !crate::text::is_ascii_digit_char(c) {
            assert(!is_ascii_digit(d[i - start]));
            assert(!(forall|j: int| 0 <= j < d.len() ==> is_ascii_digit(#[trigger] d[j])));
            assert(!parses_u64(s@));
            return false;
        }
        let digit = (c as u32 - 48) as u64;
        proof {
            assert(d.take(i - start + 1).drop_last() =~= d.take(i - start));
            assert(d.take(i - start + 1).last() == c);
        }
        match acc.checked_mul(10) {
            None => {
                proof {
                    assert(digits_value(d.take(i - start + 1)) >= acc * 10);
                    if forall|j: int| 0 <= j < d.len() ==> is_ascii_digit(#[trigger] d[j]) {
                        lemma_digits_value_prefix(d, i - start + 1);
                        assert(digits_value(d) > u64::MAX);
                    }
                    assert(!parses_u64(s@));
                }
                return false;
            },
            Some(m) => match m.checked_add(digit) {
                None => {
                    proof {
                        if forall|j: int| 0 <= j < d.len() ==> is_ascii_digit(#[trigger] d[j]) {
                            lemma_digits_value_prefix(d, i - start + 1);
                        }
                    }
                    return false;
                },
                Some(a) => {
                    acc = a;
                },
            },
        }
        i = i + 1;
    }
    assert(d.take(d.len() as int) =~= d);
    true
}

/// A prefix of a digit string is worth no more than the whole string.
proof fn lemma_digits_value_prefix(d: Seq<char>, k: int)
    requires
        0 <= k <= d.len(),
        forall|j: int| 0 <= j < d.len() ==> is_ascii_digit(#[trigger] d[j]),
    ensures
        digits_value(d.take(k)) <= digits_value(d),
    decreases d.len() - k,
{
    if k < d.len() {
        lemma_digits_value_prefix(d, k + 1);
        assert(d.take(k + 1).drop_last() =~= d.take(k));
        assert(digits_value(d.take(k + 1)) >= digits_value(d.take(k)) * 10) by (nonlinear_arith)
            requires
                digits_value(d.take(k + 1)) == digits_value(d.take(k)) * 10 + ((d.take(k + 1).last() as u32) - 48) as nat,
        ;
        assert(digits_value(d.take(k)) * 10 >= digits_value(d.take(k))) by (nonlinear_arith);
    } else {
        assert(d.take(k) =~= d);
    }
}

// ---------------------------------------------------------------------------------------------
// Text helpers
// ---------------------------------------------------------------------------------------------

fn concat3(a: &str, b: &str, c: &str) -> (r: String)
    ensures
        r@ == a@ + b@ + c@,
{
    let mut r = owned(a);
    push_str(&mut r, b);
    push_str(&mut r, c);
    r
}

fn concat5(a: &str, b: &str, c: &str, d: &str, e: &str) -> (r: String)
    ensures
        r@ == a@ + b@ + c@ + d@ + e@,
{
    let mut r = concat3(a, b, c);
    push_str(&mut r, d);
    push_str(&mut r, e);
    r
}

/// Decimal rendering of a signed number (`format!("{n}")`).
pub open spec fn signed_decimal(n: int) -> Seq<char> {
    if n < 0 {
        "-"@ + decimal((-n) as nat)
    } else {
        decimal(n as nat)
    }
}

fn signed_text(n: i32) -> (r: String)
    ensures
        r@ == signed_decimal(n as int),
{
    let mut r = String::new();
    if n < 0 {
        push_char(&mut r, '-');
        let m: i64 = -(n as i64);
        crate::text::push_decimal(&mut r, m as u64);
        proof {
            reveal_strlit("-");
            assert(r@ =~= signed_decimal(n as int));
        }
    } else {
        crate::text::push_decimal(&mut r, n as u64);
    }
    r
}

// ---------------------------------------------------------------------------------------------
// Rules
// ---------------------------------------------------------------------------------------------

/// Errors about the plugin identifier.
pub open spec fn id_errors(id: Seq<char>) -> Seq<Seq<char>> {
    if trim(id).len() == 0 {
        seq!["Plugin 'id' must not be empty"@]
    } else {
        (if !id.contains('.') {
            seq!["Plugin id '"@ + id + "' does not follow reverse domain notation (e.g. 'org.kanon.plugin.demo')"@]
        } else {
            Seq::empty()
        }) + match first_bad(id, class_fn(CharClass::Id)) {
            Some(i) => seq!["Plugin id '"@ + id + "' contains invalid character '"@ + seq![id[i]]
                + "'. Only lowercase ASCII, digits, '.', '_', and '-' are permitted"@],
            None => Seq::empty(),
        }
    }
}

/// Errors about the display name.
pub open spec fn name_errors(name: Seq<char>) -> Seq<Seq<char>> {
    if trim(name).len() == 0 {
        seq!["Plugin 'name' must not be empty"@]
    } else {
        Seq::empty()
    }
}

/// Whether a version string is `X.Y.Z...` with every part a `u64`.
pub open spec fn semver_like(v: Seq<char>) -> bool {
    let parts = split_on(v, '.');
    parts.len() >= 3 && forall|i: int| 0 <= i < parts.len() ==> parses_u64(#[trigger] parts[i])
}

/// Errors about the version.
pub open spec fn version_errors(v: Seq<char>) -> Seq<Seq<char>> {
    if trim(v).len() == 0 {
        seq!["Plugin 'version' must not be empty"@]
    } else if !semver_like(v) {
        seq!["Plugin version '"@ + v + "' is not a valid Semantic Version (expected X.Y.Z)"@]
    } else {
        Seq::empty()
    }
}

/// Supported runtime names (after lowercasing).
pub open spec fn supported_runtime(n: Seq<char>) -> bool {
    n == "rust"@ || n == "python"@ || n == "typescript"@ || n == "ts"@
}

/// Errors about the runtime.
pub open spec fn runtime_errors(runtime: Seq<char>) -> Seq<Seq<char>> {
    let n = spec_to_lowercase(runtime);
    if supported_runtime(n) {
        Seq::empty()
    } else {
        seq!["Unsupported runtime '"@ + n + "'. Supported runtimes: 'rust', 'python', 'typescript'"@]
    }
}

/// Law: the runtime check reports nothing exactly for the runtimes `rust`, `python`,
/// `typescript` and `ts`, in any letter case, and otherwise exactly one error.
pub proof fn law_supported_runtimes(runtime: Seq<char>)
    ensures
        ({
            let l = spec_to_lowercase(runtime);
            &&& runtime_errors(runtime).len() == 0 <==> (l == "rust"@ || l == "python"@ || l == "typescript"@ || l == "ts"@)
            &&& runtime_errors(runtime).len() <= 1
        }),
{
}

/// Whether a priority lies in `1..=1000`.
pub open spec fn priority_ok(p: i32) -> bool {
    1 <= p <= 1000
}

/// Errors about the plugin priority.
pub open spec fn priority_errors(p: Option<i32>) -> Seq<Seq<char>> {
    match p {
        Some(x) => if priority_ok(x) {
            Seq::empty()
        } else {
            seq!["Plugin priority "@ + signed_decimal(x as int) + " is outside valid range [1, 1000]"@]
        },
        None => Seq::empty(),
    }
}

/// Errors about the entrypoint.
pub open spec fn entry_errors(entry: Seq<char>, runtime: Seq<char>, root: Seq<char>, exists: bool) -> Seq<Seq<char>> {
    if trim(entry).len() == 0 {
        seq!["Plugin 'entrypoint' must not be empty"@]
    } else if spec_to_lowercase(runtime) == "rust"@ || exists {
        Seq::empty()
    } else {
        seq!["Entrypoint script '"@ + entry + "' does not exist at '"@ + joined_path(root, entry) + "'"@]
    }
}

/// Warnings about the entrypoint.
pub open spec fn entry_warnings(entry: Seq<char>, runtime: Seq<char>, exists: bool) -> Seq<Seq<char>> {
    if trim(entry).len() > 0 && spec_to_lowercase(runtime) == "rust"@ && !exists {
        seq!["Rust entrypoint binary '"@ + entry + "' not found on disk. Ensure project has been compiled with 'cargo build'"@]
    } else {
        Seq::empty()
    }
}

/// `s` without its leading `/` characters.
pub open spec fn without_slashes(s: Seq<char>) -> Seq<char>
    decreases s.len(),
{
    if s.len() > 0 && s[0] == '/' {
        without_slashes(s.drop_first())
    } else {
        s
    }
}

/// Names of the non-blank commands among `cmds`, in order.
pub open spec fn command_names(cmds: Seq<CommandDefinition>) -> Seq<Seq<char>>
    decreases cmds.len(),
{
    if cmds.len() == 0 {
        Seq::empty()
    } else if trim(cmds.last().name@).len() == 0 {
        command_names(cmds.drop_last())
    } else {
        command_names(cmds.drop_last()).push(cmds.last().name@)
    }
}

/// Errors about one command, given the names declared before it.
pub open spec fn one_command_errors(c: CommandDefinition, seen: Seq<Seq<char>>) -> Seq<Seq<char>> {
    let name = c.name@;
    if trim(name).len() == 0 {
        seq!["Command name must not be empty"@]
    } else {
        (if name.len() > 0 && name[0] == '/' {
            seq!["Command name '"@ + name + "' must not include a leading slash (use '"@ + without_slashes(name) + "' instead)"@]
        } else {
            Seq::empty()
        }) + (if exists|i: int| 0 <= i < name.len() && is_ws(#[trigger] name[i]) {
            seq!["Command name '"@ + name + "' must not contain whitespace"@]
        } else {
            Seq::empty()
        }) + (if seen.contains(name) {
            seq!["Duplicate command declaration: command '"@ + name + "' is defined multiple times"@]
        } else {
            Seq::empty()
        }) + match c.priority {
            Some(p) => if priority_ok(p) {
                Seq::empty()
            } else {
                seq!["Command '"@ + name + "' priority "@ + signed_decimal(p as int) + " is outside valid range [1, 1000]"@]
            },
            None => Seq::empty(),
        }
    }
}

/// Errors about the declared commands.
pub open spec fn command_errors(cmds: Seq<CommandDefinition>) -> Seq<Seq<char>>
    decreases cmds.len(),
{
    if cmds.len() == 0 {
        Seq::empty()
    } else {
        command_errors(cmds.drop_last()) + one_command_errors(cmds.last(), command_names(cmds.drop_last()))
    }
}

/// Names of the non-blank tools among `tools`, in order.
pub open spec fn tool_names(tools: Seq<ToolDefinitionEntry>) -> Seq<Seq<char>>
    decreases tools.len(),
{
    if tools.len() == 0 {
        Seq::empty()
    } else if trim(tools.last().name@).len() == 0 {
        tool_names(tools.drop_last())
    } else {
        tool_names(tools.drop_last()).push(tools.last().name@)
    }
}

/// Errors about one tool, given the names declared before it.
pub open spec fn one_tool_errors(t: ToolDefinitionEntry, seen: Seq<Seq<char>>) -> Seq<Seq<char>> {
    let name = t.name@;
    if trim(name).len() == 0 {
        seq!["Tool name must not be empty"@]
    } else {
        (match first_bad(name, class_fn(CharClass::Tool)) {
            Some(i) => seq!["Tool name '"@ + name + "' contains invalid character '"@ + seq![name[i]]
                + "'. Only alphanumeric characters, '_', and '-' are allowed"@],
            None => Seq::empty(),
        }) + (if seen.contains(name) {
            seq!["Duplicate tool declaration: tool '"@ + name + "' is defined multiple times"@]
        } else {
            Seq::empty()
        }) + match t.parameters {
            Some(p) => if !(p is Object) {
                seq!["Tool '"@ + name + "' parameters schema must be a JSON Schema Object"@]
            } else {
                match json_get(p, "type"@) {
                    Some(ty) => if json_str(Some(ty)) == Some("object"@) {
                        Seq::empty()
                    } else {
                        seq!["Tool '"@ + name + "' parameters schema must declare 'type': 'object'"@]
                    },
                    None => Seq::empty(),
                }
            },
            None => Seq::empty(),
        }
    }
}

/// Warnings about one tool.
pub open spec fn one_tool_warnings(t: ToolDefinitionEntry) -> Seq<Seq<char>> {
    let name = t.name@;
    if trim(name).len() > 0 && (t.parameters matches Some(p) && p is Object && json_get(p, "type"@) is None) {
        seq!["Tool '"@ + name + "' parameters schema does not explicitly declare 'type': 'object'"@]
    } else {
        Seq::empty()
    }
}

/// Errors about the declared tools.
pub open spec fn tool_errors(tools: Seq<ToolDefinitionEntry>) -> Seq<Seq<char>>
    decreases tools.len(),
{
    if tools.len() == 0 {
        Seq::empty()
    } else {
        tool_errors(tools.drop_last()) + one_tool_errors(tools.last(), tool_names(tools.drop_last()))
    }
}

/// Warnings about the declared tools.
pub open spec fn tool_warnings(tools: Seq<ToolDefinitionEntry>) -> Seq<Seq<char>>
    decreases tools.len(),
{
    if tools.len() == 0 {
        Seq::empty()
    } else {
        tool_warnings(tools.drop_last()) + one_tool_warnings(tools.last())
    }
}

/// Errors about the adapter declaration.
pub open spec fn adapter_errors(a: Option<AdapterSection>) -> Seq<Seq<char>> {
    match a {
        Some(a) => (if trim(a.platform@).len() == 0 {
            seq!["Adapter 'platform' identifier must not be empty"@]
        } else {
            Seq::empty()
        }) + match first_bad(a.platform@, class_fn(CharClass::Platform)) {
            Some(i) => seq!["Adapter platform '"@ + a.platform@ + "' contains invalid character '"@ + seq![a.platform@[i]]
                + "'. Use lowercase alphanumeric, '_', or '-'"@],
            None => Seq::empty(),
        },
        None => Seq::empty(),
    }
}

/// Every error of a manifest whose plugin root is `root`; `exists` tells whether the
/// entrypoint exists below the root.
pub open spec fn lint_errors(m: PluginManifest, root: Seq<char>, exists: bool) -> Seq<Seq<char>> {
    id_errors(m.plugin.id@) + name_errors(m.plugin.name@) + version_errors(m.plugin.version@)
        + runtime_errors(m.plugin.runtime@) + priority_errors(m.plugin.priority)
        + entry_errors(m.plugin.entrypoint@, m.plugin.runtime@, root, exists)
        + command_errors(m.commands@) + tool_errors(m.tools@) + adapter_errors(m.adapter)
}

/// Every warning of a manifest.
pub open spec fn lint_warnings(m: PluginManifest, exists: bool) -> Seq<Seq<char>> {
    entry_warnings(m.plugin.entrypoint@, m.plugin.runtime@, exists) + tool_warnings(m.tools@)
}

// ---------------------------------------------------------------------------------------------
// Checks
// ---------------------------------------------------------------------------------------------

fn extend(out: &mut Vec<String>, more: Vec<String>)
    ensures
        strs(final(out)@) == strs(old(out)@) + strs(more@),
{
    let ghost start = strs(out@);
    let ghost m = strs(more@);
    for x in it: more
        invariant
            strs(out@) == start + m.take(it.index() as int),
            m == strs(it.seq()),
    {
        let ghost before = strs(out@);
        let ghost i = it.index();
        out.push(x);
        assert(strs(out@) =~= before.push(m[i]));
        assert(m.take(i + 1) =~= m.take(i as int).push(m[i]));
    }
    assert(m.take(m.len() as int) =~= m);
}

fn single(s: String) -> (r: Vec<String>)
    ensures
        strs(r@) == seq![s@],
{
    let mut v: Vec<String> = Vec::new();
    v.push(s);
    assert(strs(v@) =~= seq![s@]);
    v
}

fn none() -> (r: Vec<String>)
    ensures
        strs(r@) == Seq::<Seq<char>>::empty(),
{
    let v: Vec<String> = Vec::new();
    assert(strs(v@) =~= Seq::<Seq<char>>::empty());
    v
}

fn is_blank_str(s: &str) -> (r: bool)
    ensures
        r == (trim(s@).len() == 0),
{
    crate::text::trimmed(s).as_str().is_empty()
}

fn check_id(id: &str) -> (r: Vec<String>)
    ensures
        strs(r@) == id_errors(id@),
{
    if is_blank_str(id) {
        return single(owned("Plugin 'id' must not be empty"));
    }
    let ghost part1: Seq<Seq<char>> = if !id@.contains('.') {
        seq!["Plugin id '"@ + id@ + "' does not follow reverse domain notation (e.g. 'org.kanon.plugin.demo')"@]
    } else {
        Seq::empty()
    };
    let ghost part2: Seq<Seq<char>> = match first_bad(id@, class_fn(CharClass::Id)) {
        Some(i) => seq!["Plugin id '"@ + id@ + "' contains invalid character '"@ + seq![id@[i]]
            + "'. Only lowercase ASCII, digits, '.', '_', and '-' are permitted"@],
        None => Seq::empty(),
    };
    let v = chars_of(id);
    let mut out = if !crate::text::contains_char(v.as_slice(), '.') {
        single(concat3("Plugin id '", id, "' does not follow reverse domain notation (e.g. 'org.kanon.plugin.demo')"))
    } else {
        none()
    };
    assert(strs(out@) == part1);
    match find_bad(id, CharClass::Id) {
        Some(c) => {
            let mut m = concat3("Plugin id '", id, "' contains invalid character '");
            push_char(&mut m, c);
            push_str(&mut m, "'. Only lowercase ASCII, digits, '.', '_', and '-' are permitted");
            let ghost i = first_bad(id@, class_fn(CharClass::Id))->0;
            assert(m@ =~= "Plugin id '"@ + id@ + "' contains invalid character '"@ + seq![id@[i]]
                + "'. Only lowercase ASCII, digits, '.', '_', and '-' are permitted"@);
            extend(&mut out, single(m));
        },
        None => {
            extend(&mut out, none());
        },
    }
    assert(strs(out@) =~= part1 + part2);
    out
}

fn check_version(version: &str) -> (r: Vec<String>)
    ensures
        strs(r@) == version_errors(version@),
{
    if is_blank_str(version) {
        return single(owned("Plugin 'version' must not be empty"));
    }
    let parts = split_char(version, '.');
    let mut ok = parts.len() >= 3;
    let mut i: usize = 0;
    while ok && i < parts.len()
        invariant
            strs(parts@) == split_on(version@, '.'),
            i <= parts@.len(),
            ok ==> parts@.len() >= 3,
            ok ==> forall|j: int| 0 <= j < i ==> parses_u64(#[trigger] split_on(version@, '.')[j]),
            !ok ==> !semver_like(version@),
        decreases parts@.len() - i + (if ok { 1int } else { 0int }),
    {
        if check_u64(parts[i].as_str()) {
            i = i + 1;
        } else {
            assert(split_on(version@, '.')[i as int] == parts@[i as int]@);
            ok = false;
        }
    }
    if ok {
        none()
    } else {
        single(concat3("Plugin version '", version, "' is not a valid Semantic Version (expected X.Y.Z)"))
    }
}

fn check_runtime(runtime: &str) -> (r: Vec<String>)
    ensures
        strs(r@) == runtime_errors(runtime@),
{
    let n = crate::text::to_lowercase(runtime);
    let s = n.as_str();
    if str_equal(s, "rust") || str_equal(s, "python") || str_equal(s, "typescript") || str_equal(s, "ts") {
        none()
    } else {
        single(concat3("Unsupported runtime '", s, "'. Supported runtimes: 'rust', 'python', 'typescript'"))
    }
}

fn in_range(p: i32) -> (r: bool)
    ensures
        r == priority_ok(p),
{
    1 <= p && p <= 1000
}

fn check_priority(p: Option<i32>) -> (r: Vec<String>)
    ensures
        strs(r@) == priority_errors(p),
{
    match p {
        Some(x) => if in_range(x) {
            none()
        } else {
            let t = signed_text(x);
            single(concat3("Plugin priority ", t.as_str(), " is outside valid range [1, 1000]"))
        },
        None => none(),
    }
}

fn check_entrypoint(entry: &str, runtime: &str, root: &str, exists: bool) -> (r: (Vec<String>, Vec<String>))
    ensures
        strs(r.0@) == entry_errors(entry@, runtime@, root@, exists),
        strs(r.1@) == entry_warnings(entry@, runtime@, exists),
{
    if is_blank_str(entry) {
        return (single(owned("Plugin 'entrypoint' must not be empty")), none());
    }
    let n = crate::text::to_lowercase(runtime);
    if str_equal(n.as_str(), "rust") {
        if !exists {
            (none(), single(concat3("Rust entrypoint binary '", entry, "' not found on disk. Ensure project has been compiled with 'cargo build'")))
        } else {
            (none(), none())
        }
    } else if !exists {
        let path = crate::text::join_path(root, entry);
        (single(concat5("Entrypoint script '", entry, "' does not exist at '", path.as_str(), "'")), none())
    } else {
        (none(), none())
    }
}

fn contains_name(seen: &Vec<String>, name: &str) -> (r: bool)
    ensures
        r == strs(seen@).contains(name@),
{
    for i in 0..seen.len()
        invariant
            forall|j: int| 0 <= j < i ==> seen@[j]@ != name@,
    {
        if str_equal(seen[i].as_str(), name) {
            assert(strs(seen@)[i as int] == name@);
            return true;
        }
    }
    proof {
        if strs(seen@).contains(name@) {
            let j = choose|j: int| 0 <= j < strs(seen@).len() && strs(seen@)[j] == name@;
            assert(seen@[j]@ == name@);
        }
    }
    false
}

fn has_whitespace(s: &str) -> (r: bool)
    ensures
        r == exists|i: int| 0 <= i < s@.len() && is_ws(#[trigger] s@[i]),
{
    let v = chars_of(s);
    for i in 0..v.len()
        invariant
            v@ == s@,
            forall|j: int| 0 <= j < i ==> !is_ws(#[trigger] s@[j]),
    {
        if crate::text::is_whitespace(v[i]) {
            return true;
        }
    }
    false
}

fn strip_slash_prefix(s: &str) -> (r: String)
    ensures
        r@ == without_slashes(s@),
{
    let v = chars_of(s);
    let n = v.len();
    let mut a: usize = 0;
    assert(v@.skip(0) =~= v@);
    while a < n && v[a] == '/'
        invariant
            a <= n == v@.len(),
            without_slashes(v@.skip(a as int)) == without_slashes(v@),
        decreases n - a,
    {
        assert(v@.skip(a as int).drop_first() =~= v@.skip(a + 1));
        a = a + 1;
    }
    assert(v@.subrange(a as int, n as int) =~= v@.skip(a as int));
    crate::text::string_of_range(v.as_slice(), a, n)
}

fn check_commands(cmds: &Vec<CommandDefinition>) -> (r: Vec<String>)
    ensures
        strs(r@) == command_errors(cmds@),
{
    let mut out: Vec<String> = Vec::new();
    let mut seen: Vec<String> = Vec::new();
    for i in 0..cmds.len()
        invariant
            strs(out@) == command_errors(cmds@.take(i as int)),
            strs(seen@) == command_names(cmds@.take(i as int)),
    {
        proof {
            assert(cmds@.take(i + 1).drop_last() =~= cmds@.take(i as int));
            assert(cmds@.take(i + 1).last() == cmds@[i as int]);
        }
        let c = &cmds[i];
        let name = c.name.as_str();
        if is_blank_str(name) {
            extend(&mut out, single(owned("Command name must not be empty")));
        } else {
            let ghost base = strs(out@);
            let nv = chars_of(name);
            if nv.len() > 0 && nv[0] == '/' {
                let stripped = strip_slash_prefix(name);
                extend(&mut out, single(concat5("Command name '", name, "' must not include a leading slash (use '", stripped.as_str(), "' instead)")));
            } else {
                extend(&mut out, none());
            }
            if has_whitespace(name) {
                extend(&mut out, single(concat3("Command name '", name, "' must not contain whitespace")));
            } else {
                extend(&mut out, none());
            }
            if contains_name(&seen, name) {
                extend(&mut out, single(concat3("Duplicate command declaration: command '", name, "' is defined multiple times")));
            } else {
                extend(&mut out, none());
            }
            match c.priority {
                Some(p) => if in_range(p) {
                    extend(&mut out, none());
                } else {
                    let t = signed_text(p);
                    extend(&mut out, single(concat5("Command '", name, "' priority ", t.as_str(), " is outside valid range [1, 1000]")));
                },
                None => {
                    extend(&mut out, none());
                },
            }
            let ghost before = strs(seen@);
            seen.push(c.name.clone());
            proof {
                assert(strs(seen@) =~= before.push(name@));
                let e = one_command_errors(cmds@[i as int], command_names(cmds@.take(i as int)));
                assert(strs(out@) =~= base + e);
            }
        }
    }
    proof {
        assert(cmds@.take(cmds@.len() as int) =~= cmds@);
    }
    out
}

fn check_one_tool(t: &ToolDefinitionEntry, seen: &Vec<String>) -> (r: (Vec<String>, Vec<String>))
    ensures
        strs(r.0@) == one_tool_errors(*t, strs(seen@)),
        strs(r.1@) == one_tool_warnings(*t),
{
    proof {
        reveal_strlit("type");
        reveal_strlit("object");
    }
    let name = t.name.as_str();
    if is_blank_str(name) {
        return (single(owned("Tool name must not be empty")), none());
    }
    let mut errs = match find_bad(name, CharClass::Tool) {
        Some(c) => {
            let mut m = concat3("Tool name '", name, "' contains invalid character '");
            push_char(&mut m, c);
            push_str(&mut m, "'. Only alphanumeric characters, '_', and '-' are allowed");
            let ghost j = first_bad(name@, class_fn(CharClass::Tool))->0;
            assert(m@ =~= "Tool name '"@ + name@ + "' contains invalid character '"@ + seq![name@[j]]
                + "'. Only alphanumeric characters, '_', and '-' are allowed"@);
            single(m)
        },
        None => none(),
    };
    let ghost part1 = strs(errs@);
    if contains_name(seen, name) {
        extend(&mut errs, single(concat3("Duplicate tool declaration: tool '", name, "' is defined multiple times")));
    } else {
        extend(&mut errs, none());
    }
    let ghost part2 = strs(errs@);
    let (more, warns) = match &t.parameters {
        Some(p) => {
            if !p.is_object() {
                (single(concat3("Tool '", name, "' parameters schema must be a JSON Schema Object")), none())
            } else {
                match p.get("type") {
                    Some(ty) => if ty.is_string("object") {
                        (none(), none())
                    } else {
                        (single(concat3("Tool '", name, "' parameters schema must declare 'type': 'object'")), none())
                    },
                    None => (none(), single(concat3("Tool '", name, "' parameters schema does not explicitly declare 'type': 'object'"))),
                }
            }
        },
        None => (none(), none()),
    };
    extend(&mut errs, more);
    (errs, warns)
}

fn check_tools(tools: &Vec<ToolDefinitionEntry>) -> (r: (Vec<String>, Vec<String>))
    ensures
        strs(r.0@) == tool_errors(tools@),
        strs(r.1@) == tool_warnings(tools@),
{
    let mut errs: Vec<String> = Vec::new();
    let mut warns: Vec<String> = Vec::new();
    let mut seen: Vec<String> = Vec::new();
    for i in 0..tools.len()
        invariant
            strs(errs@) == tool_errors(tools@.take(i as int)),
            strs(warns@) == tool_warnings(tools@.take(i as int)),
            strs(seen@) == tool_names(tools@.take(i as int)),
    {
        proof {
            assert(tools@.take(i + 1).drop_last() =~= tools@.take(i as int));
            assert(tools@.take(i + 1).last() == tools@[i as int]);
        }
        let (e, w) = check_one_tool(&tools[i], &seen);
        extend(&mut errs, e);
        extend(&mut warns, w);
        if !is_blank_str(tools[i].name.as_str()) {
            let ghost before = strs(seen@);
            seen.push(tools[i].name.clone());
            assert(strs(seen@) =~= before.push(tools@[i as int].name@));
        }
    }
    proof {
        assert(tools@.take(tools@.len() as int) =~= tools@);
    }
    (errs, warns)
}

fn check_adapter(a: &Option<AdapterSection>) -> (r: Vec<String>)
    ensures
        strs(r@) == adapter_errors(*a),
{
    match a {
        None => none(),
        Some(a) => {
            let platform = a.platform.as_str();
            let mut out = if is_blank_str(platform) {
                single(owned("Adapter 'platform' identifier must not be empty"))
            } else {
                none()
            };
            let ghost base = strs(out@);
            match find_bad(platform, CharClass::Platform) {
                Some(c) => {
                    let mut m = concat3("Adapter platform '", platform, "' contains invalid character '");
                    push_char(&mut m, c);
                    push_str(&mut m, "'. Use lowercase alphanumeric, '_', or '-'");
                    let ghost j = first_bad(platform@, class_fn(CharClass::Platform))->0;
                    assert(m@ =~= "Adapter platform '"@ + platform@ + "' contains invalid character '"@ + seq![platform@[j]]
                        + "'. Use lowercase alphanumeric, '_', or '-'"@);
                    extend(&mut out, single(m));
                },
                None => {
                    extend(&mut out, none());
                },
            }
            out
        },
    }
}

/// Lints a parsed manifest: `plugin_root` is the plugin directory and `entrypoint_exists`
/// tells whether the entrypoint exists below it. Returns the errors and the warnings, in rule
/// order.
pub fn lint_manifest(manifest: &PluginManifest, plugin_root: &str, entrypoint_exists: bool) -> (r: (Vec<String>, Vec<String>))
    ensures
        strs(r.0@) == lint_errors(*manifest, plugin_root@, entrypoint_exists),
        strs(r.1@) == lint_warnings(*manifest, entrypoint_exists),
{
    let p = &manifest.plugin;
    let mut errors = check_id(p.id.as_str());
    let name_errs = if is_blank_str(p.name.as_str()) {
        single(owned("Plugin 'name' must not be empty"))
    } else {
        none()
    };
    extend(&mut errors, name_errs);
    extend(&mut errors, check_version(p.version.as_str()));
    extend(&mut errors, check_runtime(p.runtime.as_str()));
    extend(&mut errors, check_priority(p.priority));
    let (entry_errs, entry_warns) = check_entrypoint(p.entrypoint.as_str(), p.runtime.as_str(), plugin_root, entrypoint_exists);
    extend(&mut errors, entry_errs);
    extend(&mut errors, check_commands(&manifest.commands));
    let (tool_errs, tool_warns) = check_tools(&manifest.tools);
    extend(&mut errors, tool_errs);
    extend(&mut errors, check_adapter(&manifest.adapter));
    let mut warnings = entry_warns;
    extend(&mut warnings, tool_warns);
    (errors, warnings)
}

/// The report of linting `manifest`, found at `manifest_path` in `plugin_root`.
pub fn lint_report(manifest_path: String, plugin_root: String, manifest: &PluginManifest, entrypoint_exists: bool) -> (r: LintReport)
    ensures
        r.manifest_path == manifest_path,
        r.plugin_root == plugin_root,
        r.plugin_id == Some(manifest.plugin.id),
        r.plugin_name == Some(manifest.plugin.name),
        r.runtime == Some(manifest.plugin.runtime),
        strs(r.errors@) == lint_errors(*manifest, plugin_root@, entrypoint_exists),
        strs(r.warnings@) == lint_warnings(*manifest, entrypoint_exists),
{
    let (errors, warnings) = lint_manifest(manifest, plugin_root.as_str(), entrypoint_exists);
    LintReport {
        manifest_path,
        plugin_root,
        plugin_id: Some(manifest.plugin.id.clone()),
        plugin_name: Some(manifest.plugin.name.clone()),
        runtime: Some(manifest.plugin.runtime.clone()),
        errors,
        warnings,
    }
}

} // verus!
