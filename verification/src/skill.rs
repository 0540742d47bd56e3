//! Skills: operator-installed instruction bundles the model pulls in on demand.
//!
//! A skill is a directory `data/skills/<id>/` holding a `SKILL.md` file: a short front-matter
//! block (`name`, `description`) followed by the full instructions. Only the name and
//! description reach the model's system prompt (the catalog); the body is fetched with the
//! `read_skill` tool once the model decides the skill is relevant. Global enablement lives in the
//! toggle store (`skills` section); a bot instance may further restrict a skill.
use vstd::prelude::*;

use crate::instance::{policy_allows, policy_of, BotInstance};
use crate::json::{json_get, json_str, JsonValue};
use crate::message::ToolMeta;
use crate::order::{apply_order, sorted_stably, stable_order};
use crate::text::{chars_of, decimal, is_ascii_alnum, is_ascii_alphanumeric, joined_path, lines_of, owned, push_char, push_decimal, push_str, split_lines, str_equal, strs, trim};
use crate::toggle::{flag_enabled, section_flags, ToggleStore, SKILL_SECTION};

verus! {

/// Default directory holding installed skills.
pub const DEFAULT_SKILLS_DIR: &'static str = "./data/skills";

/// Largest skill body handed to the model, in bytes (64 KiB).
pub const MAX_SKILL_BYTES: usize = 65536;

/// Longest catalog description, in characters.
pub const MAX_DESCRIPTION_CHARS: usize = 200;

/// Failures raised while scanning or reading skills.
#[derive(Debug)]
pub enum SkillError {
    /// No skill with the requested identifier is installed.
    NotFound(String),
    /// The requested identifier cannot be a directory name.
    InvalidId(String),
    /// The supplied source is not an installable skill.
    InvalidSource(String),
    /// The skill body is too large to hand to the model.
    TooLarge {
        /// Skill identifier.
        id: String,
        /// Actual size in bytes.
        size: usize,
        /// Configured limit.
        limit: usize,
    },
    /// The skills directory could not be read or written.
    Io(String),
}

/// Message of a skill error.
pub open spec fn skill_error_text(e: SkillError) -> Seq<char> {
    match e {
        SkillError::NotFound(id) => "skill '"@ + id@ + "' is not installed"@,
        SkillError::InvalidId(id) => "invalid skill identifier '"@ + id@ + "'"@,
        SkillError::InvalidSource(m) => m@,
        SkillError::TooLarge { id, size, limit } => "skill '"@ + id@ + "' is "@ + decimal(size as nat) + " bytes, above the "@
            + decimal(limit as nat) + " byte limit"@,
        SkillError::Io(m) => "skills storage failed: "@ + m@,
    }
}

impl SkillError {
    /// Human-readable message of the error.
    pub fn message(&self) -> (r: String)
        ensures
            r@ == skill_error_text(*self),
    {
        let mut s = String::new();
        match self {
            SkillError::NotFound(id) => {
                push_str(&mut s, "skill '");
                push_str(&mut s, id.as_str());
                push_str(&mut s, "' is not installed");
            },
            SkillError::InvalidId(id) => {
                push_str(&mut s, "invalid skill identifier '");
                push_str(&mut s, id.as_str());
                push_str(&mut s, "'");
            },
            SkillError::InvalidSource(m) => {
                push_str(&mut s, m.as_str());
            },
            SkillError::TooLarge { id, size, limit } => {
                push_str(&mut s, "skill '");
                push_str(&mut s, id.as_str());
                push_str(&mut s, "' is ");
                push_decimal(&mut s, *size as u64);
                push_str(&mut s, " bytes, above the ");
                push_decimal(&mut s, *limit as u64);
                push_str(&mut s, " byte limit");
            },
            SkillError::Io(m) => {
                push_str(&mut s, "skills storage failed: ");
                push_str(&mut s, m.as_str());
            },
        }
        s
    }
}

/// One installed skill.
pub struct SkillMeta {
    /// Identifier (directory name).
    pub id: String,
    /// Name shown to people and to the model.
    pub name: String,
    /// One-line description used in the model's catalog.
    pub description: String,
    /// Whether the operator enabled this skill node-wide.
    pub enabled: bool,
}

/// Characters allowed in a skill identifier.
pub open spec fn skill_id_char(c: char) -> bool {
    is_ascii_alnum(c) || c == '-' || c == '_' || c == '.'
}

/// Whether a trimmed identifier is acceptable as a directory name.
pub open spec fn valid_skill_id(id: Seq<char>) -> bool {
    &&& 0 < id.len() <= 64
    &&& id[0] != '.'
    &&& forall|i: int| 0 <= i < id.len() ==> skill_id_char(#[trigger] id[i])
}

/// Installed skills rooted at one directory.
pub struct SkillStore {
    root: String,
}

impl SkillStore {
    /// The root directory.
    pub closed spec fn root_view(&self) -> Seq<char> {
        self.root@
    }

    /// Creates a store rooted at `root`.
    pub fn new(root: String) -> (r: Self)
        ensures
            r.root_view() == root@,
    {
        SkillStore { root }
    }

    /// Root directory of the store.
    pub fn root(&self) -> (r: &str)
        ensures
            r@ == self.root_view(),
    {
        self.root.as_str()
    }

    /// Validates and normalizes (trims) a client-supplied skill identifier.
    pub fn validate_id(id: &str) -> (r: Result<String, SkillError>)
        ensures
            valid_skill_id(trim(id@)) ==> (r matches Ok(s) && s@ == trim(id@)),
            !valid_skill_id(trim(id@)) ==> (r matches Err(SkillError::InvalidId(s)) && s@ == trim(id@)),
    {
        let t = crate::text::trimmed(id);
        let v = chars_of(t.as_str());
        let mut ok = v.len() > 0 && v.len() <= 64 && v[0] != '.';
        let mut i: usize = 0;
        while ok && i < v.len()
            invariant
                v@ == trim(id@),
                i <= v@.len(),
                ok ==> 0 < v@.len() <= 64 && v@[0] != '.',
                ok ==> forall|j: int| 0 <= j < i ==> skill_id_char(#[trigger] v@[j]),
                !ok ==> !valid_skill_id(v@),
            decreases v@.len() - i + (if ok { 1int } else { 0int }),
        {
            let c = v[i];
            if is_ascii_alphanumeric(c) || c == '-' || c == '_' || c == '.' {
                i = i + 1;
            } else {
                ok = false;
                assert(!skill_id_char(v@[i as int]));
            }
        }
        if ok {
            Ok(t)
        } else {
            Err(SkillError::InvalidId(t))
        }
    }

    /// Directory of skill `id` below the root.
    pub fn skill_path(&self, id: &str) -> (r: Result<String, SkillError>)
        ensures
            valid_skill_id(trim(id@)) ==> (r matches Ok(p) && p@ == joined_path(self.root_view(), trim(id@))),
            !valid_skill_id(trim(id@)) ==> (r matches Err(SkillError::InvalidId(s)) && s@ == trim(id@)),
    {
        let id = Self::validate_id(id)?;
        Ok(crate::text::join_path(self.root.as_str(), id.as_str()))
    }

    /// Checks the size of a skill body read from disk.
    pub fn check_body_size(id: &str, body_len: usize) -> (r: Result<(), SkillError>)
        ensures
            body_len <= MAX_SKILL_BYTES ==> r is Ok,
            body_len > MAX_SKILL_BYTES ==> (r matches Err(SkillError::TooLarge { id: i, size, limit })
                && i@ == id@ && size == body_len && limit == MAX_SKILL_BYTES),
    {
        if body_len > MAX_SKILL_BYTES {
            Err(SkillError::TooLarge { id: owned(id), size: body_len, limit: MAX_SKILL_BYTES })
        } else {
            Ok(())
        }
    }
}

// ---------------------------------------------------------------------------------------------
// Front matter
// ---------------------------------------------------------------------------------------------

/// `s` without any leading `c`.
pub open spec fn strip_leading(s: Seq<char>, c: char) -> Seq<char>
    decreases s.len(),
{
    if s.len() > 0 && s[0] == c {
        strip_leading(s.drop_first(), c)
    } else {
        s
    }
}

/// `s` without any trailing `c`.
pub open spec fn strip_trailing(s: Seq<char>, c: char) -> Seq<char>
    decreases s.len(),
{
    if s.len() > 0 && s.last() == c {
        strip_trailing(s.drop_last(), c)
    } else {
        s
    }
}

/// `s` without leading and trailing `c` (`str::trim_matches`).
pub open spec fn trim_matches(s: Seq<char>, c: char) -> Seq<char> {
    strip_trailing(strip_leading(s, c), c)
}

/// A front-matter value: trimmed, then stripped of double and then single quotes.
pub open spec fn unquote(s: Seq<char>) -> Seq<char> {
    trim_matches(trim_matches(trim(s), '"'), '\'')
}

/// State of the front-matter reader: name, description, inside the block, block closed.
pub open spec fn front_matter(lines: Seq<Seq<char>>, id: Seq<char>) -> (Seq<char>, Seq<char>, bool, bool)
    decreases lines.len(),
{
    if lines.len() == 0 {
        (id, Seq::empty(), false, false)
    } else {
        let (name, desc, inside, closed) = front_matter(lines.drop_last(), id);
        let index = lines.len() - 1;
        let t = trim(lines.last());
        if closed {
            (name, desc, inside, closed)
        } else if index == 0 && t == "---"@ {
            (name, desc, true, false)
        } else if inside && t == "---"@ {
            (name, desc, inside, true)
        } else if inside {
            if "name:"@.is_prefix_of(t) {
                (unquote(t.skip(5)), desc, inside, closed)
            } else if "description:"@.is_prefix_of(t) {
                (name, unquote(t.skip(12)), inside, closed)
            } else {
                (name, desc, inside, closed)
            }
        } else if desc.len() == 0 && t.len() > 0 && t[0] != '#' {
            (name, t, inside, closed)
        } else {
            (name, desc, inside, closed)
        }
    }
}

/// Catalog name and description of skill `id` whose `SKILL.md` reads `body`: the front-matter
/// `name` (the identifier when absent) and `description` (else the first prose line, else a
/// generic sentence), the description cut to 200 characters followed by `…`.
pub open spec fn skill_summary(id: Seq<char>, body: Seq<char>) -> (Seq<char>, Seq<char>) {
    let (name, desc, _, _) = front_matter(lines_of(body), id);
    let d = if desc.len() == 0 {
        "Instructions from skill '"@ + name + "'"@
    } else {
        desc
    };
    let d2 = if d.len() > 200 {
        d.take(200).push('…')
    } else {
        d
    };
    (name, d2)
}

fn trim_char(s: &str, c: char) -> (r: String)
    ensures
        r@ == trim_matches(s@, c),
{
    let v = chars_of(s);
    let n = v.len();
    let mut a: usize = 0;
    assert(v@.skip(0) =~= v@);
    while a < n && v[a] == c
        invariant
            a <= n == v@.len(),
            strip_leading(v@.skip(a as int), c) == strip_leading(v@, c),
        decreases n - a,
    {
        assert(v@.skip(a as int).drop_first() =~= v@.skip(a + 1));
        a = a + 1;
    }
    assert(strip_leading(v@.skip(a as int), c) == v@.skip(a as int));
    let mut b: usize = n;
    assert(v@.subrange(a as int, b as int) =~= v@.skip(a as int));
    while b > a && v[b - 1] == c
        invariant
            a <= b <= n == v@.len(),
            strip_trailing(v@.subrange(a as int, b as int), c) == strip_trailing(v@.skip(a as int), c),
        decreases b,
    {
        assert(v@.subrange(a as int, b as int).drop_last() =~= v@.subrange(a as int, b - 1));
        b = b - 1;
    }
    crate::text::string_of_range(v.as_slice(), a, b)
}

fn unquote_value(s: &str) -> (r: String)
    ensures
        r@ == unquote(s@),
{
    let t = crate::text::trimmed(s);
    let u = trim_char(t.as_str(), '"');
    trim_char(u.as_str(), '\'')
}

/// Reads the catalog name and description of skill `id` from its `SKILL.md` text.
pub fn parse_skill(id: &str, body: &str) -> (r: (String, String))
    ensures
        (r.0@, r.1@) == skill_summary(id@, body@),
{
    proof {
        reveal_strlit("---");
        reveal_strlit("name:");
        reveal_strlit("description:");
    }
    let lines = split_lines(body);
    let ghost ls = strs(lines@);
    let mut name = owned(id);
    let mut description = String::new();
    let mut inside = false;
    let mut closed = false;
    let n = lines.len();
    let dashes = chars_of("---");
    let name_key = chars_of("name:");
    let desc_key = chars_of("description:");
    assert(ls.take(0) =~= Seq::<Seq<char>>::empty());
    for i in 0..n
        invariant
            n == lines@.len(),
            ls == strs(lines@),
            ls == lines_of(body@),
            dashes@ == "---"@,
            name_key@ == "name:"@,
            desc_key@ == "description:"@,
            (name@, description@, inside, closed) == front_matter(ls.take(i as int), id@),
    {
        proof {
            reveal_strlit("---");
            reveal_strlit("name:");
            reveal_strlit("description:");
            assert(ls.take(i + 1).drop_last() =~= ls.take(i as int));
            assert(ls.take(i + 1).last() == lines@[i as int]@);
        }
        if !closed {
            let t = crate::text::trimmed(lines[i].as_str());
            let tv = chars_of(t.as_str());
            let is_dashes = crate::text::chars_equal(tv.as_slice(), dashes.as_slice());
            if i == 0 && is_dashes {
                inside = true;
            } else if inside && is_dashes {
                closed = true;
            } else if inside {
                if crate::text::starts_with_chars(tv.as_slice(), name_key.as_slice()) {
                    let rest = crate::text::string_of_range(tv.as_slice(), 5, tv.len());
                    assert(rest@ =~= tv@.skip(5));
                    name = unquote_value(rest.as_str());
                } else if crate::text::starts_with_chars(tv.as_slice(), desc_key.as_slice()) {
                    let rest = crate::text::string_of_range(tv.as_slice(), 12, tv.len());
                    assert(rest@ =~= tv@.skip(12));
                    description = unquote_value(rest.as_str());
                }
            } else if description.as_str().is_empty() && tv.len() > 0 && tv[0] != '#' {
                description = t;
            }
        }
    }
    assert(ls.take(n as int) =~= ls);
    if description.as_str().is_empty() {
        let mut d = owned("Instructions from skill '");
        push_str(&mut d, name.as_str());
        push_str(&mut d, "'");
        description = d;
    }
    let dv = chars_of(description.as_str());
    if dv.len() > MAX_DESCRIPTION_CHARS {
        let mut d = crate::text::string_of_range(dv.as_slice(), 0, MAX_DESCRIPTION_CHARS);
        push_char(&mut d, '…');
        assert(d@ =~= dv@.take(200).push('…'));
        description = d;
    }
    (name, description)
}

// ---------------------------------------------------------------------------------------------
// Catalog and policy
// ---------------------------------------------------------------------------------------------

/// Sort keys of skills: by identifier.
pub open spec fn skill_keys(skills: Seq<SkillMeta>) -> Seq<(int, Seq<char>)> {
    Seq::new(skills.len(), |i: int| (0int, skills[i].id@))
}

/// Orders skills by identifier (input order among equal identifiers).
pub fn sort_skills(skills: Vec<SkillMeta>) -> (r: Vec<SkillMeta>)
    ensures
        exists|order: Seq<usize>| #[trigger] sorted_stably(skill_keys(skills@), order) && r@.len() == skills@.len()
            && forall|k: int| 0 <= k < r@.len() ==> r@[k] == skills@[order[k] as int],
{
    let mut keys: Vec<(i64, String)> = Vec::new();
    for i in 0..skills.len()
        invariant
            keys@.len() == i,
            i <= skills@.len(),
            forall|j: int| 0 <= j < i ==> keys@[j].0 == 0 && keys@[j].1@ == skills@[j].id@,
    {
        keys.push((0i64, skills[i].id.clone()));
    }
    let order = stable_order(&keys);
    proof {
        assert(crate::order::key_models(keys@) =~= skill_keys(skills@));
    }
    apply_order(skills, &order)
}

/// One catalog line: `- <id>: <description>`.
pub open spec fn catalog_line(s: SkillMeta) -> Seq<char> {
    "- "@ + s.id@ + ": "@ + s.description@ + "\n"@
}

/// Catalog lines of `skills`, in order.
pub open spec fn catalog_lines(skills: Seq<SkillMeta>) -> Seq<char>
    decreases skills.len(),
{
    if skills.len() == 0 {
        Seq::empty()
    } else {
        catalog_lines(skills.drop_last()) + catalog_line(skills.last())
    }
}

/// Header of the skill catalog.
pub open spec fn catalog_header() -> Seq<char> {
    "You have these skills available. Load one with the read_skill tool when it matches the user's request:\n"@
}

/// Renders the compact skill catalog injected into the system prompt (empty without skills).
pub fn catalog_prompt(skills: &[SkillMeta]) -> (r: String)
    ensures
        skills@.len() == 0 ==> r@.len() == 0,
        skills@.len() > 0 ==> r@ == catalog_header() + catalog_lines(skills@),
{
    if skills.len() == 0 {
        return String::new();
    }
    let mut catalog = owned("You have these skills available. Load one with the read_skill tool when it matches the user's request:\n");
    let ghost head = catalog@;
    for i in 0..skills.len()
        invariant
            catalog@ == head + catalog_lines(skills@.take(i as int)),
            head == catalog_header(),
    {
        let ghost before = catalog@;
        push_str(&mut catalog, "- ");
        push_str(&mut catalog, skills[i].id.as_str());
        push_str(&mut catalog, ": ");
        push_str(&mut catalog, skills[i].description.as_str());
        push_str(&mut catalog, "\n");
        proof {
            assert(skills@.take(i + 1).drop_last() =~= skills@.take(i as int));
            assert(catalog@ =~= before + catalog_line(skills@[i as int]));
            assert(catalog@ =~= head + catalog_lines(skills@.take(i + 1)));
        }
    }
    assert(skills@.take(skills@.len() as int) =~= skills@);
    catalog
}

/// Whether an instance (or, without one, the node) may use skill `id`.
pub open spec fn skill_allowed(toggles: Map<Seq<char>, Map<Seq<char>, bool>>, instance: Option<BotInstance>, id: Seq<char>) -> bool {
    let global = flag_enabled(section_flags(toggles, SKILL_SECTION@), id);
    match instance {
        Some(i) => policy_allows(policy_of(i@.skills, id), global),
        None => global,
    }
}

/// The installed skills an instance may use, in order, each marked enabled.
pub open spec fn allowed_from(toggles: Map<Seq<char>, Map<Seq<char>, bool>>, instance: Option<BotInstance>, installed: Seq<SkillMeta>) -> Seq<SkillMeta>
    decreases installed.len(),
{
    if installed.len() == 0 {
        Seq::empty()
    } else {
        let r = allowed_from(toggles, instance, installed.drop_last());
        let s = installed.last();
        if skill_allowed(toggles, instance, s.id@) {
            r.push(SkillMeta { enabled: true, ..s })
        } else {
            r
        }
    }
}

/// Skills an instance may use among `installed`, honouring the node-wide switch and the
/// instance's own overrides.
pub fn allowed_skills(installed: Vec<SkillMeta>, toggles: &ToggleStore, instance: Option<&BotInstance>) -> (r: Vec<SkillMeta>)
    ensures
        r@ == allowed_from(toggles@, match instance { Some(i) => Some(*i), None => None }, installed@),
{
    let ghost inst = match instance { Some(i) => Some(*i), None => None };
    let ghost src = installed@;
    let mut out: Vec<SkillMeta> = Vec::new();
    for skill in it: installed
        invariant
            it.seq() == src,
            inst == match instance { Some(i) => Some(*i), None => None::<BotInstance> },
            out@ == allowed_from(toggles@, inst, src.take(it.index() as int)),
    {
        let ghost idx = it.index();
        proof {
            assert(src.take(idx + 1).drop_last() =~= src.take(idx as int));
            assert(src.take(idx + 1).last() == skill);
        }
        let global = toggles.is_enabled(SKILL_SECTION, skill.id.as_str());
        let allowed = match instance {
            Some(i) => i.allows_skill(skill.id.as_str(), global),
            None => global,
        };
        if allowed {
            let SkillMeta { id, name, description, enabled } = skill;
            out.push(SkillMeta { id, name, description, enabled: true });
        }
    }
    assert(src.take(src.len() as int) =~= src);
    out
}

/// Refusal of a skill the conversation may not read.
pub open spec fn unavailable_skill_text(requested: Seq<char>) -> Seq<char> {
    "Skill '"@ + requested + "' is not available for this conversation"@
}

/// Decides a `read_skill` request: allowed when the requested identifier is among `allowed`,
/// else the refusal message.
pub fn check_skill_request(allowed: &[SkillMeta], requested: &str) -> (r: Result<(), String>)
    ensures
        (exists|i: int| 0 <= i < allowed@.len() && allowed@[i].id@ == requested@) ==> r is Ok,
        !(exists|i: int| 0 <= i < allowed@.len() && allowed@[i].id@ == requested@) ==> (r matches Err(m) && m@ == unavailable_skill_text(requested@)),
{
    for i in 0..allowed.len()
        invariant
            forall|j: int| 0 <= j < i ==> allowed@[j].id@ != requested@,
    {
        if str_equal(allowed[i].id.as_str(), requested) {
            return Ok(());
        }
    }
    let mut m = owned("Skill '");
    push_str(&mut m, requested);
    push_str(&mut m, "' is not available for this conversation");
    Err(m)
}

/// Name of the tool that reads a skill's body.
pub const READ_SKILL_TOOL: &'static str = "read_skill";

/// Description of the `read_skill` tool given to the model.
pub open spec fn read_skill_description() -> Seq<char> {
    "Reads the full instructions of one available skill. Call this when the skill catalog in your instructions matches the user's request."@
}

/// The `read_skill` tool as offered to the model: one required string parameter, `name`.
pub fn read_skill_definition() -> (r: ToolMeta)
    ensures
        r.name@ == READ_SKILL_TOOL@,
        r.description@ == read_skill_description(),
        r.parameters matches Some(JsonValue::Object(m)) && m@.len() == 3
            && m@[0].0@ == "type"@ && (m@[0].1 matches JsonValue::String(t) && t@ == "object"@)
            && m@[1].0@ == "properties"@ && (m@[1].1 matches JsonValue::Object(props) && props@.len() == 1
                && props@[0].0@ == "name"@ && (props@[0].1 matches JsonValue::Object(p) && p@.len() == 2
                    && p@[0].0@ == "type"@ && (p@[0].1 matches JsonValue::String(t) && t@ == "string"@)
                    && p@[1].0@ == "description"@ && (p@[1].1 matches JsonValue::String(d)
                        && d@ == "Skill identifier as listed in the available skills catalog"@)))
            && m@[2].0@ == "required"@ && (m@[2].1 matches JsonValue::Array(req) && req@.len() == 1
                && (req@[0] matches JsonValue::String(n) && n@ == "name"@)),
{
    let name_schema = JsonValue::Object(vec![
        (owned("type"), JsonValue::String(owned("string"))),
        (owned("description"), JsonValue::String(owned("Skill identifier as listed in the available skills catalog"))),
    ]);
    let parameters = JsonValue::Object(vec![
        (owned("type"), JsonValue::String(owned("object"))),
        (owned("properties"), JsonValue::Object(vec![(owned("name"), name_schema)])),
        (owned("required"), JsonValue::Array(vec![JsonValue::String(owned("name"))])),
    ]);
    ToolMeta {
        name: owned(READ_SKILL_TOOL),
        description: owned(
            "Reads the full instructions of one available skill. Call this when the skill catalog in your instructions matches the user's request.",
        ),
        parameters: Some(parameters),
    }
}

/// Decides a `read_skill` call with `arguments`: the requested identifier when the call names
/// a skill among `allowed`, else the message returned to the model.
pub fn read_skill_request(allowed: &[SkillMeta], arguments: &JsonValue) -> (r: Result<String, String>)
    ensures
        json_str(json_get(*arguments, "name"@)) is None ==> (r matches Err(m) && m@ == "Missing required argument 'name'"@),
        json_str(json_get(*arguments, "name"@)) matches Some(n) ==> {
            &&& (exists|i: int| 0 <= i < allowed@.len() && allowed@[i].id@ == n) ==> (r matches Ok(id) && id@ == n)
            &&& !(exists|i: int| 0 <= i < allowed@.len() && allowed@[i].id@ == n) ==> (r matches Err(m) && m@ == unavailable_skill_text(n))
        },
{
    proof {
        reveal_strlit("name");
    }
    let requested = match arguments.get("name") {
        Some(v) => match v.as_str() {
            Some(n) => n,
            None => return Err(owned("Missing required argument 'name'")),
        },
        None => return Err(owned("Missing required argument 'name'")),
    };
    match check_skill_request(allowed, requested) {
        Ok(()) => Ok(owned(requested)),
        Err(m) => Err(m),
    }
}

/// Where the skill catalog goes among the request's messages: right after the last system
/// message, or first when there is none.
pub fn catalog_position(is_system: &Vec<bool>) -> (r: usize)
    ensures
        r <= is_system@.len(),
        r > 0 ==> is_system@[r - 1],
        forall|j: int| r <= j < is_system@.len() ==> !is_system@[j],
{
    let mut k = is_system.len();
    while k > 0 && !is_system[k - 1]
        invariant
            k <= is_system@.len(),
            forall|j: int| k <= j < is_system@.len() ==> !is_system@[j],
        decreases k,
    {
        k = k - 1;
    }
    k
}

} // verus!
