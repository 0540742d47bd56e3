//! Bot instances: the unit an operator actually runs.
//!
//! An adapter tells the node *where* messages come from; an instance decides *whether and how*
//! they are answered. Without an enabled instance claiming a platform, the node has no bot to
//! answer as, so inbound events are dropped instead of being fed to the model.
//!
//! An instance owns its adapters (a platform can be claimed by at most one *enabled* instance),
//! its persona (a catalog persona or a prompt written for it), an optional model override, and
//! its sessions: conversations are namespaced by the instance, and the built-in `/new` command
//! rotates the session of the conversation that issued it while the previous session is kept.
use vstd::prelude::*;

use crate::string_map::StringMap;
use crate::text::{
    compare_str, lemma_seq_lt_asymmetric, lemma_seq_lt_irreflexive, lemma_seq_lt_transitive,
    seq_lt, Order, chars_of, clone_opt, decimal, is_ascii_alnum, is_ascii_alphanumeric, opt_str, owned,
    push_decimal, push_str, spec_to_lowercase, string_of, strs, to_lowercase, trim, trimmed,
};

verus! {

/// Default location of the instance catalog, relative to the node working directory.
pub const DEFAULT_INSTANCE_CATALOG: &'static str = "./data/instances.json";

/// Prefix of personas generated from an instance's custom prompt, and of instance sessions.
pub const INSTANCE_PERSONA_PREFIX: &'static str = "instance:";

/// Longest accepted instance name, in characters.
pub const MAX_INSTANCE_NAME_CHARS: usize = 64;

/// Failures raised while reading or mutating the instance catalog.
#[derive(Debug)]
pub enum InstanceError {
    /// No instance with the requested identifier exists.
    NotFound(String),
    /// An enabled instance already claims one of the requested adapters.
    Conflict {
        /// Platform identifier that is claimed twice.
        platform: String,
        /// Identifier of the instance that already owns it.
        owner: String,
    },
    /// The same platform is claimed by several enabled instances.
    AmbiguousPlatform {
        /// Platform identifier with more than one owner.
        platform: String,
        /// Identifiers of every claiming instance, sorted.
        owners: Vec<String>,
    },
    /// The submitted instance description is not usable.
    Invalid(String),
    /// The catalog could not be read or written.
    Io(String),
}

/// Per-instance override for a toggleable item (plugin, skill or MCP server).
///
/// The global switch always wins: `Enable` cannot resurrect something the operator disabled
/// node-wide, it only documents an explicit opt-in.
#[derive(Debug, Clone, Copy, PartialEq, Eq, Structural)]
pub enum ItemPolicy {
    /// Follow the node-wide switch (default).
    Inherit,
    /// Use the item, provided it is enabled node-wide.
    Enable,
    /// Never use the item for this instance.
    Disable,
}

impl Default for ItemPolicy {
    fn default() -> (p: Self)
        ensures
            p == ItemPolicy::Inherit,
    {
        ItemPolicy::Inherit
    }
}

/// Whether a policy lets an item run, given the node-wide switch.
pub open spec fn policy_allows(p: ItemPolicy, globally_enabled: bool) -> bool {
    globally_enabled && p != ItemPolicy::Disable
}

/// The effective policy of `id` in a per-item override map (absent means `Inherit`).
pub open spec fn policy_of(m: Map<Seq<char>, ItemPolicy>, id: Seq<char>) -> ItemPolicy {
    if m.dom().contains(id) {
        m[id]
    } else {
        ItemPolicy::Inherit
    }
}

impl ItemPolicy {
    /// Resolves the policy against the node-wide switch.
    pub fn allows(self, globally_enabled: bool) -> (r: bool)
        ensures
            r == policy_allows(self, globally_enabled),
    {
        globally_enabled && self != ItemPolicy::Disable
    }
}

/// Law: the node-wide switch always wins; with it on, only `Disable` keeps an item off.
pub proof fn law_global_switch_wins(p: ItemPolicy, globally_enabled: bool)
    ensures
        !globally_enabled ==> !policy_allows(p, globally_enabled),
        globally_enabled ==> (policy_allows(p, globally_enabled) <==> p != ItemPolicy::Disable),
{
}

/// Abstract content of a bot instance.
pub struct InstanceModel {
    pub id: Seq<char>,
    pub name: Seq<char>,
    pub enabled: bool,
    pub adapters: Seq<Seq<char>>,
    pub persona_id: Option<Seq<char>>,
    pub system_prompt: Option<Seq<char>>,
    pub model: Option<Seq<char>>,
    pub plugins: Map<Seq<char>, ItemPolicy>,
    pub skills: Map<Seq<char>, ItemPolicy>,
    pub mcp: Map<Seq<char>, ItemPolicy>,
    /// Conversation key -> session generation.
    pub session_generations: Map<Seq<char>, u64>,
}

/// One bot instance.
pub struct BotInstance {
    /// Stable identifier, derived from the name and never reused.
    pub id: String,
    /// Human-readable name shown in the console.
    pub name: String,
    /// Whether the instance accepts messages. A disabled instance processes nothing.
    pub enabled: bool,
    /// Platform identifiers served by this instance.
    pub adapters: Vec<String>,
    /// Persona identifier from the node catalog, when one is selected.
    pub persona_id: Option<String>,
    /// Prompt written for this instance; takes precedence over `persona_id`.
    pub system_prompt: Option<String>,
    /// Model override; `None` means "use the node's default model".
    pub model: Option<String>,
    /// Per-plugin overrides; absent identifiers inherit the node-wide switch.
    pub plugins: StringMap<ItemPolicy>,
    /// Per-skill overrides; absent identifiers inherit the node-wide switch.
    pub skills: StringMap<ItemPolicy>,
    /// Per-MCP-server overrides; absent identifiers inherit the node-wide switch.
    pub mcp: StringMap<ItemPolicy>,
    /// Conversation key -> session generation, rotated by the built-in `/new` command.
    session_generations: StringMap<u64>,
}

impl View for BotInstance {
    type V = InstanceModel;

    closed spec fn view(&self) -> InstanceModel {
        InstanceModel {
            id: self.id@,
            name: self.name@,
            enabled: self.enabled,
            adapters: strs(self.adapters@),
            persona_id: opt_str(self.persona_id),
            system_prompt: opt_str(self.system_prompt),
            model: opt_str(self.model),
            plugins: self.plugins@,
            skills: self.skills@,
            mcp: self.mcp@,
            session_generations: self.session_generations@,
        }
    }
}

/// Current session generation of a conversation (0 until `/new` is used).
pub open spec fn generation_of(m: InstanceModel, conversation: Seq<char>) -> u64 {
    if m.session_generations.dom().contains(conversation) {
        m.session_generations[conversation]
    } else {
        0
    }
}

/// Session key of a conversation: `instance:<id>:<conversation>#<generation>`.
pub open spec fn session_key(id: Seq<char>, conversation: Seq<char>, generation: u64) -> Seq<
    char,
> {
    "instance:"@ + id + ":"@ + conversation + "#"@ + decimal(generation as nat)
}

/// Identifier of the generated persona backing an instance's custom prompt.
pub open spec fn persona_key(instance_id: Seq<char>) -> Seq<char> {
    "instance:"@ + instance_id
}

/// The characters of `s` before the first `c` (all of `s` when `c` does not occur).
pub open spec fn take_until(s: Seq<char>, c: char) -> Seq<char>
    decreases s.len(),
{
    if s.len() == 0 || s[0] == c {
        Seq::empty()
    } else {
        seq![s[0]] + take_until(s.drop_first(), c)
    }
}

/// Instance identifier encoded in a session key, if any.
pub open spec fn session_instance_id(session: Seq<char>) -> Option<Seq<char>> {
    if "instance:"@.is_prefix_of(session) {
        let id = take_until(session.skip("instance:"@.len() as int), ':');
        if id.len() > 0 {
            Some(id)
        } else {
            None
        }
    } else {
        None
    }
}

/// Persona sessions of an instance must use, if any.
pub open spec fn effective_persona(m: InstanceModel) -> Option<Seq<char>> {
    match m.system_prompt {
        Some(p) => if trim(p).len() > 0 {
            Some(persona_key(m.id))
        } else {
            m.persona_id
        },
        None => m.persona_id,
    }
}

/// Identifier of the generated persona backing an instance's custom prompt.
pub fn instance_persona_id(instance_id: &str) -> (r: String)
    ensures
        r@ == persona_key(instance_id@),
{
    let mut r = owned("instance:");
    push_str(&mut r, instance_id);
    r
}

proof fn lemma_take_until_prefix(s: Seq<char>, c: char, i: int)
    requires
        0 <= i <= s.len(),
        forall|j: int| 0 <= j < i ==> s[j] != c,
        i == s.len() || s[i] == c,
    ensures
        take_until(s, c) == s.take(i),
    decreases s.len(),
{
    if s.len() == 0 || s[0] == c {
        assert(i == 0);
        assert(s.take(0) =~= Seq::<char>::empty());
    } else {
        let t = s.drop_first();
        assert forall|j: int| 0 <= j < i - 1 implies t[j] != c by {
            assert(t[j] == s[j + 1]);
        }
        if i - 1 < t.len() {
            assert(t[i - 1] == s[i]);
        }
        lemma_take_until_prefix(t, c, i - 1);
        assert(seq![s[0]] + t.take(i - 1) =~= s.take(i));
    }
}

impl BotInstance {
    /// Current session generation for a conversation (0 until `/new` is used).
    pub fn session_generation(&self, conversation: &str) -> (r: u64)
        ensures
            r == generation_of(self@, conversation@),
    {
        match self.session_generations.get(conversation) {
            Some(g) => *g,
            None => 0,
        }
    }

    /// Session identifier for one conversation, including this instance and its generation.
    ///
    /// The generation suffix is what makes `/new` work: the rotated session is a *different*
    /// key, so the previous session keeps its history.
    pub fn conversation_session_id(&self, conversation: &str) -> (r: String)
        ensures
            r@ == session_key(self@.id, conversation@, generation_of(self@, conversation@)),
    {
        let generation = self.session_generation(conversation);
        let mut r = owned("instance:");
        push_str(&mut r, self.id.as_str());
        push_str(&mut r, ":");
        push_str(&mut r, conversation);
        push_str(&mut r, "#");
        push_decimal(&mut r, generation);
        r
    }

    /// Whether this instance may use a plugin, given the node-wide switch.
    pub fn allows_plugin(&self, plugin_id: &str, globally_enabled: bool) -> (r: bool)
        ensures
            r == policy_allows(policy_of(self@.plugins, plugin_id@), globally_enabled),
    {
        let policy = match self.plugins.get(plugin_id) {
            Some(p) => *p,
            None => ItemPolicy::Inherit,
        };
        policy.allows(globally_enabled)
    }

    /// Whether this instance may use a skill, given the node-wide switch.
    pub fn allows_skill(&self, skill_id: &str, globally_enabled: bool) -> (r: bool)
        ensures
            r == policy_allows(policy_of(self@.skills, skill_id@), globally_enabled),
    {
        let policy = match self.skills.get(skill_id) {
            Some(p) => *p,
            None => ItemPolicy::Inherit,
        };
        policy.allows(globally_enabled)
    }

    /// Whether this instance may use an MCP server, given the node-wide switch.
    pub fn allows_mcp(&self, server_id: &str, globally_enabled: bool) -> (r: bool)
        ensures
            r == policy_allows(policy_of(self@.mcp, server_id@), globally_enabled),
    {
        let policy = match self.mcp.get(server_id) {
            Some(p) => *p,
            None => ItemPolicy::Inherit,
        };
        policy.allows(globally_enabled)
    }

    /// Resolves the instance identifier encoded in a session key, if any.
    ///
    /// Sessions are namespaced as `instance:<id>:<conversation>#<generation>`.
    pub fn instance_id_from_session(session_id: &str) -> (r: Option<String>)
        ensures
            opt_str(r) == session_instance_id(session_id@),
    {
        let s = chars_of(session_id);
        let p = chars_of("instance:");
        if p.len() > s.len() {
            return None;
        }
        let plen = p.len();
        for i in 0..plen
            invariant
                plen == p@.len() <= s@.len(),
                p@ == "instance:"@,
                s@ == session_id@,
                forall|j: int| 0 <= j < i ==> p@[j] == s@[j],
        {
            if p[i] != s[i] {
                proof {
                    assert(p@[i as int] != s@[i as int]);
                    assert(!"instance:"@.is_prefix_of(session_id@));
                }
                return None;
            }
        }
        assert("instance:"@.is_prefix_of(session_id@));
        let ghost rest = s@.skip(plen as int);
        let n = s.len();
        let mut end = plen;
        while end < n && s[end] != ':'
            invariant
                plen <= end <= n == s@.len(),
                rest == s@.skip(plen as int),
                forall|j: int| plen <= j < end ==> s@[j] != ':',
            decreases n - end,
        {
            end = end + 1;
        }
        proof {
            assert forall|j: int| 0 <= j < end - plen implies rest[j] != ':' by {
                assert(rest[j] == s@[plen + j]);
            }
            if end < n {
                assert(rest[end - plen] == s@[end as int]);
            }
            lemma_take_until_prefix(rest, ':', end - plen);
            assert(rest.take(end - plen) =~= s@.subrange(plen as int, end as int));
        }
        if end == plen {
            None
        } else {
            Some(crate::text::string_of_range(s.as_slice(), plen, end))
        }
    }

    /// Persona that sessions of this instance must use, if any.
    ///
    /// A prompt written for the instance wins over a catalog persona, and is materialized as a
    /// generated persona (see [`instance_persona_id`]).
    pub fn effective_persona_id(&self) -> (r: Option<String>)
        ensures
            opt_str(r) == effective_persona(self@),
    {
        match &self.system_prompt {
            Some(p) => {
                let t = trimmed(p.as_str());
                if !t.as_str().is_empty() {
                    return Some(instance_persona_id(self.id.as_str()));
                }
                clone_opt(&self.persona_id)
            },
            None => clone_opt(&self.persona_id),
        }
    }

    /// A copy of this instance.
    pub fn duplicate(&self) -> (r: BotInstance)
        ensures
            r@ == self@,
    {
        BotInstance {
            id: self.id.clone(),
            name: self.name.clone(),
            enabled: self.enabled,
            adapters: crate::text::clone_strings(&self.adapters),
            persona_id: clone_opt(&self.persona_id),
            system_prompt: clone_opt(&self.system_prompt),
            model: clone_opt(&self.model),
            plugins: self.plugins.copied(),
            skills: self.skills.copied(),
            mcp: self.mcp.copied(),
            session_generations: self.session_generations.copied(),
        }
    }
}

/// Law: the session key of a conversation encodes the instance that owns it, so hooks and
/// tools can recover the instance from the key alone (instance identifiers hold no `:`).
pub proof fn law_session_key_names_instance(id: Seq<char>, conversation: Seq<char>, generation: u64)
    requires
        id.len() > 0,
        !id.contains(':'),
    ensures
        session_instance_id(session_key(id, conversation, generation)) == Some(id),
{
    let key = session_key(id, conversation, generation);
    reveal_strlit("instance:");
    reveal_strlit(":");
    assert("instance:"@.is_prefix_of(key)) by {
        assert(key.take(9) =~= "instance:"@);
    }
    let rest = key.skip(9);
    assert(rest =~= id + ":"@ + conversation + "#"@ + decimal(generation as nat));
    assert forall|j: int| 0 <= j < id.len() implies rest[j] != ':' by {
        assert(rest[j] == id[j]);
    }
    assert(rest[id.len() as int] == ':');
    lemma_take_until_prefix(rest, ':', id.len() as int);
    assert(rest.take(id.len() as int) =~= id);
}


// ---------------------------------------------------------------------------------------------
// Drafts and normalization
// ---------------------------------------------------------------------------------------------

/// Fields an operator can submit when creating or updating an instance.
pub struct InstanceDraft {
    /// Human-readable name.
    pub name: String,
    /// Whether the instance should accept messages.
    pub enabled: bool,
    /// Platform identifiers to claim.
    pub adapters: Vec<String>,
    /// Selected persona from the node catalog.
    pub persona_id: Option<String>,
    /// Prompt written specifically for this instance.
    pub system_prompt: Option<String>,
    /// Optional model override.
    pub model: Option<String>,
    /// Per-plugin overrides.
    pub plugins: StringMap<ItemPolicy>,
    /// Per-skill overrides.
    pub skills: StringMap<ItemPolicy>,
    /// Per-MCP-server overrides.
    pub mcp: StringMap<ItemPolicy>,
}

impl Default for InstanceDraft {
    fn default() -> (d: Self)
        ensures
            d.name@ == Seq::<char>::empty(),
            !d.enabled,
            d.adapters@.len() == 0,
            d.persona_id is None,
            d.system_prompt is None,
            d.model is None,
            d.plugins@ == Map::<Seq<char>, ItemPolicy>::empty(),
            d.skills@ == Map::<Seq<char>, ItemPolicy>::empty(),
            d.mcp@ == Map::<Seq<char>, ItemPolicy>::empty(),
    {
        InstanceDraft {
            name: String::new(),
            enabled: false,
            adapters: Vec::new(),
            persona_id: None,
            system_prompt: None,
            model: None,
            plugins: StringMap::new(),
            skills: StringMap::new(),
            mcp: StringMap::new(),
        }
    }
}

/// Whether `e` is `InstanceError::Invalid` with message `msg`.
pub open spec fn is_invalid(e: InstanceError, msg: Seq<char>) -> bool {
    e matches InstanceError::Invalid(m) && m@ == msg
}

/// Whether `e` is `InstanceError::NotFound` for `id`.
pub open spec fn is_not_found(e: InstanceError, id: Seq<char>) -> bool {
    e matches InstanceError::NotFound(m) && m@ == id
}

/// Why a submitted name is refused, if it is.
pub open spec fn name_problem(raw: Seq<char>) -> Option<Seq<char>> {
    if trim(raw).len() == 0 {
        Some("name must not be empty"@)
    } else if trim(raw).len() > MAX_INSTANCE_NAME_CHARS {
        Some("name must be at most 64 characters"@)
    } else {
        None
    }
}

/// Normalizes and validates a submitted instance name.
pub fn normalize_name(raw: &str) -> (r: Result<String, InstanceError>)
    ensures
        match name_problem(raw@) {
            Some(msg) => r matches Err(e) && is_invalid(e, msg),
            None => r matches Ok(n) && n@ == trim(raw@),
        },
{
    let name = trimmed(raw);
    let v = chars_of(name.as_str());
    if v.len() == 0 {
        return Err(InstanceError::Invalid(owned("name must not be empty")));
    }
    if v.len() > MAX_INSTANCE_NAME_CHARS {
        return Err(InstanceError::Invalid(owned("name must be at most 64 characters")));
    }
    Ok(name)
}

/// `s` with later repetitions removed, keeping first occurrences in order.
pub open spec fn dedup(s: Seq<Seq<char>>) -> Seq<Seq<char>>
    decreases s.len(),
{
    if s.len() == 0 {
        s
    } else {
        let d = dedup(s.drop_last());
        if d.contains(s.last()) {
            d
        } else {
            d.push(s.last())
        }
    }
}

/// Every identifier trimmed.
pub open spec fn trim_all(s: Seq<Seq<char>>) -> Seq<Seq<char>> {
    Seq::new(s.len(), |i: int| trim(s[i]))
}

/// Whether some identifier is blank.
pub open spec fn any_blank(s: Seq<Seq<char>>) -> bool {
    exists|i: int| 0 <= i < s.len() && trim(#[trigger] s[i]).len() == 0
}

/// An optional text field trimmed, with blank text meaning absent.
pub open spec fn normalized_opt(o: Option<Seq<char>>) -> Option<Seq<char>> {
    match o {
        Some(t) => if trim(t).len() > 0 {
            Some(trim(t))
        } else {
            None
        },
        None => None,
    }
}

/// The record built from a draft, for an instance `id` named `name`, keeping `generations`.
pub open spec fn built_from(
    id: Seq<char>,
    name: Seq<char>,
    draft: InstanceDraft,
    generations: Map<Seq<char>, u64>,
) -> InstanceModel {
    InstanceModel {
        id,
        name,
        enabled: draft.enabled,
        adapters: dedup(trim_all(strs(draft.adapters@))),
        persona_id: normalized_opt(opt_str(draft.persona_id)),
        system_prompt: normalized_opt(opt_str(draft.system_prompt)),
        model: normalized_opt(opt_str(draft.model)),
        plugins: draft.plugins@,
        skills: draft.skills@,
        mcp: draft.mcp@,
        session_generations: generations,
    }
}

fn contains_string(v: &Vec<String>, s: &String) -> (r: bool)
    ensures
        r == strs(v@).contains(s@),
{
    let n = v.len();
    for i in 0..n
        invariant
            n == v@.len(),
            forall|j: int| 0 <= j < i ==> v@[j]@ != s@,
    {
        if crate::text::str_equal(v[i].as_str(), s.as_str()) {
            assert(strs(v@)[i as int] == s@);
            return true;
        }
    }
    proof {
        if strs(v@).contains(s@) {
            let j = strs(v@).index_of(s@);
            assert(v@[j]@ == s@);
        }
    }
    false
}

fn normalize_opt(o: Option<String>) -> (r: Option<String>)
    ensures
        opt_str(r) == normalized_opt(opt_str(o)),
{
    match o {
        Some(t) => {
            let n = trimmed(t.as_str());
            if n.as_str().is_empty() {
                None
            } else {
                Some(n)
            }
        },
        None => None,
    }
}

/// Builds the persisted record from a draft, normalizing every optional field.
pub fn build_instance(id: String, name: String, draft: InstanceDraft) -> (r: Result<
    BotInstance,
    InstanceError,
>)
    ensures
        any_blank(strs(draft.adapters@)) ==> (r matches Err(e) && is_invalid(
            e,
            "adapter identifiers must not be empty"@,
        )),
        !any_blank(strs(draft.adapters@)) ==> (r matches Ok(b) && b@ == built_from(
            id@,
            name@,
            draft,
            Map::empty(),
        )),
{
    let ghost raw = strs(draft.adapters@);
    let mut adapters: Vec<String> = Vec::new();
    let n = draft.adapters.len();
    for i in 0..n
        invariant
            n == draft.adapters@.len(),
            raw == strs(draft.adapters@),
            forall|j: int| 0 <= j < i ==> trim(#[trigger] raw[j]).len() > 0,
            strs(adapters@) == dedup(trim_all(raw.take(i as int))),
    {
        let platform = trimmed(draft.adapters[i].as_str());
        if platform.as_str().is_empty() {
            proof {
                assert(trim(raw[i as int]).len() == 0);
            }
            return Err(InstanceError::Invalid(owned("adapter identifiers must not be empty")));
        }
        proof {
            assert(trim_all(raw.take(i + 1)).drop_last() =~= trim_all(raw.take(i as int)));
            assert(trim_all(raw.take(i + 1)).last() == platform@);
        }
        if !contains_string(&adapters, &platform) {
            adapters.push(platform);
            assert(strs(adapters@) =~= dedup(trim_all(raw.take(i as int))).push(platform@));
        }
    }
    proof {
        assert(raw.take(n as int) =~= raw);
        assert(!any_blank(raw));
    }
    let b = BotInstance {
        id,
        name,
        enabled: draft.enabled,
        adapters,
        persona_id: normalize_opt(draft.persona_id),
        system_prompt: normalize_opt(draft.system_prompt),
        model: normalize_opt(draft.model),
        plugins: draft.plugins,
        skills: draft.skills,
        mcp: draft.mcp,
        session_generations: StringMap::new(),
    };
    Ok(b)
}


// ---------------------------------------------------------------------------------------------
// Identifiers
// ---------------------------------------------------------------------------------------------

/// A name character as it appears in an identifier: ASCII letters and digits are kept, anything
/// else becomes `-`.
pub open spec fn slug_char(c: char) -> char {
    if is_ascii_alnum(c) {
        c
    } else {
        '-'
    }
}

/// `s` with every run of `-` shortened to a single `-`.
pub open spec fn collapse_dashes(s: Seq<char>) -> Seq<char>
    decreases s.len(),
{
    if s.len() == 0 {
        s
    } else {
        let c = collapse_dashes(s.drop_last());
        if s.last() == '-' && c.len() > 0 && c.last() == '-' {
            c
        } else {
            c.push(s.last())
        }
    }
}

/// `s` without leading `-`.
pub open spec fn strip_dash_start(s: Seq<char>) -> Seq<char>
    decreases s.len(),
{
    if s.len() > 0 && s[0] == '-' {
        strip_dash_start(s.drop_first())
    } else {
        s
    }
}

/// `s` without trailing `-`.
pub open spec fn strip_dash_end(s: Seq<char>) -> Seq<char>
    decreases s.len(),
{
    if s.len() > 0 && s.last() == '-' {
        strip_dash_end(s.drop_last())
    } else {
        s
    }
}

/// Readable identifier derived from a name: lowercased, non-alphanumerics turned into single
/// dashes, no dash at either end; `bot` when nothing is left.
pub open spec fn id_base(name: Seq<char>) -> Seq<char> {
    let l = spec_to_lowercase(name);
    let mapped = Seq::new(l.len(), |i: int| slug_char(l[i]));
    let slug = strip_dash_end(strip_dash_start(collapse_dashes(mapped)));
    if slug.len() == 0 {
        "bot"@
    } else {
        slug
    }
}

/// Keeps every character but `-`.
pub open spec fn not_dash() -> spec_fn(char) -> bool {
    |c: char| c != '-'
}

/// Keeps the ASCII letters and digits.
pub open spec fn ascii_alnum() -> spec_fn(char) -> bool {
    |c: char| is_ascii_alnum(c)
}

/// Every character of `s` is an ASCII letter, an ASCII digit or `-`.
pub open spec fn slug_chars(s: Seq<char>) -> bool {
    forall|i: int| 0 <= i < s.len() ==> is_ascii_alnum(#[trigger] s[i]) || s[i] == '-'
}

/// No two `-` stand next to each other in `s`.
pub open spec fn no_double_dash(s: Seq<char>) -> bool {
    forall|i: int| 0 <= i < s.len() - 1 ==> !(#[trigger] s[i] == '-' && s[i + 1] == '-')
}

proof fn lemma_filter_push(s: Seq<char>, x: char, p: spec_fn(char) -> bool)
    ensures
        s.push(x).filter(p) == (if p(x) { s.filter(p).push(x) } else { s.filter(p) }),
{
    reveal(Seq::filter);
    assert(s.push(x).drop_last() =~= s);
}

proof fn lemma_filter_dash_first(s: Seq<char>)
    requires
        s.len() > 0,
        s[0] == '-',
    ensures
        s.filter(not_dash()) == s.drop_first().filter(not_dash()),
{
    assert(s =~= seq![s[0]] + s.drop_first());
    Seq::filter_distributes_over_add(seq![s[0]], s.drop_first(), not_dash());
    lemma_filter_push(Seq::<char>::empty(), '-', not_dash());
    assert(seq!['-'] =~= Seq::<char>::empty().push('-'));
    reveal(Seq::filter);
    assert(Seq::<char>::empty().filter(not_dash()) =~= Seq::<char>::empty());
    assert(seq![s[0]].filter(not_dash()) =~= Seq::<char>::empty());
    assert(Seq::<char>::empty() + s.drop_first().filter(not_dash()) =~= s.drop_first().filter(not_dash()));
}

proof fn lemma_collapse_dashes(s: Seq<char>)
    ensures
        collapse_dashes(s).filter(not_dash()) == s.filter(not_dash()),
        slug_chars(s) ==> slug_chars(collapse_dashes(s)),
        no_double_dash(collapse_dashes(s)),
        collapse_dashes(s).len() > 0 ==> collapse_dashes(s).last() == s.last(),
    decreases s.len(),
{
    if s.len() > 0 {
        let d = s.drop_last();
        let x = s.last();
        lemma_collapse_dashes(d);
        let c = collapse_dashes(d);
        assert(s =~= d.push(x));
        lemma_filter_push(d, x, not_dash());
        lemma_filter_push(c, x, not_dash());
        if slug_chars(s) {
            assert(slug_chars(d)) by {
                assert forall|i: int| 0 <= i < d.len() implies is_ascii_alnum(#[trigger] d[i]) || d[i] == '-' by {
                    assert(d[i] == s[i]);
                }
            }
            assert(is_ascii_alnum(x) || x == '-') by {
                assert(s[s.len() - 1] == x);
            }
        }
        if !(x == '-' && c.len() > 0 && c.last() == '-') {
            let r = c.push(x);
            assert(no_double_dash(r)) by {
                assert forall|i: int| 0 <= i < r.len() - 1 implies !(#[trigger] r[i] == '-' && r[i + 1] == '-') by {
                    if i < c.len() - 1 {
                        assert(r[i] == c[i] && r[i + 1] == c[i + 1]);
                    } else {
                        assert(i == c.len() - 1);
                        assert(r[i] == c.last());
                        assert(r[i + 1] == x);
                    }
                }
            }
        } else {
            assert(d.filter(not_dash()) == c.filter(not_dash()));
        }
    } else {
        reveal(Seq::filter);
    }
}

proof fn lemma_strip_dash_start(s: Seq<char>)
    ensures
        strip_dash_start(s).filter(not_dash()) == s.filter(not_dash()),
        slug_chars(s) ==> slug_chars(strip_dash_start(s)),
        no_double_dash(s) ==> no_double_dash(strip_dash_start(s)),
        strip_dash_start(s).len() > 0 ==> strip_dash_start(s)[0] != '-',
    decreases s.len(),
{
    if s.len() > 0 && s[0] == '-' {
        let t = s.drop_first();
        lemma_filter_dash_first(s);
        assert(slug_chars(s) ==> slug_chars(t)) by {
            if slug_chars(s) {
                assert forall|i: int| 0 <= i < t.len() implies is_ascii_alnum(#[trigger] t[i]) || t[i] == '-' by {
                    assert(t[i] == s[i + 1]);
                }
            }
        }
        assert(no_double_dash(s) ==> no_double_dash(t)) by {
            if no_double_dash(s) {
                assert forall|i: int| 0 <= i < t.len() - 1 implies !(#[trigger] t[i] == '-' && t[i + 1] == '-') by {
                    assert(t[i] == s[i + 1] && t[i + 1] == s[i + 2]);
                    assert(!(s[i + 1] == '-' && s[i + 2] == '-'));
                }
            }
        }
        lemma_strip_dash_start(t);
    }
}

proof fn lemma_strip_dash_end(s: Seq<char>)
    ensures
        strip_dash_end(s).filter(not_dash()) == s.filter(not_dash()),
        slug_chars(s) ==> slug_chars(strip_dash_end(s)),
        no_double_dash(s) ==> no_double_dash(strip_dash_end(s)),
        strip_dash_end(s).len() > 0 ==> strip_dash_end(s).last() != '-' && strip_dash_end(s)[0] == s[0],
    decreases s.len(),
{
    if s.len() > 0 && s.last() == '-' {
        let t = s.drop_last();
        assert(s =~= t.push('-'));
        lemma_filter_push(t, '-', not_dash());
        assert(slug_chars(s) ==> slug_chars(t)) by {
            if slug_chars(s) {
                assert forall|i: int| 0 <= i < t.len() implies is_ascii_alnum(#[trigger] t[i]) || t[i] == '-' by {
                    assert(t[i] == s[i]);
                }
            }
        }
        assert(no_double_dash(s) ==> no_double_dash(t)) by {
            if no_double_dash(s) {
                assert forall|i: int| 0 <= i < t.len() - 1 implies !(#[trigger] t[i] == '-' && t[i + 1] == '-') by {
                    assert(t[i] == s[i] && t[i + 1] == s[i + 1]);
                    assert(!(s[i] == '-' && s[i + 1] == '-'));
                }
            }
        }
        lemma_strip_dash_end(t);
        if strip_dash_end(t).len() > 0 {
            assert(t[0] == s[0]);
        }
    }
}

proof fn lemma_slugged(l: Seq<char>)
    ensures
        slug_chars(Seq::new(l.len(), |i: int| slug_char(l[i]))),
        Seq::new(l.len(), |i: int| slug_char(l[i])).filter(not_dash()) == l.filter(ascii_alnum()),
    decreases l.len(),
{
    let m = Seq::new(l.len(), |i: int| slug_char(l[i]));
    if l.len() == 0 {
        reveal(Seq::filter);
        assert(m =~= l);
    } else {
        let d = l.drop_last();
        lemma_slugged(d);
        let md = Seq::new(d.len(), |i: int| slug_char(d[i]));
        assert(m =~= md.push(slug_char(l.last())));
        assert(l =~= d.push(l.last()));
        lemma_filter_push(md, slug_char(l.last()), not_dash());
        lemma_filter_push(d, l.last(), ascii_alnum());
        assert(is_ascii_alnum(l.last()) ==> l.last() != '-');
    }
}

/// Law: the identifier base of a name is never empty and is made of ASCII letters, digits and
/// `-` only; it neither starts nor ends with `-`, and never holds two `-` in a row. Taking its
/// dashes out leaves exactly the ASCII letters and digits of the lowercased name, in order; a name
/// with none of them gets `bot`. So the base is the name's alphanumeric runs joined by single
/// dashes.
pub proof fn law_id_base_shape(name: Seq<char>)
    ensures
        ({
            let b = id_base(name);
            let letters = spec_to_lowercase(name).filter(ascii_alnum());
            &&& b.len() > 0
            &&& forall|i: int| 0 <= i < b.len() ==> is_ascii_alnum(#[trigger] b[i]) || b[i] == '-'
            &&& b[0] != '-'
            &&& b[b.len() - 1] != '-'
            &&& forall|i: int| 0 <= i < b.len() - 1 ==> !(#[trigger] b[i] == '-' && b[i + 1] == '-')
            &&& letters.len() > 0 ==> b.filter(not_dash()) == letters
            &&& letters.len() == 0 ==> b == "bot"@
        }),
{
    let l = spec_to_lowercase(name);
    let mapped = Seq::new(l.len(), |i: int| slug_char(l[i]));
    lemma_slugged(l);
    lemma_collapse_dashes(mapped);
    let c = collapse_dashes(mapped);
    lemma_strip_dash_start(c);
    let a = strip_dash_start(c);
    lemma_strip_dash_end(a);
    let slug = strip_dash_end(a);
    assert(slug.filter(not_dash()) == l.filter(ascii_alnum()));
    if slug.len() > 0 {
        assert(slug.last() == slug[slug.len() - 1]);
        assert(id_base(name) == slug);
        slug.lemma_filter_contains(not_dash(), 0);
        assert(slug.filter(not_dash()).len() > 0);
    } else {
        reveal(Seq::filter);
        assert(slug.filter(not_dash()).len() == 0);
        reveal_strlit("bot");
        assert(is_ascii_alnum('b') && is_ascii_alnum('o') && is_ascii_alnum('t'));
    }
}

/// `base-k`.
pub open spec fn suffixed(base: Seq<char>, k: nat) -> Seq<char> {
    base + "-"@ + decimal(k)
}

/// Whether `r` is the identifier a new instance gets next to the existing identifiers `taken`:
/// `base` when it is free, else `base-k` for the least `k >= 2` that is free.
pub open spec fn is_next_id(taken: Set<Seq<char>>, base: Seq<char>, r: Seq<char>) -> bool {
    &&& !taken.contains(r)
    &&& r == base || (taken.contains(base) && exists|k: nat|
        k >= 2 && r == suffixed(base, k) && forall|j: nat|
            2 <= j < k ==> taken.contains(#[trigger] suffixed(base, j)))
}

proof fn lemma_suffixed_injective(base: Seq<char>, a: nat, b: nat)
    requires
        suffixed(base, a) == suffixed(base, b),
    ensures
        a == b,
{
    let p = base + "-"@;
    assert(suffixed(base, a).skip(p.len() as int) =~= decimal(a));
    assert(suffixed(base, b).skip(p.len() as int) =~= decimal(b));
    crate::text::lemma_decimal_injective(a, b);
}

fn slug_of(name: &str) -> (r: String)
    ensures
        r@ == id_base(name@),
{
    let lower = to_lowercase(name);
    let l = chars_of(lower.as_str());
    let ghost lv = spec_to_lowercase(name@);
    let ghost mapped = Seq::new(lv.len(), |i: int| slug_char(lv[i]));
    let mut collapsed: Vec<char> = Vec::new();
    let n = l.len();
    for i in 0..n
        invariant
            n == l@.len(),
            l@ == lv,
            mapped == Seq::new(lv.len(), |i: int| slug_char(lv[i])),
            collapsed@ == collapse_dashes(mapped.take(i as int)),
    {
        let c = if is_ascii_alphanumeric(l[i]) {
            l[i]
        } else {
            '-'
        };
        proof {
            assert(mapped.take(i + 1).drop_last() =~= mapped.take(i as int));
            assert(mapped.take(i + 1).last() == c);
        }
        let k = collapsed.len();
        if !(c == '-' && k > 0 && collapsed[k - 1] == '-') {
            collapsed.push(c);
        }
    }
    assert(mapped.take(n as int) =~= mapped);
    let m = collapsed.len();
    let mut a: usize = 0;
    assert(collapsed@.skip(0) =~= collapsed@);
    while a < m && collapsed[a] == '-'
        invariant
            a <= m == collapsed@.len(),
            strip_dash_start(collapsed@.skip(a as int)) == strip_dash_start(collapsed@),
        decreases m - a,
    {
        assert(collapsed@.skip(a as int).drop_first() =~= collapsed@.skip(a + 1));
        a = a + 1;
    }
    let ghost rest = collapsed@.skip(a as int);
    assert(strip_dash_start(collapsed@) == rest) by {
        if a < m {
            assert(rest[0] == collapsed@[a as int]);
        }
    }
    let mut b: usize = m;
    assert(rest.take(rest.len() as int) =~= rest);
    while b > a && collapsed[b - 1] == '-'
        invariant
            a <= b <= m == collapsed@.len(),
            rest == collapsed@.skip(a as int),
            strip_dash_end(rest.take(b - a)) == strip_dash_end(rest),
        decreases b - a,
    {
        assert(rest[b - a - 1] == collapsed@[b - 1]);
        assert(rest.take(b - a).drop_last() =~= rest.take(b - a - 1));
        b = b - 1;
    }
    assert(strip_dash_end(rest.take(b - a)) == rest.take(b - a)) by {
        if b > a {
            assert(rest.take(b - a).last() == collapsed@[b - 1]);
        }
    }
    assert(collapsed@.subrange(a as int, b as int) =~= rest.take(b - a));
    if a == b {
        owned("bot")
    } else {
        crate::text::string_of_range(collapsed.as_slice(), a, b)
    }
}

/// Derives a unique, readable identifier for an instance named `name`.
pub fn unique_id(instances: &StringMap<BotInstance>, name: &str) -> (r: String)
    ensures
        is_next_id(instances@.dom(), id_base(name@), r@),
{
    let base = slug_of(name);
    if !instances.contains_key(base.as_str()) {
        return base;
    }
    instances.facts();
    let _len = instances.len();
    let ghost dom = instances@.dom();
    let ghost b = base@;
    let mut suffix: u128 = 2;
    let ghost mut tried: Set<Seq<char>> = Set::empty();
    loop
        invariant
            dom == instances@.dom(),
            dom.finite(),
            dom.len() <= usize::MAX,
            b == base@,
            b == id_base(name@),
            dom.contains(b),
            suffix >= 2,
            tried.finite(),
            tried.len() == suffix - 2,
            tried.subset_of(dom),
            forall|q: Seq<char>|
                tried.contains(q) <==> exists|j: nat| 2 <= j < suffix && q == suffixed(b, j),
            forall|j: nat| 2 <= j < suffix ==> dom.contains(#[trigger] suffixed(b, j)),
        decreases dom.len() + 2 - suffix,
    {
        let mut candidate = base.clone();
        push_str(&mut candidate, "-");
        crate::text::push_decimal_wide(&mut candidate, suffix);
        assert(candidate@ == suffixed(b, suffix as nat));
        if !instances.contains_key(candidate.as_str()) {
            proof {
                let k = suffix as nat;
                assert(k >= 2 && candidate@ == suffixed(b, k) && forall|j: nat|
                    2 <= j < k ==> dom.contains(#[trigger] suffixed(b, j)));
                assert(b == id_base(name@));
            }
            return candidate;
        }
        proof {
            let c = suffixed(b, suffix as nat);
            assert(!tried.contains(c)) by {
                if tried.contains(c) {
                    let j = choose|j: nat| 2 <= j < suffix && c == suffixed(b, j);
                    lemma_suffixed_injective(b, j, suffix as nat);
                }
            }
            let t2 = tried.insert(c);
            assert(t2.len() == suffix - 1);
            vstd::set_lib::lemma_len_subset(t2, dom);
            assert forall|q: Seq<char>| t2.contains(q) <==> exists|j: nat|
                2 <= j < suffix + 1 && q == suffixed(b, j) by {
                if t2.contains(q) && q != c {
                    assert(tried.contains(q));
                }
                if exists|j: nat| 2 <= j < suffix + 1 && q == suffixed(b, j) {
                    let j = choose|j: nat| 2 <= j < suffix + 1 && q == suffixed(b, j);
                    if j < suffix {
                        assert(tried.contains(q));
                    }
                }
            }
            tried = t2;
        }
        suffix = suffix + 1;
    }
}


// ---------------------------------------------------------------------------------------------
// The catalog
// ---------------------------------------------------------------------------------------------

/// Whether instance `m` serves `platform`.
pub open spec fn serves(m: InstanceModel, platform: Seq<char>) -> bool {
    m.enabled && m.adapters.contains(platform)
}

/// A well-formed catalog: keyed by identifier, and no platform served by two instances.
pub open spec fn catalog_ok(c: Map<Seq<char>, InstanceModel>) -> bool {
    &&& forall|k: Seq<char>| #[trigger] c.dom().contains(k) ==> c[k].id == k
    &&& forall|a: Seq<char>, b: Seq<char>, p: Seq<char>|
        c.dom().contains(a) && c.dom().contains(b) && a != b && #[trigger] serves(c[a], p)
            ==> !#[trigger] serves(c[b], p)
}

/// Whether an instance other than `id` already serves `platform`.
pub open spec fn claimed_by_other(c: Map<Seq<char>, InstanceModel>, id: Seq<char>, platform: Seq<char>) -> bool {
    exists|k: Seq<char>| #[trigger] c.dom().contains(k) && c[k].id != id && serves(c[k], platform)
}

/// Whether the instance `id`, enabled or not, with these adapters can join the catalog.
pub open spec fn claims_free(c: Map<Seq<char>, InstanceModel>, id: Seq<char>, enabled: bool, adapters: Seq<Seq<char>>) -> bool {
    !enabled || forall|i: int| 0 <= i < adapters.len() ==> !claimed_by_other(c, id, #[trigger] adapters[i])
}

/// Whether `e` reports the first adapter of `cand` that another instance already serves.
pub open spec fn is_first_conflict(c: Map<Seq<char>, InstanceModel>, cand: InstanceModel, e: InstanceError) -> bool {
    e matches InstanceError::Conflict { platform, owner } && exists|i: int|
        #![trigger cand.adapters[i]]
        0 <= i < cand.adapters.len() && cand.adapters[i] == platform@ && (forall|j: int|
            0 <= j < i ==> !claimed_by_other(c, cand.id, #[trigger] cand.adapters[j])) && exists|k: Seq<char>|
            #[trigger] c.dom().contains(k) && c[k].id == owner@ && c[k].id != cand.id && serves(c[k], platform@)
}

/// Validates a candidate instance against a catalog.
fn validate_claims(instances: &StringMap<BotInstance>, candidate: &BotInstance) -> (r: Result<(), InstanceError>)
    ensures
        r is Ok <==> claims_free(models(instances@), candidate@.id, candidate@.enabled, candidate@.adapters),
        r matches Err(e) ==> is_first_conflict(models(instances@), candidate@, e),
{
    let ghost c = models(instances@);
    if !candidate.enabled {
        return Ok(());
    }
    instances.facts();
    let na = candidate.adapters.len();
    let nk = instances.len();
    for i in 0..na
        invariant
            na == candidate.adapters@.len(),
            nk == instances.key_seq().len(),
            c == models(instances@),
            candidate@.enabled,
            instances@.dom() == instances.key_seq().to_set(),
            forall|q: int| 0 <= q < instances.key_seq().len() ==> #[trigger] instances@[instances.key_seq()[q]] == instances.value_seq()[q],
            forall|j: int| 0 <= j < i ==> !claimed_by_other(c, candidate@.id, #[trigger] candidate@.adapters[j]),
    {
        let platform = &candidate.adapters[i];
        assert(candidate@.adapters[i as int] == platform@);
        for q in 0..nk
            invariant
                na == candidate.adapters@.len(),
                nk == instances.key_seq().len(),
                c == models(instances@),
                candidate@.enabled,
                i < na,
                candidate@.adapters[i as int] == platform@,
                instances@.dom() == instances.key_seq().to_set(),
                forall|q: int| 0 <= q < instances.key_seq().len() ==> #[trigger] instances@[instances.key_seq()[q]] == instances.value_seq()[q],
                forall|j: int| 0 <= j < i ==> !claimed_by_other(c, candidate@.id, #[trigger] candidate@.adapters[j]),
                forall|r: int| 0 <= r < q ==> !({
                    let m = c[#[trigger] instances.key_seq()[r]];
                    m.id != candidate@.id && serves(m, platform@)
                }),
        {
            let other = instances.value_at(q);
            let k = instances.key_at(q);
            assert(instances.key_seq().to_set().contains(k@));
            assert(c[k@] == other@);
            if other.enabled && !crate::text::str_equal(other.id.as_str(), candidate.id.as_str()) && contains_string(&other.adapters, platform) {
                let e = InstanceError::Conflict { platform: platform.clone(), owner: other.id.clone() };
                proof {
                    assert(instances@.dom().contains(k@));
                    assert(c.dom().contains(k@));
                    assert(c[k@].id != candidate@.id);
                    assert(serves(c[k@], platform@));
                    assert(claimed_by_other(c, candidate@.id, platform@));
                    assert(is_first_conflict(c, candidate@, e));
                }
                return Err(e);
            }
        }
        proof {
            if claimed_by_other(c, candidate@.id, platform@) {
                let k = choose|k: Seq<char>| #[trigger] c.dom().contains(k) && c[k].id != candidate@.id && serves(c[k], platform@);
                assert(instances.key_seq().to_set().contains(k));
                let r = instances.key_seq().index_of(k);
                assert(instances.key_seq()[r] == k);
            }
        }
    }
    Ok(())
}

/// Models of every instance of a map.
pub open spec fn models(m: Map<Seq<char>, BotInstance>) -> Map<Seq<char>, InstanceModel> {
    Map::new(|k: Seq<char>| m.dom().contains(k), |k: Seq<char>| m[k]@)
}

/// Catalog of bot instances, keyed by identifier.
///
/// No platform is ever served by two enabled instances: every mutation that would break this
/// is refused with [`InstanceError::Conflict`].
pub struct InstanceRegistry {
    instances: StringMap<BotInstance>,
}

impl View for InstanceRegistry {
    type V = Map<Seq<char>, InstanceModel>;

    closed spec fn view(&self) -> Map<Seq<char>, InstanceModel> {
        models(self.instances@)
    }
}

impl InstanceRegistry {
    #[verifier::type_invariant]
    closed spec fn well_formed(self) -> bool {
        catalog_ok(models(self.instances@))
    }

    /// Creates an empty catalog.
    pub fn in_memory() -> (r: Self)
        ensures
            r@ == Map::<Seq<char>, InstanceModel>::empty(),
    {
        let r = InstanceRegistry { instances: StringMap::new() };
        assert(models(r.instances@) =~= Map::<Seq<char>, InstanceModel>::empty());
        r
    }

    /// Every catalog is well formed.
    pub fn well_formed_now(&self)
        ensures
            catalog_ok(self@),
            self@.dom().finite(),
    {
        proof {
            use_type_invariant(self);
        }
        self.instances.facts();
        assert(self@.dom() =~= self.instances@.dom());
    }

    /// Moves the instances out, leaving the catalog empty.
    fn take_map(&mut self) -> (r: StringMap<BotInstance>)
        ensures
            models(r@) == old(self)@,
            final(self)@ == Map::<Seq<char>, InstanceModel>::empty(),
    {
        let mut map = StringMap::new();
        assert(models(map@) =~= Map::<Seq<char>, InstanceModel>::empty());
        std::mem::swap(&mut map, &mut self.instances);
        assert(self@ =~= Map::<Seq<char>, InstanceModel>::empty());
        map
    }

    /// Looks up an instance by identifier.
    pub fn get(&self, id: &str) -> (r: Option<BotInstance>)
        ensures
            r is None <==> !self@.dom().contains(id@),
            r matches Some(b) ==> b@ == self@[id@],
    {
        match self.instances.get(id) {
            Some(b) => Some(b.duplicate()),
            None => None,
        }
    }

    /// Number of configured instances.
    pub fn len(&self) -> (r: usize)
        ensures
            r == self@.dom().len(),
    {
        assert(self@.dom() =~= self.instances@.dom());
        self.instances.len()
    }

    /// Whether no instance is configured.
    pub fn is_empty(&self) -> (r: bool)
        ensures
            r == (self@.dom().len() == 0),
    {
        self.len() == 0
    }

    /// Creates an instance and returns the stored record.
    pub fn create(&mut self, draft: InstanceDraft) -> (r: Result<BotInstance, InstanceError>)
        ensures
            r is Err ==> final(self)@ == old(self)@,
            name_problem(draft.name@) matches Some(msg) ==> (r matches Err(e) && is_invalid(e, msg)),
            name_problem(draft.name@) is None && any_blank(strs(draft.adapters@)) ==> (r matches Err(e)
                && is_invalid(e, "adapter identifiers must not be empty"@)),
            name_problem(draft.name@) is None && !any_blank(strs(draft.adapters@)) ==> {
                let adapters = dedup(trim_all(strs(draft.adapters@)));
                &&& (r is Ok <==> platforms_free(old(self)@, draft.enabled, adapters))
                &&& !platforms_free(old(self)@, draft.enabled, adapters) ==> (r matches Err(e)
                    && exists|id: Seq<char>| is_next_id(old(self)@.dom(), id_base(trim(draft.name@)), id)
                        && is_first_conflict(old(self)@, built_from(id, trim(draft.name@), draft, Map::empty()), e))
            },
            r matches Ok(b) ==> {
                &&& is_next_id(old(self)@.dom(), id_base(trim(draft.name@)), b@.id)
                &&& b@ == built_from(b@.id, trim(draft.name@), draft, Map::empty())
                &&& claims_free(old(self)@, b@.id, b@.enabled, b@.adapters)
                &&& final(self)@ == old(self)@.insert(b@.id, b@)
            },
            r matches Err(e) ==> (e is Conflict ==> exists|id: Seq<char>|
                is_next_id(old(self)@.dom(), id_base(trim(draft.name@)), id) && is_first_conflict(
                    old(self)@,
                    built_from(id, trim(draft.name@), draft, Map::empty()),
                    e,
                )),
    {
        proof {
            use_type_invariant(&*self);
        }
        let ghost before = self@;
        let ghost d = draft;
        let name = match normalize_name(draft.name.as_str()) {
            Ok(n) => n,
            Err(e) => return Err(e),
        };
        let id = unique_id(&self.instances, name.as_str());
        let candidate = match build_instance(id, name, draft) {
            Ok(b) => b,
            Err(e) => return Err(e),
        };
        proof {
            assert(before.dom() =~= self.instances@.dom());
            lemma_fresh_id_claims(before, candidate@.id, candidate@.enabled, candidate@.adapters);
        }
        match validate_claims(&self.instances, &candidate) {
            Ok(()) => {},
            Err(e) => {
                proof {
                    assert(is_next_id(before.dom(), id_base(trim(d.name@)), candidate@.id));
                    assert(candidate@ == built_from(candidate@.id, trim(d.name@), d, Map::empty()));
                }
                return Err(e);
            },
        }
        let stored = candidate.duplicate();
        proof {
            lemma_insert_keeps_ok(before, candidate@);
        }
        let mut map = self.take_map();
        map.insert(candidate.id.clone(), stored);
        assert(models(map@) =~= before.insert(candidate@.id, candidate@));
        self.instances = map;
        Ok(candidate)
    }
}

impl InstanceRegistry {
    /// Replaces the editable fields of an instance, keeping its identity and session history.
    pub fn update(&mut self, id: &str, draft: InstanceDraft) -> (r: Result<BotInstance, InstanceError>)
        ensures
            r is Err ==> final(self)@ == old(self)@,
            !old(self)@.dom().contains(id@) ==> (r matches Err(e) && is_not_found(e, id@)),
            old(self)@.dom().contains(id@) ==> {
                let cand = built_from(id@, trim(draft.name@), draft, old(self)@[id@].session_generations);
                &&& name_problem(draft.name@) matches Some(msg) ==> (r matches Err(e) && is_invalid(e, msg))
                &&& name_problem(draft.name@) is None && any_blank(strs(draft.adapters@)) ==> (r matches Err(e)
                    && is_invalid(e, "adapter identifiers must not be empty"@))
                &&& name_problem(draft.name@) is None && !any_blank(strs(draft.adapters@)) ==> {
                    &&& (r is Ok <==> claims_free(old(self)@, id@, draft.enabled, cand.adapters))
                    &&& r matches Ok(b) ==> b@ == cand && final(self)@ == old(self)@.insert(id@, cand)
                    &&& r matches Err(e) ==> is_first_conflict(old(self)@, cand, e)
                }
            },
    {
        proof {
            use_type_invariant(&*self);
        }
        let ghost before = self@;
        let ghost d = draft;
        let existing = match self.instances.get(id) {
            Some(b) => b,
            None => return Err(InstanceError::NotFound(owned(id))),
        };
        let generations = existing.session_generations.copied();
        let name = match normalize_name(draft.name.as_str()) {
            Ok(n) => n,
            Err(e) => return Err(e),
        };
        let mut candidate = match build_instance(owned(id), name, draft) {
            Ok(b) => b,
            Err(e) => return Err(e),
        };
        candidate.session_generations = generations;
        assert(candidate@ == built_from(id@, trim(d.name@), d, before[id@].session_generations));
        match validate_claims(&self.instances, &candidate) {
            Ok(()) => {},
            Err(e) => return Err(e),
        }
        let stored = candidate.duplicate();
        proof {
            lemma_insert_keeps_ok(before, candidate@);
        }
        let mut map = self.take_map();
        map.insert(candidate.id.clone(), stored);
        assert(models(map@) =~= before.insert(id@, candidate@));
        self.instances = map;
        Ok(candidate)
    }

    /// Deletes an instance.
    pub fn delete(&mut self, id: &str) -> (r: Result<(), InstanceError>)
        ensures
            !old(self)@.dom().contains(id@) ==> (r matches Err(e) && is_not_found(e, id@)
                && final(self)@ == old(self)@),
            old(self)@.dom().contains(id@) ==> r is Ok && final(self)@ == old(self)@.remove(id@),
    {
        proof {
            use_type_invariant(&*self);
        }
        let ghost before = self@;
        let mut map = self.take_map();
        let removed = map.remove(id);
        proof {
            assert(models(map@) =~= before.remove(id@));
            assert(catalog_ok(before.remove(id@))) by {
                let c2 = before.remove(id@);
                assert forall|a: Seq<char>, b: Seq<char>, p: Seq<char>|
                    c2.dom().contains(a) && c2.dom().contains(b) && a != b && #[trigger] serves(c2[a], p)
                        implies !#[trigger] serves(c2[b], p) by {
                    assert(serves(before[a], p));
                }
            }
        }
        self.instances = map;
        match removed {
            Some(_) => Ok(()),
            None => {
                assert(self@ =~= before);
                Err(InstanceError::NotFound(owned(id)))
            },
        }
    }

    /// Rotates the session of one conversation and returns the new session identifier.
    ///
    /// The previous session is left untouched: its history remains in the session catalog.
    /// The generation stops at `u64::MAX`.
    pub fn rotate_session(&mut self, id: &str, conversation: &str) -> (r: Result<String, InstanceError>)
        ensures
            !old(self)@.dom().contains(id@) ==> (r matches Err(e) && is_not_found(e, id@)
                && final(self)@ == old(self)@),
            old(self)@.dom().contains(id@) ==> {
                let m = old(self)@[id@];
                let g = generation_of(m, conversation@);
                let next = if g < u64::MAX { (g + 1) as u64 } else { g };
                let m2 = InstanceModel {
                    session_generations: m.session_generations.insert(conversation@, next),
                    ..m
                };
                &&& r matches Ok(s) && s@ == session_key(id@, conversation@, next)
                &&& final(self)@ == old(self)@.insert(id@, m2)
            },
    {
        proof {
            use_type_invariant(&*self);
        }
        let ghost before = self@;
        if !self.instances.contains_key(id) {
            return Err(InstanceError::NotFound(owned(id)));
        }
        assert(before.dom().contains(id@));
        let mut map = self.take_map();
        assert(models(map@).dom().contains(id@));
        assert(map@.dom().contains(id@));
        let mut instance = match map.remove(id) {
            Some(b) => b,
            None => {
                assert(false);
                return Err(InstanceError::NotFound(owned(id)));
            },
        };
        let ghost m = instance@;
        assert(m == before[id@]);
        let g = instance.session_generation(conversation);
        let next = if g < 0xFFFF_FFFF_FFFF_FFFFu64 {
            g + 1
        } else {
            g
        };
        instance.session_generations.insert(owned(conversation), next);
        let session_id = instance.conversation_session_id(conversation);
        proof {
            assert(instance@.session_generations.dom().contains(conversation@));
            assert(generation_of(instance@, conversation@) == next);
            assert(instance@.id == id@) by {
                assert(before.dom().contains(id@));
            }
            assert(instance@ == InstanceModel {
                session_generations: m.session_generations.insert(conversation@, next),
                ..m
            });
            lemma_insert_same_claims(before, instance@);
        }
        map.insert(owned(id), instance);
        assert(models(map@) =~= before.insert(id@, InstanceModel {
            session_generations: m.session_generations.insert(conversation@, next),
            ..m
        }));
        self.instances = map;
        Ok(session_id)
    }

    /// Resolves the enabled instance that serves `platform` (trimmed).
    ///
    /// `Ok(None)` means no enabled instance claims the platform: the caller must then drop the
    /// event, because there is no bot to answer as.
    pub fn resolve_by_platform(&self, platform: &str) -> (r: Result<Option<BotInstance>, InstanceError>)
        ensures
            r is Ok,
            r matches Ok(None) ==> unclaimed(self@, trim(platform@)),
            r matches Ok(Some(b)) ==> self@.dom().contains(b@.id) && self@[b@.id] == b@ && serves(
                b@,
                trim(platform@),
            ),
    {
        proof {
            use_type_invariant(self);
        }
        let p = trimmed(platform);
        self.instances.facts();
        let ghost c = self@;
        let n = self.instances.len();
        let mut owner: Option<usize> = None;
        for q in 0..n
            invariant
                n == self.instances.key_seq().len(),
                c == self@,
                catalog_ok(c),
                crate::string_map::strictly_sorted(self.instances.key_seq()),
                c.dom() == self.instances.key_seq().to_set(),
                forall|j: int| 0 <= j < self.instances.key_seq().len() ==> #[trigger] self.instances@[self.instances.key_seq()[j]] == self.instances.value_seq()[j],
                owner matches Some(o) ==> o < q && serves(c[self.instances.key_seq()[o as int]], p@),
                forall|j: int| 0 <= j < q && owner != Some(j as usize) ==> !serves(c[#[trigger] self.instances.key_seq()[j]], p@),
        {
            let candidate = self.instances.value_at(q);
            let k = self.instances.key_at(q);
            assert(c.dom().contains(k@));
            assert(c[k@] == candidate@);
            if candidate.enabled && contains_string(&candidate.adapters, &p) {
                match owner {
                    Some(o) => {
                        proof {
                            let ka = self.instances.key_seq()[o as int];
                            assert(c.dom().contains(ka));
                            assert(ka != k@) by {
                                crate::string_map::lemma_sorted_index_of(self.instances.key_seq(), o as int);
                                crate::string_map::lemma_sorted_index_of(self.instances.key_seq(), q as int);
                            }
                            assert(serves(c[ka], p@));
                            assert(serves(c[k@], p@));
                        }
                        let mut owners: Vec<String> = Vec::new();
                        owners.push(self.instances.key_at(o).clone());
                        owners.push(k.clone());
                        return Err(InstanceError::AmbiguousPlatform { platform: p, owners });
                    },
                    None => {
                        owner = Some(q);
                    },
                }
            }
        }
        match owner {
            Some(o) => {
                let b = self.instances.value_at(o).duplicate();
                proof {
                    let ka = self.instances.key_seq()[o as int];
                    assert(c.dom().contains(ka));
                    assert(c[ka].id == ka);
                }
                Ok(Some(b))
            },
            None => {
                proof {
                    assert forall|k: Seq<char>| #[trigger] c.dom().contains(k) implies !serves(c[k], p@) by {
                        assert(self.instances.key_seq().to_set().contains(k));
                        let j = self.instances.key_seq().index_of(k);
                        assert(self.instances.key_seq()[j] == k);
                    }
                }
                Ok(None)
            },
        }
    }
}

/// Console order of instances: by name, then by identifier.
pub open spec fn listed_before(a: InstanceModel, b: InstanceModel) -> bool {
    seq_lt(a.name, b.name) || (a.name == b.name && seq_lt(a.id, b.id))
}

/// Catalog built from a document: instances keyed by identifier, later entries winning.
pub open spec fn catalog_of(s: Seq<InstanceModel>) -> Map<Seq<char>, InstanceModel>
    decreases s.len(),
{
    if s.len() == 0 {
        Map::empty()
    } else {
        catalog_of(s.drop_last()).insert(s.last().id, s.last())
    }
}

/// Models of a sequence of instances.
pub open spec fn models_of(v: Seq<BotInstance>) -> Seq<InstanceModel> {
    Seq::new(v.len(), |i: int| v[i]@)
}

proof fn lemma_listed_before_total(a: InstanceModel, b: InstanceModel)
    requires
        a.id != b.id,
    ensures
        listed_before(a, b) || listed_before(b, a),
{
    crate::text::lemma_seq_lt_total(a.name, b.name);
    crate::text::lemma_seq_lt_total(a.id, b.id);
}

proof fn lemma_listed_before_transitive(a: InstanceModel, b: InstanceModel, c: InstanceModel)
    requires
        listed_before(a, b),
        listed_before(b, c),
    ensures
        listed_before(a, c),
{
    if seq_lt(a.name, b.name) && seq_lt(b.name, c.name) {
        lemma_seq_lt_transitive(a.name, b.name, c.name);
    } else if seq_lt(a.name, b.name) {
    } else if seq_lt(b.name, c.name) {
    } else {
        lemma_seq_lt_transitive(a.id, b.id, c.id);
    }
}

fn is_listed_before(a: &BotInstance, b: &BotInstance) -> (r: bool)
    ensures
        r == listed_before(a@, b@),
{
    match compare_str(a.name.as_str(), b.name.as_str()) {
        Order::Less => true,
        Order::Greater => {
            proof {
                lemma_seq_lt_asymmetric(b@.name, a@.name);
                if a@.name == b@.name {
                    lemma_seq_lt_irreflexive(a@.name);
                }
            }
            false
        },
        Order::Equal => {
            proof {
                lemma_seq_lt_irreflexive(a@.name);
            }
            match compare_str(a.id.as_str(), b.id.as_str()) {
                Order::Less => true,
                _ => false,
            }
        },
    }
}

impl InstanceRegistry {
    /// Every instance, ordered by name then identifier.
    pub fn list(&self) -> (r: Vec<BotInstance>)
        ensures
            r@.len() == self@.dom().len(),
            forall|i: int| #![trigger r@[i]]
                0 <= i < r@.len() ==> self@.dom().contains(r@[i]@.id) && self@[r@[i]@.id]
                    == r@[i]@,
            forall|i: int, j: int|
                0 <= i < j < r@.len() ==> listed_before(#[trigger] r@[i]@, #[trigger] r@[j]@),
    {
        proof {
            use_type_invariant(self);
        }
        self.instances.facts();
        let ghost c = self@;
        let ghost keys = self.instances.key_seq();
        let n = self.instances.len();
        let mut out: Vec<BotInstance> = Vec::new();
        for q in 0..n
            invariant
                n == keys.len(),
                keys == self.instances.key_seq(),
                c == self@,
                catalog_ok(c),
                crate::string_map::strictly_sorted(keys),
                c.dom() == keys.to_set(),
                forall|j: int| 0 <= j < keys.len() ==> #[trigger] self.instances@[keys[j]] == self.instances.value_seq()[j],
                out@.len() == q,
                forall|i: int| #![trigger out@[i]]
                    0 <= i < out@.len() ==> keys.take(q as int).contains(out@[i]@.id) && c.dom().contains(out@[i]@.id) && c[out@[i]@.id] == out@[i]@,
                forall|i: int, j: int|
                    0 <= i < j < out@.len() ==> listed_before(#[trigger] out@[i]@, #[trigger] out@[j]@),
        {
            let item = self.instances.value_at(q).duplicate();
            let ghost k = keys[q as int];
            proof {
                assert(c.dom().contains(k));
                assert(c[k].id == k);
                assert(item@ == c[k]);
                assert forall|i: int| 0 <= i < out@.len() implies (#[trigger] out@[i])@.id != item@.id by {
                    let j = keys.take(q as int).index_of(out@[i]@.id);
                    assert(keys[j] == out@[i]@.id);
                    assert(seq_lt(keys[j], keys[q as int]));
                    if keys[j] == keys[q as int] {
                        lemma_seq_lt_irreflexive(keys[j]);
                    }
                }
            }
            let m = out.len();
            let mut pos: usize = 0;
            while pos < m && is_listed_before(&out[pos], &item)
                invariant
                    pos <= m == out@.len(),
                    forall|i: int| 0 <= i < pos ==> listed_before(#[trigger] out@[i]@, item@),
                decreases m - pos,
            {
                pos = pos + 1;
            }
            proof {
                if pos < m {
                    lemma_listed_before_total(out@[pos as int]@, item@);
                    assert(listed_before(item@, out@[pos as int]@));
                    assert forall|i: int| pos <= i < m implies listed_before(item@, #[trigger] out@[i]@) by {
                        if i > pos {
                            lemma_listed_before_transitive(item@, out@[pos as int]@, out@[i]@);
                        }
                    }
                }
            }
            let ghost old_out = out@;
            let ghost im = item@;
            out.insert(pos, item);
            proof {
                assert(out@[pos as int]@ == im);
                assert forall|i: int| #![trigger out@[i]]
                    0 <= i < out@.len() implies keys.take(q + 1).contains(out@[i]@.id) && c.dom().contains(out@[i]@.id) && c[out@[i]@.id] == out@[i]@ by {
                    if i < pos {
                        assert(out@[i] == old_out[i]);
                        let j = keys.take(q as int).index_of(old_out[i]@.id);
                        assert(keys.take(q + 1)[j] == old_out[i]@.id);
                    } else if i == pos {
                        assert(keys.take(q + 1)[q as int] == k);
                    } else {
                        assert(out@[i] == old_out[i - 1]);
                        let j = keys.take(q as int).index_of(old_out[i - 1]@.id);
                        assert(keys.take(q + 1)[j] == old_out[i - 1]@.id);
                    }
                }
                assert forall|i: int, j: int|
                    0 <= i < j < out@.len() implies listed_before(#[trigger] out@[i]@, #[trigger] out@[j]@) by {
                    if j < pos {
                        assert(out@[i] == old_out[i] && out@[j] == old_out[j]);
                    } else if j == pos {
                        assert(out@[i] == old_out[i]);
                    } else if i < pos {
                        assert(out@[i] == old_out[i] && out@[j] == old_out[j - 1]);
                        lemma_listed_before_transitive(old_out[i]@, im, old_out[j - 1]@);
                    } else if i == pos {
                        assert(out@[j] == old_out[j - 1]);
                    } else {
                        assert(out@[i] == old_out[i - 1] && out@[j] == old_out[j - 1]);
                    }
                }
            }
        }
        out
    }

    /// Every instance, ordered by identifier (the order the catalog document uses).
    pub fn instances_by_id(&self) -> (r: Vec<BotInstance>)
        ensures
            r@.len() == self@.dom().len(),
            forall|i: int| #![trigger r@[i]]
                0 <= i < r@.len() ==> self@.dom().contains(r@[i]@.id) && self@[r@[i]@.id]
                    == r@[i]@,
            forall|i: int, j: int| 0 <= i < j < r@.len() ==> seq_lt(#[trigger] r@[i]@.id, #[trigger] r@[j]@.id),
    {
        proof {
            use_type_invariant(self);
        }
        self.instances.facts();
        let ghost c = self@;
        let ghost keys = self.instances.key_seq();
        let n = self.instances.len();
        let mut out: Vec<BotInstance> = Vec::new();
        for q in 0..n
            invariant
                n == keys.len(),
                keys == self.instances.key_seq(),
                c == self@,
                catalog_ok(c),
                crate::string_map::strictly_sorted(keys),
                c.dom() == keys.to_set(),
                forall|j: int| 0 <= j < keys.len() ==> #[trigger] self.instances@[keys[j]] == self.instances.value_seq()[j],
                out@.len() == q,
                forall|i: int| #![trigger out@[i]] 0 <= i < q ==> out@[i]@.id == keys[i] && c.dom().contains(keys[i]) && c[keys[i]] == out@[i]@,
        {
            let item = self.instances.value_at(q).duplicate();
            proof {
                assert(c.dom().contains(keys[q as int]));
                assert(c[keys[q as int]].id == keys[q as int]);
            }
            out.push(item);
        }
        out
    }
}

impl InstanceRegistry {
    /// Builds a catalog from stored instances (later entries with the same identifier win).
    ///
    /// A document in which two enabled instances serve the same platform is refused instead of
    /// routing arbitrarily.
    pub fn from_instances(list: Vec<BotInstance>) -> (r: Result<InstanceRegistry, InstanceError>)
        ensures
            r is Ok <==> catalog_ok(catalog_of(models_of(list@))),
            r matches Ok(reg) ==> reg@ == catalog_of(models_of(list@)),
            r matches Err(e) ==> e is Conflict,
    {
        let ghost ms = models_of(list@);
        let mut map: StringMap<BotInstance> = StringMap::new();
        assert(models(map@) =~= catalog_of(ms.take(0)));
        for b in it: list
            invariant
                it.seq() == list@,
                ms == models_of(list@),
                models(map@) == catalog_of(ms.take(it.index() as int)),
                forall|k: Seq<char>| #[trigger] map@.dom().contains(k) ==> map@[k]@.id == k,
        {
            let ghost i = it.index();
            proof {
                assert(ms.take(i + 1).drop_last() =~= ms.take(i as int));
                assert(ms.take(i + 1).last() == b@);
            }
            let key = b.id.clone();
            map.insert(key, b);
            assert(models(map@) =~= catalog_of(ms.take(i + 1)));
        }
        assert(ms.take(ms.len() as int) =~= ms);
        let ghost c = models(map@);
        map.facts();
        let ghost keys = map.key_seq();
        let n = map.len();
        for q in 0..n
            invariant
                n == keys.len(),
                keys == map.key_seq(),
                c == models(map@),
                c == catalog_of(ms),
                ms == models_of(list@),
                c.dom() == keys.to_set(),
                forall|k: Seq<char>| #[trigger] c.dom().contains(k) ==> c[k].id == k,
                forall|j: int| 0 <= j < keys.len() ==> #[trigger] map@[keys[j]] == map.value_seq()[j],
                forall|j: int| 0 <= j < q ==> claims_free(c, c[#[trigger] keys[j]].id, c[keys[j]].enabled, c[keys[j]].adapters),
        {
            let candidate = map.value_at(q);
            proof {
                assert(c.dom().contains(keys[q as int]));
            }
            match validate_claims(&map, candidate) {
                Ok(()) => {},
                Err(e) => {
                    proof {
                        let k = keys[q as int];
                        assert(c.dom().contains(k));
                        let m = c[k];
                        assert(candidate@ == m);
                        assert(!claims_free(c, m.id, m.enabled, m.adapters));
                        let i = choose|i: int| 0 <= i < m.adapters.len() && claimed_by_other(c, m.id, #[trigger] m.adapters[i]);
                        let p = m.adapters[i];
                        let k2 = choose|k2: Seq<char>| #[trigger] c.dom().contains(k2) && c[k2].id != m.id && serves(c[k2], p);
                        assert(m.adapters.contains(p));
                        assert(serves(c[k], p));
                        assert(m.id == k);
                        assert(c[k2].id == k2);
                        assert(c.dom().contains(k) && c.dom().contains(k2) && k != k2 && serves(c[k], p) && serves(c[k2], p));
                        assert(!catalog_ok(c));
                    }
                    return Err(e);
                },
            }
        }
        proof {
            assert forall|a: Seq<char>, b: Seq<char>, p: Seq<char>|
                c.dom().contains(a) && c.dom().contains(b) && a != b && #[trigger] serves(c[a], p)
                    implies !#[trigger] serves(c[b], p) by {
                assert(keys.to_set().contains(a));
                let j = keys.index_of(a);
                assert(keys[j] == a);
                assert(claims_free(c, c[a].id, c[a].enabled, c[a].adapters));
                let i = c[a].adapters.index_of(p);
                assert(c[a].adapters[i] == p);
                assert(!claimed_by_other(c, c[a].id, c[a].adapters[i]));
                assert(c[b].id == b);
            }
        }
        Ok(InstanceRegistry { instances: map })
    }
}

impl BotInstance {
    /// Rebuilds a stored instance, including its session generations.
    pub fn from_record(
        id: String,
        name: String,
        enabled: bool,
        adapters: Vec<String>,
        persona_id: Option<String>,
        system_prompt: Option<String>,
        model: Option<String>,
        plugins: StringMap<ItemPolicy>,
        skills: StringMap<ItemPolicy>,
        mcp: StringMap<ItemPolicy>,
        session_generations: StringMap<u64>,
    ) -> (b: BotInstance)
        ensures
            b@ == (InstanceModel {
                id: id@,
                name: name@,
                enabled,
                adapters: strs(adapters@),
                persona_id: opt_str(persona_id),
                system_prompt: opt_str(system_prompt),
                model: opt_str(model),
                plugins: plugins@,
                skills: skills@,
                mcp: mcp@,
                session_generations: session_generations@,
            }),
    {
        BotInstance {
            id,
            name,
            enabled,
            adapters,
            persona_id,
            system_prompt,
            model,
            plugins,
            skills,
            mcp,
            session_generations,
        }
    }

    /// Conversation key -> session generation.
    pub fn session_generations(&self) -> (r: &StringMap<u64>)
        ensures
            r@ == self@.session_generations,
    {
        &self.session_generations
    }
}

/// Replacing an instance by one with the same identifier, adapters and switch keeps the
/// catalog well formed.
proof fn lemma_insert_same_claims(c: Map<Seq<char>, InstanceModel>, m: InstanceModel)
    requires
        catalog_ok(c),
        c.dom().contains(m.id),
        c[m.id].enabled == m.enabled,
        c[m.id].adapters == m.adapters,
    ensures
        catalog_ok(c.insert(m.id, m)),
{
    let c2 = c.insert(m.id, m);
    assert forall|a: Seq<char>, b: Seq<char>, p: Seq<char>|
        c2.dom().contains(a) && c2.dom().contains(b) && a != b && #[trigger] serves(c2[a], p)
            implies !#[trigger] serves(c2[b], p) by {
        assert(serves(c[a], p));
        if serves(c2[b], p) {
            assert(serves(c[b], p));
        }
    }
}

/// Whether no instance serves `platform`.
pub open spec fn unclaimed(c: Map<Seq<char>, InstanceModel>, platform: Seq<char>) -> bool {
    forall|k: Seq<char>| #[trigger] c.dom().contains(k) ==> !serves(c[k], platform)
}

/// Whether a new instance, enabled or not, with these adapters can join the catalog.
pub open spec fn platforms_free(c: Map<Seq<char>, InstanceModel>, enabled: bool, adapters: Seq<Seq<char>>) -> bool {
    !enabled || forall|i: int| 0 <= i < adapters.len() ==> unclaimed(c, #[trigger] adapters[i])
}

/// A fresh identifier collides with no instance, so only the platforms matter.
proof fn lemma_fresh_id_claims(c: Map<Seq<char>, InstanceModel>, id: Seq<char>, enabled: bool, adapters: Seq<Seq<char>>)
    requires
        catalog_ok(c),
        !c.dom().contains(id),
    ensures
        claims_free(c, id, enabled, adapters) == platforms_free(c, enabled, adapters),
{
    if enabled {
        if claims_free(c, id, enabled, adapters) {
            assert forall|i: int| 0 <= i < adapters.len() implies unclaimed(c, #[trigger] adapters[i]) by {
                assert(!claimed_by_other(c, id, adapters[i]));
                assert forall|k: Seq<char>| #[trigger] c.dom().contains(k) implies !serves(c[k], adapters[i]) by {
                    assert(c[k].id == k);
                }
            }
        }
        if platforms_free(c, enabled, adapters) {
            assert forall|i: int| 0 <= i < adapters.len() implies !claimed_by_other(c, id, #[trigger] adapters[i]) by {
                assert(unclaimed(c, adapters[i]));
            }
        }
    }
}

/// Law: storing an instance whose platforms no other instance serves keeps every platform
/// served by at most one enabled instance.
pub proof fn lemma_insert_keeps_ok(c: Map<Seq<char>, InstanceModel>, m: InstanceModel)
    requires
        catalog_ok(c),
        claims_free(c, m.id, m.enabled, m.adapters),
    ensures
        catalog_ok(c.insert(m.id, m)),
{
    let c2 = c.insert(m.id, m);
    assert forall|a: Seq<char>, b: Seq<char>, p: Seq<char>|
        c2.dom().contains(a) && c2.dom().contains(b) && a != b && #[trigger] serves(c2[a], p)
            implies !#[trigger] serves(c2[b], p) by {
        if a == m.id {
            if serves(c2[b], p) {
                let i = m.adapters.index_of(p);
                assert(m.adapters[i] == p);
                assert(!claimed_by_other(c, m.id, m.adapters[i]));
                assert(c.dom().contains(b));
            }
        } else if b == m.id {
            if serves(c2[b], p) {
                let i = m.adapters.index_of(p);
                assert(m.adapters[i] == p);
                assert(!claimed_by_other(c, m.id, m.adapters[i]));
                assert(c.dom().contains(a));
            }
        }
    }
}

/// Law: `/new` moves a conversation to a session key it never had before (until the generation
/// counter is exhausted), while every other conversation keeps its key.
pub proof fn law_rotation_moves_to_new_key(id: Seq<char>, conversation: Seq<char>, other: Seq<char>, m: InstanceModel, next: u64)
    requires
        generation_of(m, conversation) < u64::MAX,
        next == generation_of(m, conversation) + 1,
        other != conversation,
    ensures
        session_key(id, conversation, next) != session_key(id, conversation, generation_of(m, conversation)),
        ({
            let m2 = InstanceModel { session_generations: m.session_generations.insert(conversation, next), ..m };
            &&& generation_of(m2, conversation) == next
            &&& generation_of(m2, other) == generation_of(m, other)
        }),
{
    let g = generation_of(m, conversation);
    let pre = "instance:"@ + id + ":"@ + conversation + "#"@;
    if session_key(id, conversation, next) == session_key(id, conversation, g) {
        assert(session_key(id, conversation, next).skip(pre.len() as int) =~= decimal(next as nat));
        assert(session_key(id, conversation, g).skip(pre.len() as int) =~= decimal(g as nat));
        crate::text::lemma_decimal_injective(next as nat, g as nat);
    }
}


// ---------------------------------------------------------------------------------------------
// Generated personas
// ---------------------------------------------------------------------------------------------

/// A persona generated for an instance's custom prompt, so that the persona catalog shows
/// instance prompts beside the built-in personas.
pub struct InstancePersona {
    /// Persona identifier (`instance:<id>`).
    pub id: String,
    /// Display name (`<instance name> (instance)`).
    pub name: String,
    /// Description shown in the catalog.
    pub description: String,
    /// The instance's prompt, trimmed.
    pub prompt: String,
}

/// The fields of a generated persona.
pub open spec fn persona_fields(p: InstancePersona) -> (Seq<char>, Seq<char>, Seq<char>, Seq<char>) {
    (p.id@, p.name@, p.description@, p.prompt@)
}

/// Fields of a sequence of generated personas.
pub open spec fn persona_seq(ps: Seq<InstancePersona>) -> Seq<(Seq<char>, Seq<char>, Seq<char>, Seq<char>)> {
    Seq::new(ps.len(), |i: int| persona_fields(ps[i]))
}

/// Models of a sequence of instances.
pub open spec fn instance_models(bs: Seq<BotInstance>) -> Seq<InstanceModel> {
    Seq::new(bs.len(), |i: int| bs[i]@)
}

/// The persona generated for an instance, when its prompt is not blank.
pub open spec fn persona_of(m: InstanceModel) -> Option<(Seq<char>, Seq<char>, Seq<char>, Seq<char>)> {
    match m.system_prompt {
        Some(p) => if trim(p).len() > 0 {
            Some((persona_key(m.id), m.name + " (instance)"@, "Persona prompt configured on bot instance '"@ + m.name + "'"@, trim(p)))
        } else {
            None
        },
        None => None,
    }
}

/// The personas generated for a sequence of instances, in order.
pub open spec fn personas_of(ms: Seq<InstanceModel>) -> Seq<(Seq<char>, Seq<char>, Seq<char>, Seq<char>)>
    decreases ms.len(),
{
    if ms.len() == 0 {
        Seq::empty()
    } else {
        let r = personas_of(ms.drop_last());
        match persona_of(ms.last()) {
            Some(x) => r.push(x),
            None => r,
        }
    }
}

/// The personas to register for `instances`: one per instance with a non-blank prompt.
pub fn instance_personas(instances: &[BotInstance]) -> (r: Vec<InstancePersona>)
    ensures
        persona_seq(r@) == personas_of(instance_models(instances@)),
{
    let ghost ms = instance_models(instances@);
    let mut out: Vec<InstancePersona> = Vec::new();
    for i in 0..instances.len()
        invariant
            ms == instance_models(instances@),
            persona_seq(out@) == personas_of(ms.take(i as int)),
    {
        let b = &instances[i];
        proof {
            assert(ms.take(i + 1).drop_last() =~= ms.take(i as int));
            assert(ms.take(i + 1).last() == b@);
        }
        let ghost before = out@;
        match &b.system_prompt {
            Some(p) => {
                let t = trimmed(p.as_str());
                if !t.as_str().is_empty() {
                    let mut name = b.name.clone();
                    push_str(&mut name, " (instance)");
                    let mut description = owned("Persona prompt configured on bot instance '");
                    push_str(&mut description, b.name.as_str());
                    push_str(&mut description, "'");
                    out.push(InstancePersona { id: instance_persona_id(b.id.as_str()), name, description, prompt: t });
                    proof {
                        assert(persona_seq(out@) =~= persona_seq(before).push(persona_fields(out@.last())));
                    }
                } else {
                    assert(persona_seq(out@) =~= persona_seq(before));
                }
            },
            None => {},
        }
    }
    assert(ms.take(instances@.len() as int) =~= ms);
    out
}

/// Identifiers of a sequence of generated personas.
pub open spec fn persona_ids(ps: Seq<InstancePersona>) -> Seq<Seq<char>> {
    Seq::new(ps.len(), |i: int| ps[i].id@)
}

/// The generated personas among `ids` that no instance wants any more, in order.
pub open spec fn stale_of(ids: Seq<Seq<char>>, wanted: Seq<Seq<char>>) -> Seq<Seq<char>>
    decreases ids.len(),
{
    if ids.len() == 0 {
        Seq::empty()
    } else {
        let r = stale_of(ids.drop_last(), wanted);
        let x = ids.last();
        if INSTANCE_PERSONA_PREFIX@.is_prefix_of(x) && !wanted.contains(x) {
            r.push(x)
        } else {
            r
        }
    }
}

/// Among the personas `existing` in the catalog, the generated ones to remove: those whose
/// instance no longer has a prompt (absent from `desired`). Personas not generated for an
/// instance are never touched.
pub fn stale_personas(existing: &[String], desired: &[InstancePersona]) -> (r: Vec<String>)
    ensures
        strs(r@) == stale_of(strs(existing@), persona_ids(desired@)),
{
    proof {
        reveal_strlit("instance:");
    }
    let ghost ids = strs(existing@);
    let ghost wanted = persona_ids(desired@);
    let prefix = chars_of(INSTANCE_PERSONA_PREFIX);
    let mut out: Vec<String> = Vec::new();
    for i in 0..existing.len()
        invariant
            ids == strs(existing@),
            wanted == persona_ids(desired@),
            prefix@ == INSTANCE_PERSONA_PREFIX@,
            strs(out@) == stale_of(ids.take(i as int), wanted),
    {
        proof {
            assert(ids.take(i + 1).drop_last() =~= ids.take(i as int));
            assert(ids.take(i + 1).last() == existing@[i as int]@);
        }
        let x = &existing[i];
        let xv = chars_of(x.as_str());
        let generated = crate::text::starts_with_chars(xv.as_slice(), prefix.as_slice());
        let mut found = false;
        let mut j: usize = 0;
        while j < desired.len() && !found
            invariant
                j <= desired@.len(),
                wanted == persona_ids(desired@),
                found ==> wanted.contains(x@),
                !found ==> forall|k: int| 0 <= k < j ==> wanted[k] != x@,
            decreases desired@.len() - j + (if found { 0int } else { 1int }),
        {
            if crate::text::str_equal(desired[j].id.as_str(), x.as_str()) {
                assert(wanted[j as int] == x@);
                found = true;
            } else {
                j = j + 1;
            }
        }
        proof {
            if !found {
                assert(!wanted.contains(x@)) by {
                    if wanted.contains(x@) {
                        let k = wanted.index_of(x@);
                        assert(wanted[k] == x@);
                    }
                }
            }
        }
        if generated && !found {
            out.push(x.clone());
            assert(strs(out@) =~= stale_of(ids.take(i as int), wanted).push(x@));
        }
    }
    assert(ids.take(existing@.len() as int) =~= ids);
    out
}

} // verus!
