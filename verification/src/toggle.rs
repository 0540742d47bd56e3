//! Global enable/disable state for plugins, skills and MCP servers.
//!
//! All three item kinds share the same operator intent ("run this on my node or not"). An
//! identifier absent from the store means *enabled*, so a freshly added item runs without an
//! explicit opt-in; re-enabling an item removes its entry instead of storing a redundant `true`.
//! Persisting the document is the caller's business: this type holds the state and its rules.
use vstd::prelude::*;

use crate::string_map::{strictly_sorted, StringMap};
use crate::text::{owned, seq_lt, strs};

verus! {

/// Default location of the toggle document, relative to the node working directory.
pub const DEFAULT_TOGGLE_STATE: &'static str = "./data/toggles.json";

/// Section holding plugin identifiers.
pub const PLUGIN_SECTION: &'static str = "plugins";

/// Section holding skill identifiers.
pub const SKILL_SECTION: &'static str = "skills";

/// Section holding MCP server identifiers.
pub const MCP_SECTION: &'static str = "mcp";

/// Whether `id` is enabled in a flag map (absent identifiers are enabled).
pub open spec fn flag_enabled(m: Map<Seq<char>, bool>, id: Seq<char>) -> bool {
    !m.dom().contains(id) || m[id]
}

/// Whether `r` lists, in ascending order, exactly the identifiers disabled in `m`.
pub open spec fn lists_disabled(m: Map<Seq<char>, bool>, r: Seq<Seq<char>>) -> bool {
    &&& forall|i: int, j: int| 0 <= i < j < r.len() ==> seq_lt(#[trigger] r[i], #[trigger] r[j])
    &&& forall|i: int| 0 <= i < r.len() ==> m.dom().contains(#[trigger] r[i]) && !m[r[i]]
    &&& forall|k: Seq<char>| #[trigger] m.dom().contains(k) && !m[k] ==> r.contains(k)
}

/// The identifiers whose flag is `false`, in ascending order.
pub fn disabled_keys(m: &StringMap<bool>) -> (r: Vec<String>)
    ensures
        lists_disabled(m@, strs(r@)),
{
    m.facts();
    let n = m.len();
    let ghost keys = m.key_seq();
    let mut out: Vec<String> = Vec::new();
    for q in 0..n
        invariant
            n == keys.len(),
            keys == m.key_seq(),
            strictly_sorted(keys),
            m@.dom() == keys.to_set(),
            forall|j: int| 0 <= j < keys.len() ==> #[trigger] m@[keys[j]] == m.value_seq()[j],
            forall|i: int| #![trigger out@[i]]
                0 <= i < out@.len() ==> keys.take(q as int).contains(out@[i]@),
            forall|i: int, j: int| 0 <= i < j < out@.len() ==> seq_lt(#[trigger] out@[i]@, #[trigger] out@[j]@),
            forall|i: int| 0 <= i < out@.len() ==> m@.dom().contains(#[trigger] out@[i]@) && !m@[out@[i]@],
            forall|j: int| 0 <= j < q && !m@[#[trigger] keys[j]] ==> strs(out@).contains(keys[j]),
    {
        let enabled = *m.value_at(q);
        if !enabled {
            let k = m.key_at(q).clone();
            proof {
                assert(m@.dom().contains(k@));
                assert forall|i: int| 0 <= i < out@.len() implies seq_lt(#[trigger] out@[i]@, k@) by {
                    let j = keys.take(q as int).index_of(out@[i]@);
                    assert(keys[j] == out@[i]@);
                    assert(seq_lt(keys[j], keys[q as int]));
                }
            }
            let ghost old_out = out@;
            out.push(k);
            proof {
                assert(out@[out@.len() - 1]@ == keys[q as int]);
                assert forall|i: int| #![trigger out@[i]]
                    0 <= i < out@.len() implies keys.take(q + 1).contains(out@[i]@) by {
                    if i < out@.len() - 1 {
                        assert(out@[i] == old_out[i]);
                        let j = keys.take(q as int).index_of(out@[i]@);
                        assert(keys.take(q + 1)[j] == out@[i]@);
                    } else {
                        assert(keys.take(q + 1)[q as int] == out@[i]@);
                    }
                }
                assert(strs(out@)[out@.len() - 1] == keys[q as int]);
                assert forall|j: int| 0 <= j < q + 1 && !m@[#[trigger] keys[j]] implies strs(out@).contains(keys[j]) by {
                    if j < q {
                        let i = strs(old_out).index_of(keys[j]);
                        assert(strs(out@)[i] == keys[j]);
                    }
                }
            }
        }
    }
    proof {
        assert forall|k: Seq<char>| #[trigger] m@.dom().contains(k) && !m@[k] implies strs(out@).contains(k) by {
            assert(keys.to_set().contains(k));
            let j = keys.index_of(k);
            assert(keys[j] == k);
        }
    }
    out
}

/// Enable/disable state of every toggleable item kind, by section.
pub struct ToggleStore {
    sections: StringMap<StringMap<bool>>,
}

/// The flags of a section (empty when the section does not exist).
pub open spec fn section_flags(v: Map<Seq<char>, Map<Seq<char>, bool>>, section: Seq<char>) -> Map<Seq<char>, bool> {
    if v.dom().contains(section) {
        v[section]
    } else {
        Map::empty()
    }
}

/// The flags of a section after setting `id` to `enabled`: an enabled item has no entry.
pub open spec fn flags_after_set(m: Map<Seq<char>, bool>, id: Seq<char>, enabled: bool) -> Map<Seq<char>, bool> {
    if flag_enabled(m, id) == enabled {
        m
    } else if enabled {
        m.remove(id)
    } else {
        m.insert(id, false)
    }
}

impl View for ToggleStore {
    type V = Map<Seq<char>, Map<Seq<char>, bool>>;

    closed spec fn view(&self) -> Map<Seq<char>, Map<Seq<char>, bool>> {
        Map::new(|s: Seq<char>| self.sections@.dom().contains(s), |s: Seq<char>| self.sections@[s]@)
    }
}

impl ToggleStore {
    /// Creates a store in which nothing has been toggled.
    pub fn in_memory() -> (r: Self)
        ensures
            r@ == Map::<Seq<char>, Map<Seq<char>, bool>>::empty(),
    {
        let r = ToggleStore { sections: StringMap::new() };
        assert(r@ =~= Map::<Seq<char>, Map<Seq<char>, bool>>::empty());
        r
    }

    /// Creates a store from the three stored sections.
    pub fn from_sections(plugins: StringMap<bool>, skills: StringMap<bool>, mcp: StringMap<bool>) -> (r: Self)
        ensures
            section_flags(r@, PLUGIN_SECTION@) == plugins@,
            section_flags(r@, SKILL_SECTION@) == skills@,
            section_flags(r@, MCP_SECTION@) == mcp@,
    {
        let mut sections: StringMap<StringMap<bool>> = StringMap::new();
        let ghost p = plugins@;
        let ghost s = skills@;
        let ghost m = mcp@;
        sections.insert(owned(PLUGIN_SECTION), plugins);
        sections.insert(owned(SKILL_SECTION), skills);
        sections.insert(owned(MCP_SECTION), mcp);
        let r = ToggleStore { sections };
        proof {
            reveal_strlit("plugins");
            reveal_strlit("skills");
            reveal_strlit("mcp");
            assert(PLUGIN_SECTION@ == "plugins"@);
            assert(SKILL_SECTION@ == "skills"@);
            assert(MCP_SECTION@ == "mcp"@);
            assert(PLUGIN_SECTION@ != SKILL_SECTION@);
            assert(PLUGIN_SECTION@ != MCP_SECTION@);
            assert("skills"@.len() == 6);
            assert("mcp"@.len() == 3);
            assert(SKILL_SECTION@ != MCP_SECTION@);
            assert(r@.dom().contains(PLUGIN_SECTION@));
            assert(r@.dom().contains(SKILL_SECTION@));
            assert(r@.dom().contains(MCP_SECTION@));
        }
        r
    }

    /// Whether `id` is enabled in `section` (absent identifiers are enabled).
    pub fn is_enabled(&self, section: &str, id: &str) -> (r: bool)
        ensures
            r == flag_enabled(section_flags(self@, section@), id@),
    {
        match self.sections.get(section) {
            Some(entries) => match entries.get(id) {
                Some(flag) => *flag,
                None => true,
            },
            None => true,
        }
    }

    /// Every identifier explicitly disabled in `section`, in ascending order.
    pub fn disabled_ids(&self, section: &str) -> (r: Vec<String>)
        ensures
            lists_disabled(section_flags(self@, section@), strs(r@)),
    {
        match self.sections.get(section) {
            Some(entries) => disabled_keys(entries),
            None => {
                let r: Vec<String> = Vec::new();
                assert(strs(r@) =~= Seq::<Seq<char>>::empty());
                r
            },
        }
    }

    /// Sets the state of one item. Returns `true` when the state actually changed, so callers
    /// can skip side effects (stopping a host, reconnecting a client) for an idempotent request.
    pub fn set_enabled(&mut self, section: &str, id: &str, enabled: bool) -> (r: bool)
        ensures
            r == (flag_enabled(section_flags(old(self)@, section@), id@) != enabled),
            final(self)@ == old(self)@.insert(
                section@,
                flags_after_set(section_flags(old(self)@, section@), id@, enabled),
            ),
    {
        let ghost before = self@;
        let mut entries = match self.sections.remove(section) {
            Some(e) => e,
            None => StringMap::new(),
        };
        let ghost old_flags = entries@;
        assert(old_flags == section_flags(before, section@));
        let current = match entries.get(id) {
            Some(flag) => *flag,
            None => true,
        };
        let changed = current != enabled;
        if changed {
            if enabled {
                entries.remove(id);
            } else {
                entries.insert(owned(id), false);
            }
        }
        let ghost new_flags = entries@;
        self.sections.insert(owned(section), entries);
        proof {
            assert(new_flags == flags_after_set(old_flags, id@, enabled));
            assert(self@ =~= before.insert(section@, new_flags));
        }
        changed
    }

    /// A copy of one section's flags (empty when the section does not exist).
    pub fn section_of(&self, name: &str) -> (r: StringMap<bool>)
        ensures
            r@ == section_flags(self@, name@),
    {
        match self.sections.get(name) {
            Some(entries) => entries.copied(),
            None => StringMap::new(),
        }
    }
}

/// Law: setting an item's state is observed by the next query, changes no other item, and
/// setting the same state again reports no change.
pub proof fn law_set_then_query(v: Map<Seq<char>, Map<Seq<char>, bool>>, section: Seq<char>, id: Seq<char>, other: Seq<char>, enabled: bool)
    requires
        other != id,
    ensures
        ({
            let v2 = v.insert(section, flags_after_set(section_flags(v, section), id, enabled));
            &&& flag_enabled(section_flags(v2, section), id) == enabled
            &&& flag_enabled(section_flags(v2, section), other) == flag_enabled(section_flags(v, section), other)
            &&& flags_after_set(section_flags(v2, section), id, enabled) == section_flags(v2, section)
        }),
{
}

/// Law: enabling an item leaves no entry for it, so absence stays the only way "enabled" is
/// written down.
pub proof fn law_enabled_leaves_no_entry(m: Map<Seq<char>, bool>, id: Seq<char>)
    requires
        forall|k: Seq<char>| #[trigger] m.dom().contains(k) ==> !m[k],
    ensures
        !flags_after_set(m, id, true).dom().contains(id),
        forall|k: Seq<char>| #[trigger] flags_after_set(m, id, false).dom().contains(k) ==> !flags_after_set(m, id, false)[k],
{
}

/// Schema version of the persisted document.
pub fn default_version() -> (r: u32)
    ensures
        r == 1,
{
    1
}

} // verus!
