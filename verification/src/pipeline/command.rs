//! Slash command extraction and routing.
//!
//! Inspects inbound message text for a slash command (e.g. `/rustcalc 2 + 2`) and resolves the
//! plugin that executes it from the command metadata every host reported during its handshake.
use vstd::prelude::*;

use crate::message::CommandMeta;
use crate::supervisor::ManagedHost;
use crate::text::{chars_of, compare_str, seq_lt, split_words, strs, trim, trim_bounds, words, Order};

verus! {

/// A slash command in `text`: its name and arguments.
pub open spec fn parsed_command(text: Seq<char>) -> Option<(Seq<char>, Seq<Seq<char>>)> {
    let t = trim(text);
    if t.len() > 0 && t[0] == '/' {
        let ws = words(t.drop_first());
        if ws.len() > 0 {
            Some((ws[0], ws.drop_first()))
        } else {
            None
        }
    } else {
        None
    }
}

/// Router parsing slash commands and matching them to plugin hosts.
pub struct CommandRouter;

/// Resolved target of a slash command.
pub struct MatchedCommand {
    /// Position of the host in the slice the command was resolved against.
    pub host_index: usize,
    /// Identifier of the host.
    pub host_id: String,
    /// Identifier of the plugin declaring the command.
    pub plugin_id: String,
    /// Metadata of the matched command.
    pub meta: CommandMeta,
}

/// `s` without its leading `/` characters.
pub open spec fn strip_slashes(s: Seq<char>) -> Seq<char>
    decreases s.len(),
{
    if s.len() > 0 && s[0] == '/' {
        strip_slashes(s.drop_first())
    } else {
        s
    }
}

/// Whether command `c` of plugin `p` of host `h` answers to `target`.
pub open spec fn is_candidate(hosts: Seq<ManagedHost>, target: Seq<char>, h: int, p: int, c: int) -> bool {
    &&& 0 <= h < hosts.len()
    &&& 0 <= p < hosts[h].meta@.len()
    &&& 0 <= c < hosts[h].meta@[p].commands@.len()
    &&& strip_slashes(hosts[h].meta@[p].commands@[c].name@) == target
}

/// Routing key of a candidate: command priority, host priority, host identifier.
pub open spec fn cand_key(hosts: Seq<ManagedHost>, h: int, p: int, c: int) -> (i32, i32, Seq<char>) {
    (hosts[h].meta@[p].commands@[c].priority, hosts[h].priority, hosts[h].host_id@)
}

/// Lexicographic order of routing keys (lower wins).
pub open spec fn key_lt(a: (i32, i32, Seq<char>), b: (i32, i32, Seq<char>)) -> bool {
    ||| a.0 < b.0
    ||| a.0 == b.0 && a.1 < b.1
    ||| a.0 == b.0 && a.1 == b.1 && seq_lt(a.2, b.2)
}

/// Declaration order of candidates: by host, then plugin, then command.
pub open spec fn position_before(h1: int, p1: int, c1: int, h2: int, p2: int, c2: int) -> bool {
    h1 < h2 || (h1 == h2 && (p1 < p2 || (p1 == p2 && c1 < c2)))
}

/// Whether candidate `(h, p, c)` is the one routing selects: no candidate has a smaller key, and
/// among equal keys it is declared first.
pub open spec fn is_selected(hosts: Seq<ManagedHost>, target: Seq<char>, h: int, p: int, c: int) -> bool {
    &&& is_candidate(hosts, target, h, p, c)
    &&& forall|h2: int, p2: int, c2: int| #[trigger] is_candidate(hosts, target, h2, p2, c2) ==> !key_lt(cand_key(hosts, h2, p2, c2), cand_key(hosts, h, p, c))
    &&& forall|h2: int, p2: int, c2: int| #[trigger] is_candidate(hosts, target, h2, p2, c2) && cand_key(hosts, h2, p2, c2) == cand_key(hosts, h, p, c) ==> !position_before(h2, p2, c2, h, p, c)
}

/// Whether `best` is the selected candidate among those declared before `(h, p, c)`.
pub open spec fn best_so_far(hosts: Seq<ManagedHost>, t: Seq<char>, best: Option<(usize, usize, usize)>, h: int, p: int, c: int) -> bool {
    match best {
        None => forall|h2: int, p2: int, c2: int| #[trigger] is_candidate(hosts, t, h2, p2, c2) ==> !position_before(h2, p2, c2, h, p, c),
        Some((bh, bp, bc)) => {
            &&& is_candidate(hosts, t, bh as int, bp as int, bc as int)
            &&& position_before(bh as int, bp as int, bc as int, h, p, c)
            &&& forall|h2: int, p2: int, c2: int| #[trigger] is_candidate(hosts, t, h2, p2, c2) && position_before(h2, p2, c2, h, p, c) ==>
                !key_lt(cand_key(hosts, h2, p2, c2), cand_key(hosts, bh as int, bp as int, bc as int))
                && (cand_key(hosts, h2, p2, c2) == cand_key(hosts, bh as int, bp as int, bc as int) ==> !position_before(h2, p2, c2, bh as int, bp as int, bc as int))
        },
    }
}

proof fn lemma_key_lt_transitive(a: (i32, i32, Seq<char>), b: (i32, i32, Seq<char>), c: (i32, i32, Seq<char>))
    requires
        key_lt(a, b),
        key_lt(b, c),
    ensures
        key_lt(a, c),
{
    if a.0 == b.0 && b.0 == c.0 && a.1 == b.1 && b.1 == c.1 {
        crate::text::lemma_seq_lt_transitive(a.2, b.2, c.2);
    }
}

proof fn lemma_key_lt_total(a: (i32, i32, Seq<char>), b: (i32, i32, Seq<char>))
    ensures
        a == b || key_lt(a, b) || key_lt(b, a),
{
    crate::text::lemma_seq_lt_total(a.2, b.2);
}

proof fn lemma_key_lt_asymmetric(a: (i32, i32, Seq<char>), b: (i32, i32, Seq<char>))
    requires
        key_lt(a, b),
    ensures
        !key_lt(b, a),
        a != b,
{
    if a.0 == b.0 && a.1 == b.1 {
        crate::text::lemma_seq_lt_asymmetric(a.2, b.2);
        crate::text::lemma_seq_lt_irreflexive(a.2);
    }
}

/// Visiting candidate `(h, p, c)` moves the selection one position further.
proof fn lemma_visit(hosts: Seq<ManagedHost>, t: Seq<char>, best: Option<(usize, usize, usize)>, hu: usize, pu: usize, cu: usize, replace: bool)
    requires
        best_so_far(hosts, t, best, hu as int, pu as int, cu as int),
        is_candidate(hosts, t, hu as int, pu as int, cu as int),
        best is None ==> replace,
        best matches Some((bh, bp, bc)) ==> replace == key_lt(cand_key(hosts, hu as int, pu as int, cu as int), cand_key(hosts, bh as int, bp as int, bc as int)),
    ensures
        replace ==> best_so_far(hosts, t, Some((hu, pu, cu)), hu as int, pu as int, cu + 1),
        !replace ==> best_so_far(hosts, t, best, hu as int, pu as int, cu + 1),
{
    let h = hu as int;
    let p = pu as int;
    let c = cu as int;
    let kn = cand_key(hosts, h, p, c);
    if best is None {
        assert forall|h2: int, p2: int, c2: int| #[trigger] is_candidate(hosts, t, h2, p2, c2) && position_before(h2, p2, c2, h, p, c + 1) implies
            !key_lt(cand_key(hosts, h2, p2, c2), kn) && (cand_key(hosts, h2, p2, c2) == kn ==> !position_before(h2, p2, c2, h, p, c)) by {
            if !position_before(h2, p2, c2, h, p, c) {
                assert(h2 == h && p2 == p && c2 == c);
                if key_lt(kn, kn) {
                    lemma_key_lt_asymmetric(kn, kn);
                }
            }
        }
    } else {
        let (bh, bp, bc) = best->0;
        let kb = cand_key(hosts, bh as int, bp as int, bc as int);
        if replace {
            lemma_key_lt_asymmetric(kn, kb);
            assert forall|h2: int, p2: int, c2: int| #[trigger] is_candidate(hosts, t, h2, p2, c2) && position_before(h2, p2, c2, h, p, c + 1) implies
                !key_lt(cand_key(hosts, h2, p2, c2), kn) && (cand_key(hosts, h2, p2, c2) == kn ==> !position_before(h2, p2, c2, h, p, c)) by {
                let ke = cand_key(hosts, h2, p2, c2);
                if position_before(h2, p2, c2, h, p, c) {
                    if key_lt(ke, kn) {
                        lemma_key_lt_transitive(ke, kn, kb);
                    }
                    if ke == kn {
                    }
                } else {
                    assert(h2 == h && p2 == p && c2 == c);
                    if key_lt(kn, kn) {
                        lemma_key_lt_asymmetric(kn, kn);
                    }
                }
            }
        } else {
            assert forall|h2: int, p2: int, c2: int| #[trigger] is_candidate(hosts, t, h2, p2, c2) && position_before(h2, p2, c2, h, p, c + 1) implies
                !key_lt(cand_key(hosts, h2, p2, c2), kb) && (cand_key(hosts, h2, p2, c2) == kb ==> !position_before(h2, p2, c2, bh as int, bp as int, bc as int)) by {
                if !position_before(h2, p2, c2, h, p, c) {
                    assert(h2 == h && p2 == p && c2 == c);
                }
            }
        }
    }
}

/// Positions past the last command of a plugin are equivalent to the start of the next plugin.
proof fn lemma_next_plugin(hosts: Seq<ManagedHost>, t: Seq<char>, best: Option<(usize, usize, usize)>, h: int, p: int)
    requires
        0 <= h < hosts.len() && 0 <= p < hosts[h].meta@.len(),
        best_so_far(hosts, t, best, h, p, hosts[h].meta@[p].commands@.len() as int),
    ensures
        best_so_far(hosts, t, best, h, p + 1, 0),
{
}

/// Positions past the last plugin of a host are equivalent to the start of the next host.
proof fn lemma_next_host(hosts: Seq<ManagedHost>, t: Seq<char>, best: Option<(usize, usize, usize)>, h: int)
    requires
        0 <= h < hosts.len(),
        best_so_far(hosts, t, best, h, hosts[h].meta@.len() as int, 0),
    ensures
        best_so_far(hosts, t, best, h + 1, 0, 0),
{
}

fn strip_leading_slashes(s: &str) -> (r: String)
    ensures
        r@ == strip_slashes(s@),
{
    let v = chars_of(s);
    let n = v.len();
    let mut a: usize = 0;
    assert(v@.skip(0) =~= v@);
    while a < n && v[a] == '/'
        invariant
            a <= n == v@.len(),
            strip_slashes(v@.skip(a as int)) == strip_slashes(v@),
        decreases n - a,
    {
        assert(v@.skip(a as int).drop_first() =~= v@.skip(a + 1));
        a = a + 1;
    }
    assert(v@.subrange(a as int, n as int) =~= v@.skip(a as int));
    crate::text::string_of_range(v.as_slice(), a, n)
}

fn candidate_before(hosts: &[ManagedHost], h1: usize, p1: usize, c1: usize, h2: usize, p2: usize, c2: usize) -> (r: bool)
    requires
        h1 < hosts@.len() && p1 < hosts@[h1 as int].meta@.len() && c1 < hosts@[h1 as int].meta@[p1 as int].commands@.len(),
        h2 < hosts@.len() && p2 < hosts@[h2 as int].meta@.len() && c2 < hosts@[h2 as int].meta@[p2 as int].commands@.len(),
    ensures
        r == key_lt(cand_key(hosts@, h1 as int, p1 as int, c1 as int), cand_key(hosts@, h2 as int, p2 as int, c2 as int)),
{
    let a = hosts[h1].meta[p1].commands[c1].priority;
    let b = hosts[h2].meta[p2].commands[c2].priority;
    if a != b {
        return a < b;
    }
    let ha = hosts[h1].priority;
    let hb = hosts[h2].priority;
    if ha != hb {
        return ha < hb;
    }
    match compare_str(hosts[h1].host_id.as_str(), hosts[h2].host_id.as_str()) {
        Order::Less => true,
        _ => false,
    }
}

impl CommandRouter {
    /// Parses text into a slash command name and its arguments.
    ///
    /// Returns `Some((name, arguments))` when the trimmed text starts with `/` followed by at
    /// least one word, `None` for plain conversation or an empty command.
    pub fn parse_command(text: &str) -> (r: Option<(String, Vec<String>)>)
        ensures
            match parsed_command(text@) {
                Some((name, args)) => r matches Some((n, a)) && n@ == name && strs(a@) == args,
                None => r is None,
            },
    {
        let v = chars_of(text);
        let (a, b) = trim_bounds(v.as_slice());
        if a == b || v[a] != '/' {
            return None;
        }
        let body = crate::text::string_of_range(v.as_slice(), a + 1, b);
        let bv = chars_of(body.as_str());
        proof {
            let t = trim(text@);
            assert(t == v@.subrange(a as int, b as int));
            assert(t.drop_first() =~= bv@);
        }
        let mut ws = split_words(bv.as_slice());
        if ws.len() == 0 {
            return None;
        }
        let ghost all = strs(ws@);
        let name = ws.remove(0);
        assert(strs(ws@) =~= all.drop_first());
        Some((name, ws))
    }

    /// Resolves a command name (leading `/` ignored) to the plugin that executes it.
    ///
    /// When several plugins declare the command, the lowest command priority wins, then the
    /// lowest host priority, then the smallest host identifier, then declaration order.
    pub fn resolve(command_name: &str, hosts: &[ManagedHost]) -> (r: Option<MatchedCommand>)
        ensures
            r is None <==> !exists|h: int, p: int, c: int| is_candidate(hosts@, strip_slashes(command_name@), h, p, c),
            r matches Some(m) ==> exists|h: int, p: int, c: int|
                #![trigger is_candidate(hosts@, strip_slashes(command_name@), h, p, c)]
                is_selected(hosts@, strip_slashes(command_name@), h, p, c) && m.host_index == h
                    && m.host_id@ == hosts@[h].host_id@ && m.plugin_id@ == hosts@[h].meta@[p].id@
                    && m.meta == hosts@[h].meta@[p].commands@[c],
    {
        let target = strip_leading_slashes(command_name);
        let ghost t = target@;
        let mut best: Option<(usize, usize, usize)> = None;
        let nh = hosts.len();
        for h in 0..nh
            invariant
                nh == hosts@.len(),
                t == strip_slashes(command_name@),
                t == target@,
                best_so_far(hosts@, t, best, h as int, 0, 0),
        {
            let np = hosts[h].meta.len();
            for p in 0..np
                invariant
                    nh == hosts@.len(),
                    h < nh,
                    np == hosts@[h as int].meta@.len(),
                    t == strip_slashes(command_name@),
                    t == target@,
                    best_so_far(hosts@, t, best, h as int, p as int, 0),
            {
                let nc = hosts[h].meta[p].commands.len();
                for c in 0..nc
                    invariant
                        nh == hosts@.len(),
                        h < nh,
                        np == hosts@[h as int].meta@.len(),
                        p < np,
                        nc == hosts@[h as int].meta@[p as int].commands@.len(),
                        t == strip_slashes(command_name@),
                        t == target@,
                        best_so_far(hosts@, t, best, h as int, p as int, c as int),
                {
                    let stripped = strip_leading_slashes(hosts[h].meta[p].commands[c].name.as_str());
                    if crate::text::str_equal(stripped.as_str(), target.as_str()) {
                        let replace = match best {
                            None => true,
                            Some((bh, bp, bc)) => candidate_before(hosts, h, p, c, bh, bp, bc),
                        };
                        proof {
                            lemma_visit(hosts@, t, best, h, p, c, replace);
                        }
                        if replace {
                            best = Some((h, p, c));
                        }
                    } else {
                        proof {
                            assert(!is_candidate(hosts@, t, h as int, p as int, c as int));
                            assert(best_so_far(hosts@, t, best, h as int, p as int, c + 1));
                        }
                    }
                }
                proof {
                    lemma_next_plugin(hosts@, t, best, h as int, p as int);
                }
            }
            proof {
                lemma_next_host(hosts@, t, best, h as int);
            }
        }
        match best {
            None => {
                proof {
                    assert forall|h2: int, p2: int, c2: int| !is_candidate(hosts@, t, h2, p2, c2) by {
                        if is_candidate(hosts@, t, h2, p2, c2) {
                            assert(!position_before(h2, p2, c2, nh as int, 0, 0));
                        }
                    }
                }
                None
            },
            Some((bh, bp, bc)) => {
                let cmd = &hosts[bh].meta[bp].commands[bc];
                let m = MatchedCommand {
                    host_index: bh,
                    host_id: hosts[bh].host_id.clone(),
                    plugin_id: hosts[bh].meta[bp].id.clone(),
                    meta: CommandMeta {
                        name: cmd.name.clone(),
                        description: cmd.description.clone(),
                        usage: cmd.usage.clone(),
                        priority: cmd.priority,
                    },
                };
                proof {
                    assert forall|h2: int, p2: int, c2: int| #[trigger] is_candidate(hosts@, t, h2, p2, c2) implies position_before(h2, p2, c2, nh as int, 0, 0) by {}
                    assert(is_selected(hosts@, t, bh as int, bp as int, bc as int));
                }
                Some(m)
            },
        }
    }
}

} // verus!
