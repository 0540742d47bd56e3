//! Plugin distribution bundles (`.kpk`).
//!
//! A bundle is a ZIP archive of the plugin directory without development artifacts (`target/`,
//! `.git/`, `node_modules/`, `__pycache__/`, ...), accompanied by `<bundle>.kpk.sha256` holding
//! its SHA-256 digest. This module decides which files go in, names the outputs and computes
//! the digest; walking directories and writing the archive is the caller's I/O.
use vstd::prelude::*;

use crate::dev::lint::{LintError, LintReport};
use crate::text::{chars_of, joined_path, owned, push_char, push_str, split_char, split_on, str_equal, strs};

verus! {

/// Errors raised while packaging a plugin.
#[derive(Debug)]
pub enum PackError {
    /// File I/O failed.
    Io(String),
    /// The manifest has lint errors (their number).
    ValidationFailed(usize),
    /// The manifest could not be linted.
    Lint(LintError),
    /// The archive could not be written.
    Zip(String),
}

/// Outcome of a successful packaging.
pub struct PackReport {
    /// Path of the `.kpk` bundle.
    pub bundle_path: String,
    /// Path of the `.sha256` checksum file.
    pub checksum_path: String,
    /// Hex-encoded SHA-256 digest of the bundle.
    pub sha256_hex: String,
    /// Number of files in the archive.
    pub file_count: usize,
    /// Size of the bundle in bytes.
    pub bundle_size_bytes: u64,
    /// The lint report of the manifest.
    pub lint_report: LintReport,
}

/// Where a bundle and its checksum go.
pub struct PackTargets {
    /// Directory receiving the outputs.
    pub out_dir: String,
    /// File name of the bundle (`<plugin id>.kpk`).
    pub archive_name: String,
    /// Path of the bundle.
    pub bundle_path: String,
    /// Path of the checksum file.
    pub checksum_path: String,
}

impl PackError {
    /// Human-readable message for a failed validation.
    pub fn validation_message(count: usize) -> (r: String)
        ensures
            r@ == "Plugin manifest validation failed with "@ + crate::text::decimal(count as nat)
                + " error(s). Run 'kanon-dev lint' for details."@,
    {
        let mut s = owned("Plugin manifest validation failed with ");
        crate::text::push_decimal(&mut s, count as u64);
        push_str(&mut s, " error(s). Run 'kanon-dev lint' for details.");
        s
    }
}

// ---------------------------------------------------------------------------------------------
// Selection
// ---------------------------------------------------------------------------------------------

/// Directories never packaged.
pub open spec fn excluded_dir(seg: Seq<char>) -> bool {
    ||| seg == ".git"@
    ||| seg == "target"@
    ||| seg == "node_modules"@
    ||| seg == "__pycache__"@
    ||| seg == ".venv"@
    ||| seg == "venv"@
    ||| seg == ".idea"@
    ||| seg == ".vscode"@
}

/// Extensions never packaged.
pub open spec fn excluded_ext(e: Seq<char>) -> bool {
    ||| e == "pyc"@
    ||| e == "pyo"@
    ||| e == "sock"@
    ||| e == "kpk"@
    ||| e == "sha256"@
    ||| e == "log"@
}

/// Final name of a path given as its `/`-separated segments (`Path::file_name`): empty and `.`
/// segments are skipped, `..` has none.
pub open spec fn last_name(segs: Seq<Seq<char>>) -> Option<Seq<char>>
    decreases segs.len(),
{
    if segs.len() == 0 {
        None
    } else if segs.last().len() == 0 || segs.last() == "."@ {
        last_name(segs.drop_last())
    } else if segs.last() == ".."@ {
        None
    } else {
        Some(segs.last())
    }
}

/// Position of the last `c` in `s`, or -1.
pub open spec fn last_index(s: Seq<char>, c: char) -> int
    decreases s.len(),
{
    if s.len() == 0 {
        -1
    } else if s.last() == c {
        s.len() - 1
    } else {
        last_index(s.drop_last(), c)
    }
}

/// Extension of a file name (`Path::extension`): after the last `.`, unless that dot starts
/// the name.
pub open spec fn extension_of(name: Seq<char>) -> Option<Seq<char>> {
    let i = last_index(name, '.');
    if i > 0 {
        Some(name.skip(i + 1))
    } else {
        None
    }
}

/// Whether a path relative to the plugin root goes into the bundle.
pub open spec fn included(rel: Seq<char>) -> bool {
    let segs = split_on(rel, '/');
    &&& !(exists|i: int| 0 <= i < segs.len() && excluded_dir(#[trigger] segs[i]))
    &&& !(last_name(segs) matches Some(n) && (extension_of(n) matches Some(e) && excluded_ext(e)))
    &&& !(rel.len() > 0 && (rel.last() == '~' || rel[0] == '.'))
}

/// Law: a path that passes through, or names, one of the development directories `.git`,
/// `target`, `node_modules`, `__pycache__`, `.venv`, `venv`, `.idea` or `.vscode` (a whole
/// `/`-separated component, anywhere in the path) never goes into the bundle.
pub proof fn law_development_dirs_never_packaged(before: Seq<char>, dir: Seq<char>, after: Seq<char>)
    requires
        before.len() == 0 || before.last() == '/',
        after.len() == 0 || after[0] == '/',
        dir == ".git"@ || dir == "target"@ || dir == "node_modules"@ || dir == "__pycache__"@
            || dir == ".venv"@ || dir == "venv"@ || dir == ".idea"@ || dir == ".vscode"@,
    ensures
        !included(before + dir + after),
{
    reveal_strlit(".git");
    reveal_strlit("target");
    reveal_strlit("node_modules");
    reveal_strlit("__pycache__");
    reveal_strlit(".venv");
    reveal_strlit("venv");
    reveal_strlit(".idea");
    reveal_strlit(".vscode");
    assert(!dir.contains('/'));
    crate::text::lemma_split_on_contains_piece(before, dir, after, '/');
    let segs = split_on(before + dir + after, '/');
    let i = choose|i: int| 0 <= i < segs.len() && segs[i] == dir;
    assert(excluded_dir(segs[i]));
}

fn is_excluded_dir(seg: &str) -> (r: bool)
    ensures
        r == excluded_dir(seg@),
{
    str_equal(seg, ".git") || str_equal(seg, "target") || str_equal(seg, "node_modules") || str_equal(seg, "__pycache__")
        || str_equal(seg, ".venv") || str_equal(seg, "venv") || str_equal(seg, ".idea") || str_equal(seg, ".vscode")
}

fn is_excluded_ext(e: &str) -> (r: bool)
    ensures
        r == excluded_ext(e@),
{
    str_equal(e, "pyc") || str_equal(e, "pyo") || str_equal(e, "sock") || str_equal(e, "kpk") || str_equal(e, "sha256")
        || str_equal(e, "log")
}

fn file_name_of(segs: &Vec<String>) -> (r: Option<usize>)
    ensures
        match last_name(strs(segs@)) {
            Some(n) => r matches Some(i) && i < segs@.len() && segs@[i as int]@ == n,
            None => r is None,
        },
{
    let ghost ss = strs(segs@);
    let mut k = segs.len();
    assert(ss.take(k as int) =~= ss);
    while k > 0
        invariant
            k <= segs@.len(),
            ss == strs(segs@),
            last_name(ss) == last_name(ss.take(k as int)),
        decreases k,
    {
        proof {
            reveal_strlit(".");
            reveal_strlit("..");
            assert(ss.take(k as int).drop_last() =~= ss.take(k - 1));
            assert(ss.take(k as int).last() == segs@[k - 1]@);
        }
        let s = segs[k - 1].as_str();
        if s.is_empty() || str_equal(s, ".") {
            k = k - 1;
        } else if str_equal(s, "..") {
            return None;
        } else {
            return Some(k - 1);
        }
    }
    assert(ss.take(0) =~= Seq::<Seq<char>>::empty());
    None
}

fn last_dot(v: &Vec<char>) -> (r: usize)
    ensures
        r as int == last_index(v@, '.') + 1,
        r <= v@.len(),
{
    let mut k = v.len();
    assert(v@.take(k as int) =~= v@);
    while k > 0 && v[k - 1] != '.'
        invariant
            k <= v@.len(),
            last_index(v@, '.') == last_index(v@.take(k as int), '.'),
        decreases k,
    {
        assert(v@.take(k as int).drop_last() =~= v@.take(k - 1));
        k = k - 1;
    }
    if k == 0 {
        assert(v@.take(0) =~= Seq::<char>::empty());
    }
    k
}

/// Whether the file or directory at `rel_path` (relative to the plugin root) is packaged: no
/// segment is an excluded directory, the extension is not an excluded one, and the path
/// neither ends with `~` nor starts with `.`.
pub fn should_include_path(rel_path: &str) -> (r: bool)
    ensures
        r == included(rel_path@),
{
    let segs = split_char(rel_path, '/');
    let ghost ss = strs(segs@);
    for i in 0..segs.len()
        invariant
            ss == strs(segs@),
            ss == split_on(rel_path@, '/'),
            forall|j: int| 0 <= j < i ==> !excluded_dir(#[trigger] ss[j]),
    {
        if is_excluded_dir(segs[i].as_str()) {
            assert(excluded_dir(ss[i as int]));
            return false;
        }
    }
    match file_name_of(&segs) {
        Some(i) => {
            let name = chars_of(segs[i].as_str());
            let d = last_dot(&name);
            if d > 1 {
                let ext = crate::text::string_of_range(name.as_slice(), d, name.len());
                assert(ext@ =~= name@.skip(d as int));
                if is_excluded_ext(ext.as_str()) {
                    return false;
                }
            }
        },
        None => {},
    }
    let v = chars_of(rel_path);
    !(v.len() > 0 && (v[v.len() - 1] == '~' || v[0] == '.'))
}

/// Name of a file inside the archive: `\` separators turned into `/`.
pub open spec fn zip_name(rel: Seq<char>) -> Seq<char> {
    Seq::new(rel.len(), |i: int| if rel[i] == '\\' { '/' } else { rel[i] })
}

/// Name under which a relative path is stored in the archive.
pub fn zip_entry_name(rel_path: &str) -> (r: String)
    ensures
        r@ == zip_name(rel_path@),
{
    let v = chars_of(rel_path);
    let mut r = String::new();
    for i in 0..v.len()
        invariant
            v@ == rel_path@,
            r@ == zip_name(rel_path@).take(i as int),
    {
        if v[i] == '\\' {
            push_char(&mut r, '/');
        } else {
            push_char(&mut r, v[i]);
        }
        assert(r@ =~= zip_name(rel_path@).take(i + 1));
    }
    assert(zip_name(rel_path@).take(v@.len() as int) =~= zip_name(rel_path@));
    r
}

// ---------------------------------------------------------------------------------------------
// Outputs
// ---------------------------------------------------------------------------------------------

/// File name of the bundle of plugin `plugin_id` (`plugin` when unknown).
pub open spec fn archive_file_name(plugin_id: Option<Seq<char>>) -> Seq<char> {
    match plugin_id {
        Some(id) => id + ".kpk"@,
        None => "plugin.kpk"@,
    }
}

/// Decides where the bundle of a linted plugin goes; refused when the manifest has errors.
pub fn pack_targets(report: &LintReport, output_dir: Option<&str>) -> (r: Result<PackTargets, PackError>)
    ensures
        report.errors@.len() > 0 ==> (r matches Err(PackError::ValidationFailed(n)) && n == report.errors@.len()),
        report.errors@.len() == 0 ==> (r matches Ok(t) && {
            let out = match output_dir {
                Some(d) => d@,
                None => report.plugin_root@,
            };
            let name = archive_file_name(crate::text::opt_str(report.plugin_id));
            &&& t.out_dir@ == out
            &&& t.archive_name@ == name
            &&& t.bundle_path@ == joined_path(out, name)
            &&& t.checksum_path@ == joined_path(out, name + ".sha256"@)
        }),
{
    if !report.is_valid() {
        return Err(PackError::ValidationFailed(report.errors.len()));
    }
    let out_dir = match output_dir {
        Some(d) => owned(d),
        None => report.plugin_root.clone(),
    };
    let mut archive_name = match &report.plugin_id {
        Some(id) => id.clone(),
        None => owned("plugin"),
    };
    push_str(&mut archive_name, ".kpk");
    proof {
        reveal_strlit("plugin.kpk");
        reveal_strlit("plugin");
        reveal_strlit(".kpk");
        assert(archive_name@ =~= archive_file_name(crate::text::opt_str(report.plugin_id)));
    }
    let bundle_path = crate::text::join_path(out_dir.as_str(), archive_name.as_str());
    let mut checksum_name = archive_name.clone();
    push_str(&mut checksum_name, ".sha256");
    let checksum_path = crate::text::join_path(out_dir.as_str(), checksum_name.as_str());
    Ok(PackTargets { out_dir, archive_name, bundle_path, checksum_path })
}

// ---------------------------------------------------------------------------------------------
// Digest
// ---------------------------------------------------------------------------------------------

/// SHA-256 digest of a byte string.
pub uninterp spec fn sha256_of(data: Seq<u8>) -> Seq<u8>;

/// SHA-256 digest of `data` (`ring::digest::digest` with `SHA256`). The call panics for inputs
/// of 2^61 bytes or more (their bit length overflows), hence the bound; the digest of SHA-256
/// is 32 bytes long.
#[verifier::external_body]
fn sha256(data: &[u8]) -> (r: Vec<u8>)
    requires
        data@.len() < 0x2000_0000_0000_0000,
    ensures
        r@ == sha256_of(data@),
        r@.len() == 32,
{
    ring::digest::digest(&ring::digest::SHA256, data).as_ref().to_vec()
}

/// Lowercase hexadecimal digit.
pub open spec fn hex_digit(d: int) -> char {
    if d < 10 {
        ((d + 48) as u32) as char
    } else {
        ((d + 87) as u32) as char
    }
}

/// Lowercase hexadecimal rendering of bytes, two digits per byte (`format!("{:02x}")`).
pub open spec fn hex_of(bytes: Seq<u8>) -> Seq<char>
    decreases bytes.len(),
{
    if bytes.len() == 0 {
        Seq::empty()
    } else {
        hex_of(bytes.drop_last()) + seq![hex_digit(bytes.last() as int / 16), hex_digit(bytes.last() as int % 16)]
    }
}

fn hex_char(d: u8) -> (c: char)
    requires
        d < 16,
    ensures
        c == hex_digit(d as int),
{
    let table = chars_of("0123456789abcdef");
    proof {
        reveal_strlit("0123456789abcdef");
    }
    let c = table[d as usize];
    assert(c == hex_digit(d as int)) by {
        assert(table@[d as int] == "0123456789abcdef"@[d as int]);
    }
    c
}

/// Lowercase hexadecimal rendering of `bytes`.
pub fn hex_lower(bytes: &[u8]) -> (r: String)
    ensures
        r@ == hex_of(bytes@),
{
    let mut r = String::new();
    for i in 0..bytes.len()
        invariant
            r@ == hex_of(bytes@.take(i as int)),
    {
        let b = bytes[i];
        push_char(&mut r, hex_char(b / 16));
        push_char(&mut r, hex_char(b % 16));
        proof {
            assert(bytes@.take(i + 1).drop_last() =~= bytes@.take(i as int));
            assert(r@ =~= hex_of(bytes@.take(i + 1)));
        }
    }
    assert(bytes@.take(bytes@.len() as int) =~= bytes@);
    r
}

/// Hex-encoded SHA-256 digest of a bundle.
pub fn bundle_digest(bundle: &[u8]) -> (r: String)
    requires
        bundle@.len() < 0x2000_0000_0000_0000,
    ensures
        r@ == hex_of(sha256_of(bundle@)),
        r@.len() == 64,
{
    let d = sha256(bundle);
    let r = hex_lower(d.as_slice());
    proof {
        lemma_hex_len(d@);
    }
    r
}

proof fn lemma_hex_len(b: Seq<u8>)
    ensures
        hex_of(b).len() == 2 * b.len(),
    decreases b.len(),
{
    if b.len() > 0 {
        lemma_hex_len(b.drop_last());
    }
}

/// Contents of the checksum file: `<digest>  <archive name>` and a newline.
pub fn checksum_line(sha256_hex: &str, archive_name: &str) -> (r: String)
    ensures
        r@ == sha256_hex@ + "  "@ + archive_name@ + "\n"@,
{
    let mut r = owned(sha256_hex);
    push_str(&mut r, "  ");
    push_str(&mut r, archive_name);
    push_str(&mut r, "\n");
    r
}

} // verus!
