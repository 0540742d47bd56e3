//! Project scaffolding: plugin name rules, identifier casing and language selection.
//!
//! Writing the starter files of a new plugin project is the caller's I/O; the names they are
//! built from are decided here.
use vstd::prelude::*;

use crate::dev::lint::{is_alphanumeric, unicode_alphanumeric};
use crate::text::{chars_of, owned, push_char, push_str, spec_to_lowercase, str_equal};

verus! {

/// Errors raised while scaffolding a project.
#[derive(Debug)]
pub enum ScaffoldError {
    /// Creating the directory or writing a file failed.
    Io(String),
    /// The requested language is not supported.
    UnsupportedLanguage(String),
    /// The plugin name is not an identifier.
    InvalidPluginName(String),
    /// The target directory exists and is not empty.
    DirectoryNotEmpty(String),
}

/// Languages a project can be scaffolded in.
#[derive(Debug, Clone, Copy, PartialEq, Eq, Structural)]
pub enum ScaffoldLanguage {
    /// A native Rust plugin.
    Rust,
    /// A Python plugin.
    Python,
    /// A TypeScript plugin.
    TypeScript,
}

/// Characters allowed in a plugin name.
pub open spec fn name_char(c: char) -> bool {
    unicode_alphanumeric(c) || c == '_' || c == '-'
}

/// Checks that a plugin name is a non-empty identifier of letters, digits, `_` and `-`.
pub fn validate_plugin_name(name: &str) -> (r: Result<(), ScaffoldError>)
    ensures
        (name@.len() > 0 && forall|i: int| 0 <= i < name@.len() ==> name_char(#[trigger] name@[i])) ==> r is Ok,
        !(name@.len() > 0 && forall|i: int| 0 <= i < name@.len() ==> name_char(#[trigger] name@[i])) ==>
            (r matches Err(ScaffoldError::InvalidPluginName(n)) && n@ == name@),
{
    let v = chars_of(name);
    if v.len() == 0 {
        return Err(ScaffoldError::InvalidPluginName(owned(name)));
    }
    for i in 0..v.len()
        invariant
            v@ == name@,
            forall|j: int| 0 <= j < i ==> name_char(#[trigger] name@[j]),
    {
        let c = v[i];
        if !(is_alphanumeric(c) || c == '_' || c == '-') {
            assert(!name_char(name@[i as int]));
            return Err(ScaffoldError::InvalidPluginName(owned(name)));
        }
    }
    Ok(())
}

/// `s` with `-` replaced by `_`.
pub open spec fn dashes_to_underscores(s: Seq<char>) -> Seq<char> {
    Seq::new(s.len(), |i: int| if s[i] == '-' { '_' } else { s[i] })
}

/// Converts a name to snake_case for plugin identifiers and package names: `-` becomes `_`,
/// then the result is lowercased.
pub fn to_snake_case(s: &str) -> (r: String)
    ensures
        r@ == spec_to_lowercase(dashes_to_underscores(s@)),
{
    let v = chars_of(s);
    let mut t = String::new();
    for i in 0..v.len()
        invariant
            v@ == s@,
            t@ == dashes_to_underscores(s@).take(i as int),
    {
        if v[i] == '-' {
            push_char(&mut t, '_');
        } else {
            push_char(&mut t, v[i]);
        }
        assert(t@ =~= dashes_to_underscores(s@).take(i + 1));
    }
    assert(dashes_to_underscores(s@).take(v@.len() as int) =~= dashes_to_underscores(s@));
    crate::text::to_lowercase(t.as_str())
}

/// Uppercase mapping of a character (`char::to_uppercase`), possibly several characters.
pub uninterp spec fn char_uppercase(c: char) -> Seq<char>;

/// The uppercase form of `c` (`char::to_uppercase`).
#[verifier::external_body]
fn uppercase_of(c: char) -> (r: String)
    ensures
        r@ == char_uppercase(c),
{
    c.to_uppercase().collect::<String>()
}

/// PascalCase of `s`: `_` and `-` are dropped and start a new word, whose first character is
/// uppercased.
pub open spec fn pascal_state(s: Seq<char>) -> (Seq<char>, bool)
    decreases s.len(),
{
    if s.len() == 0 {
        (Seq::empty(), true)
    } else {
        let (out, cap) = pascal_state(s.drop_last());
        let c = s.last();
        if c == '_' || c == '-' {
            (out, true)
        } else if cap {
            (out + char_uppercase(c), false)
        } else {
            (out.push(c), false)
        }
    }
}

/// Converts a name to PascalCase for class and struct names.
pub fn to_pascal_case(s: &str) -> (r: String)
    ensures
        r@ == pascal_state(s@).0,
{
    let v = chars_of(s);
    let mut out = String::new();
    let mut cap = true;
    for i in 0..v.len()
        invariant
            v@ == s@,
            (out@, cap) == pascal_state(s@.take(i as int)),
    {
        proof {
            assert(s@.take(i + 1).drop_last() =~= s@.take(i as int));
        }
        let c = v[i];
        if c == '_' || c == '-' {
            cap = true;
        } else if cap {
            let u = uppercase_of(c);
            push_str(&mut out, u.as_str());
            cap = false;
        } else {
            push_char(&mut out, c);
            cap = false;
        }
    }
    assert(s@.take(v@.len() as int) =~= s@);
    out
}

/// Language named by `lang` (case-insensitive): `rust`, `python`/`py`, `typescript`/`ts`.
pub fn scaffold_language(lang: &str) -> (r: Result<ScaffoldLanguage, ScaffoldError>)
    ensures
        ({
            let n = spec_to_lowercase(lang@);
            &&& n == "rust"@ ==> r == Ok::<ScaffoldLanguage, ScaffoldError>(ScaffoldLanguage::Rust)
            &&& (n == "python"@ || n == "py"@) ==> r == Ok::<ScaffoldLanguage, ScaffoldError>(ScaffoldLanguage::Python)
            &&& (n == "typescript"@ || n == "ts"@) ==> r == Ok::<ScaffoldLanguage, ScaffoldError>(ScaffoldLanguage::TypeScript)
            &&& !(n == "rust"@ || n == "python"@ || n == "py"@ || n == "typescript"@ || n == "ts"@) ==>
                (r matches Err(ScaffoldError::UnsupportedLanguage(l)) && l@ == lang@)
        }),
{
    proof {
        reveal_strlit("rust");
        reveal_strlit("python");
        reveal_strlit("py");
        reveal_strlit("typescript");
        reveal_strlit("ts");
        assert("rust"@.len() == 4 && "python"@.len() == 6 && "py"@.len() == 2 && "typescript"@.len() == 10 && "ts"@.len() == 2);
        assert("rust"@ != "python"@ && "rust"@ != "py"@ && "rust"@ != "typescript"@ && "rust"@ != "ts"@);
        assert("py"@[0] != "ts"@[0]);
        assert("python"@ != "typescript"@ && "python"@ != "ts"@ && "py"@ != "typescript"@ && "py"@ != "ts"@);
    }
    let n = crate::text::to_lowercase(lang);
    let s = n.as_str();
    if str_equal(s, "rust") {
        Ok(ScaffoldLanguage::Rust)
    } else if str_equal(s, "python") || str_equal(s, "py") {
        Ok(ScaffoldLanguage::Python)
    } else if str_equal(s, "typescript") || str_equal(s, "ts") {
        Ok(ScaffoldLanguage::TypeScript)
    } else {
        Err(ScaffoldError::UnsupportedLanguage(owned(lang)))
    }
}

/// Directory a project is created in: the given output directory, else one named after the
/// plugin.
pub fn scaffold_target(name: &str, output_dir: Option<&str>) -> (r: String)
    ensures
        r@ == match output_dir {
            Some(d) => d@,
            None => name@,
        },
{
    match output_dir {
        Some(d) => owned(d),
        None => owned(name),
    }
}

} // verus!
