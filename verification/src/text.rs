//! Character-level text helpers shared by the whole library.
//!
//! Every helper works on the character sequence of a string (`s@`), which is how the rest of the
//! library states its contracts: trimming follows Unicode `White_Space` exactly as `str::trim`
//! does, and ordering of identifiers is the code-point lexicographic order that `String`'s `Ord`
//! produces (UTF-8 byte order and code-point order coincide).
use vstd::prelude::*;
use vstd::string::StringExecFns;

verus! {

// ---------------------------------------------------------------------------------------------
// Character classes
// ---------------------------------------------------------------------------------------------

/// Unicode `White_Space`, the set `char::is_whitespace` tests.
pub open spec fn is_ws(c: char) -> bool {
    let u = c as u32;
    ||| 0x09 <= u <= 0x0D
    ||| u == 0x20
    ||| u == 0x85
    ||| u == 0xA0
    ||| u == 0x1680
    ||| 0x2000 <= u <= 0x200A
    ||| u == 0x2028
    ||| u == 0x2029
    ||| u == 0x202F
    ||| u == 0x205F
    ||| u == 0x3000
}

/// ASCII letter or digit.
pub open spec fn is_ascii_alnum(c: char) -> bool {
    let u = c as u32;
    ||| 0x30 <= u <= 0x39
    ||| 0x41 <= u <= 0x5A
    ||| 0x61 <= u <= 0x7A
}

/// ASCII lowercase letter.
pub open spec fn is_ascii_lower(c: char) -> bool {
    0x61 <= (c as u32) <= 0x7A
}

/// ASCII decimal digit.
pub open spec fn is_ascii_digit(c: char) -> bool {
    0x30 <= (c as u32) <= 0x39
}

/// Whether `c` is a whitespace character (`char::is_whitespace`).
pub fn is_whitespace(c: char) -> (b: bool)
    ensures
        b == is_ws(c),
{
    let u = c as u32;
    (0x09 <= u && u <= 0x0D) || u == 0x20 || u == 0x85 || u == 0xA0 || u == 0x1680 || (0x2000
        <= u && u <= 0x200A) || u == 0x2028 || u == 0x2029 || u == 0x202F || u == 0x205F || u
        == 0x3000
}

/// Whether `c` is an ASCII letter or digit (`char::is_ascii_alphanumeric`).
pub fn is_ascii_alphanumeric(c: char) -> (b: bool)
    ensures
        b == is_ascii_alnum(c),
{
    let u = c as u32;
    (0x30 <= u && u <= 0x39) || (0x41 <= u && u <= 0x5A) || (0x61 <= u && u <= 0x7A)
}

/// Whether `c` is an ASCII lowercase letter (`char::is_ascii_lowercase`).
pub fn is_ascii_lowercase(c: char) -> (b: bool)
    ensures
        b == is_ascii_lower(c),
{
    let u = c as u32;
    0x61 <= u && u <= 0x7A
}

/// Whether `c` is an ASCII digit (`char::is_ascii_digit`).
pub fn is_ascii_digit_char(c: char) -> (b: bool)
    ensures
        b == is_ascii_digit(c),
{
    let u = c as u32;
    0x30 <= u && u <= 0x39
}

// ---------------------------------------------------------------------------------------------
// Strings as character sequences
// ---------------------------------------------------------------------------------------------

/// Appends one character to a string (`String::push`).
#[verifier::external_body]
pub(crate) fn push_char(s: &mut String, c: char)
    ensures
        final(s)@ == old(s)@.push(c),
{
    s.push(c);
}

/// Appends a string slice to a string.
pub(crate) fn push_str(s: &mut String, t: &str)
    ensures
        final(s)@ == old(s)@ + t@,
{
    s.append(t);
}

/// Collects the characters of a string slice into a vector.
pub fn chars_of(s: &str) -> (v: Vec<char>)
    ensures
        v@ == s@,
{
    let mut v: Vec<char> = Vec::new();
    for c in it: s.chars()
        invariant
            v@ == it.seq().take(it.index() as int),
            it.seq() == s@,
    {
        v.push(c);
    }
    v
}

/// Builds a string from a slice of characters.
pub fn string_of(v: &[char]) -> (s: String)
    ensures
        s@ == v@,
{
    let mut s = String::new();
    let n = v.len();
    for i in 0..n
        invariant
            n == v@.len(),
            s@ == v@.take(i as int),
    {
        push_char(&mut s, v[i]);
        assert(v@.take(i + 1) == v@.take(i as int).push(v@[i as int]));
    }
    assert(v@.take(n as int) == v@);
    s
}

/// Builds a string from the characters `v[start..end]`.
pub fn string_of_range(v: &[char], start: usize, end: usize) -> (s: String)
    requires
        start <= end <= v@.len(),
    ensures
        s@ == v@.subrange(start as int, end as int),
{
    let mut s = String::new();
    let mut i = start;
    while i < end
        invariant
            start <= i <= end <= v@.len(),
            s@ == v@.subrange(start as int, i as int),
        decreases end - i,
    {
        push_char(&mut s, v[i]);
        assert(v@.subrange(start as int, i + 1) == v@.subrange(start as int, i as int).push(
            v@[i as int],
        ));
        i = i + 1;
    }
    s
}

/// An owned copy of a string slice.
pub fn owned(s: &str) -> (r: String)
    ensures
        r@ == s@,
{
    let mut r = String::new();
    push_str(&mut r, s);
    r
}

/// The characters of each string.
pub open spec fn strs(v: Seq<String>) -> Seq<Seq<char>> {
    Seq::new(v.len(), |i: int| v[i]@)
}

/// The characters of an optional string.
pub open spec fn opt_str(s: Option<String>) -> Option<Seq<char>> {
    match s {
        Some(t) => Some(t@),
        None => None,
    }
}

/// A copy of an optional string.
pub fn clone_opt(s: &Option<String>) -> (r: Option<String>)
    ensures
        opt_str(r) == opt_str(*s),
{
    match s {
        Some(t) => Some(t.clone()),
        None => None,
    }
}

/// A copy of a vector of strings.
pub fn clone_strings(v: &Vec<String>) -> (r: Vec<String>)
    ensures
        strs(r@) == strs(v@),
{
    let mut r: Vec<String> = Vec::new();
    let n = v.len();
    for i in 0..n
        invariant
            n == v@.len(),
            r@.len() == i,
            forall|j: int| 0 <= j < i ==> #[trigger] r@[j]@ == v@[j]@,
    {
        r.push(v[i].clone());
    }
    assert(strs(r@) =~= strs(v@));
    r
}

/// The full Unicode lowercase mapping of a string (`str::to_lowercase`).
pub uninterp spec fn spec_to_lowercase(s: Seq<char>) -> Seq<char>;

/// The full Unicode lowercase mapping of a string (`str::to_lowercase`).
#[verifier::external_body]
pub(crate) fn to_lowercase(s: &str) -> (r: String)
    ensures
        r@ == spec_to_lowercase(s@),
{
    s.to_lowercase()
}

/// Whether two character slices are equal.
pub fn chars_equal(a: &[char], b: &[char]) -> (r: bool)
    ensures
        r == (a@ == b@),
{
    if a.len() != b.len() {
        return false;
    }
    let n = a.len();
    for i in 0..n
        invariant
            n == a@.len() == b@.len(),
            forall|j: int| 0 <= j < i ==> a@[j] == b@[j],
    {
        if a[i] != b[i] {
            return false;
        }
    }
    assert(a@ =~= b@);
    true
}

/// Whether two strings hold the same characters.
pub fn str_equal(a: &str, b: &str) -> (r: bool)
    ensures
        r == (a@ == b@),
{
    let va = chars_of(a);
    let vb = chars_of(b);
    chars_equal(va.as_slice(), vb.as_slice())
}

/// Whether `p` is a prefix of `s`.
pub fn starts_with_chars(s: &[char], p: &[char]) -> (r: bool)
    ensures
        r == p@.is_prefix_of(s@),
{
    if p.len() > s.len() {
        return false;
    }
    let n = p.len();
    for i in 0..n
        invariant
            n == p@.len() <= s@.len(),
            forall|j: int| 0 <= j < i ==> p@[j] == s@[j],
    {
        if p[i] != s[i] {
            return false;
        }
    }
    true
}

/// Whether `c` occurs in `s`.
pub fn contains_char(s: &[char], c: char) -> (r: bool)
    ensures
        r == s@.contains(c),
{
    let n = s.len();
    for i in 0..n
        invariant
            n == s@.len(),
            forall|j: int| 0 <= j < i ==> s@[j] != c,
    {
        if s[i] == c {
            return true;
        }
    }
    false
}

// ---------------------------------------------------------------------------------------------
// Trimming
// ---------------------------------------------------------------------------------------------

/// `s` without its leading whitespace.
pub open spec fn trim_start(s: Seq<char>) -> Seq<char>
    decreases s.len(),
{
    if s.len() > 0 && is_ws(s[0]) {
        trim_start(s.drop_first())
    } else {
        s
    }
}

/// `s` without its trailing whitespace.
pub open spec fn trim_end(s: Seq<char>) -> Seq<char>
    decreases s.len(),
{
    if s.len() > 0 && is_ws(s.last()) {
        trim_end(s.drop_last())
    } else {
        s
    }
}

/// `s` without leading and trailing whitespace (`str::trim`).
pub open spec fn trim(s: Seq<char>) -> Seq<char> {
    trim_end(trim_start(s))
}

proof fn lemma_trim_start_skip(s: Seq<char>, a: int)
    requires
        0 <= a < s.len(),
        is_ws(s[a]),
    ensures
        trim_start(s.skip(a)) == trim_start(s.skip(a + 1)),
{
    assert(s.skip(a).drop_first() =~= s.skip(a + 1));
}

proof fn lemma_trim_end_take(s: Seq<char>, b: int)
    requires
        0 < b <= s.len(),
        is_ws(s[b - 1]),
    ensures
        trim_end(s.take(b)) == trim_end(s.take(b - 1)),
{
    assert(s.take(b).drop_last() =~= s.take(b - 1));
}

/// Bounds `(a, b)` such that `v[a..b]` is `v` trimmed.
pub fn trim_bounds(v: &[char]) -> (r: (usize, usize))
    ensures
        r.0 <= r.1 <= v@.len(),
        v@.subrange(r.0 as int, r.1 as int) == trim(v@),
{
    let n = v.len();
    let mut a: usize = 0;
    assert(v@.skip(0) =~= v@);
    while a < n && is_whitespace(v[a])
        invariant
            a <= n == v@.len(),
            trim_start(v@.skip(a as int)) == trim_start(v@),
        decreases n - a,
    {
        proof {
            lemma_trim_start_skip(v@, a as int);
        }
        a = a + 1;
    }
    let ghost rest = v@.skip(a as int);
    assert(trim_start(v@) == rest) by {
        if a < n {
            assert(rest[0] == v@[a as int]);
        } else {
            assert(rest.len() == 0);
        }
    }
    let mut b: usize = n;
    assert(rest.take(rest.len() as int) =~= rest);
    while b > a && is_whitespace(v[b - 1])
        invariant
            a <= b <= n == v@.len(),
            rest == v@.skip(a as int),
            trim_end(rest.take(b - a)) == trim_end(rest),
        decreases b - a,
    {
        proof {
            assert(rest[b - a - 1] == v@[b - 1]);
            lemma_trim_end_take(rest, b - a);
        }
        b = b - 1;
    }
    assert(trim_end(rest.take(b - a)) == rest.take(b - a)) by {
        if b > a {
            assert(rest.take(b - a).last() == v@[b - 1]);
        }
    }
    assert(v@.subrange(a as int, b as int) =~= rest.take(b - a));
    (a, b)
}

/// `s` without leading and trailing whitespace (`str::trim`).
pub fn trimmed(s: &str) -> (r: String)
    ensures
        r@ == trim(s@),
{
    let v = chars_of(s);
    let (a, b) = trim_bounds(v.as_slice());
    string_of_range(v.as_slice(), a, b)
}

// ---------------------------------------------------------------------------------------------
// Decimal rendering
// ---------------------------------------------------------------------------------------------

/// The character of a decimal digit.
pub open spec fn digit_char(d: nat) -> char {
    if d == 0 {
        '0'
    } else if d == 1 {
        '1'
    } else if d == 2 {
        '2'
    } else if d == 3 {
        '3'
    } else if d == 4 {
        '4'
    } else if d == 5 {
        '5'
    } else if d == 6 {
        '6'
    } else if d == 7 {
        '7'
    } else if d == 8 {
        '8'
    } else {
        '9'
    }
}

/// Decimal rendering of `n` without leading zeros (`format!("{n}")`).
pub open spec fn decimal(n: nat) -> Seq<char>
    decreases n,
{
    if n < 10 {
        seq![digit_char(n)]
    } else {
        decimal(n / 10).push(digit_char(n % 10))
    }
}

/// `s` left-padded with `'0'` to at least `width` characters (`format!("{n:0width$}")`).
pub open spec fn zero_pad(s: Seq<char>, width: nat) -> Seq<char> {
    if s.len() >= width {
        s
    } else {
        Seq::new((width - s.len()) as nat, |i: int| '0') + s
    }
}

fn digit(d: u64) -> (c: char)
    requires
        d < 10,
    ensures
        c == digit_char(d as nat),
{
    if d == 0 {
        '0'
    } else if d == 1 {
        '1'
    } else if d == 2 {
        '2'
    } else if d == 3 {
        '3'
    } else if d == 4 {
        '4'
    } else if d == 5 {
        '5'
    } else if d == 6 {
        '6'
    } else if d == 7 {
        '7'
    } else if d == 8 {
        '8'
    } else {
        '9'
    }
}

/// Appends the decimal rendering of `n`.
pub fn push_decimal(s: &mut String, n: u64)
    ensures
        final(s)@ == old(s)@ + decimal(n as nat),
{
    push_decimal_wide(s, n as u128);
}

/// Appends the decimal rendering of `n`.
pub fn push_decimal_wide(s: &mut String, n: u128)
    ensures
        final(s)@ == old(s)@ + decimal(n as nat),
    decreases n,
{
    if n >= 10 {
        push_decimal_wide(s, n / 10);
    }
    push_char(s, digit((n % 10) as u64));
}

proof fn lemma_digit_char_injective(x: nat, y: nat)
    requires
        x < 10,
        y < 10,
        digit_char(x) == digit_char(y),
    ensures
        x == y,
{
}

/// Different numbers have different decimal renderings.
pub proof fn lemma_decimal_injective(a: nat, b: nat)
    requires
        decimal(a) == decimal(b),
    ensures
        a == b,
    decreases a,
{
    if a >= 10 {
        lemma_decimal_len_pos(a / 10);
    }
    if b >= 10 {
        lemma_decimal_len_pos(b / 10);
    }
    if a < 10 && b < 10 {
        assert(decimal(a)[0] == digit_char(a));
        assert(decimal(b)[0] == digit_char(b));
        lemma_digit_char_injective(a, b);
    } else if a >= 10 && b >= 10 {
        assert(decimal(a).last() == digit_char(a % 10));
        assert(decimal(b).last() == digit_char(b % 10));
        lemma_digit_char_injective(a % 10, b % 10);
        assert(decimal(a).drop_last() =~= decimal(a / 10));
        assert(decimal(b).drop_last() =~= decimal(b / 10));
        lemma_decimal_injective(a / 10, b / 10);
    } else if a < 10 {
        assert(decimal(a).len() == 1);
        assert(decimal(b).len() == decimal(b / 10).len() + 1);
    } else {
        assert(decimal(b).len() == 1);
        assert(decimal(a).len() == decimal(a / 10).len() + 1);
    }
}

proof fn lemma_decimal_len_pos(n: nat)
    ensures
        decimal(n).len() >= 1,
    decreases n,
{
    if n >= 10 {
        lemma_decimal_len_pos(n / 10);
    }
}

/// Number of decimal digits of `n`.
pub fn decimal_len(n: u64) -> (r: usize)
    ensures
        r == decimal(n as nat).len(),
        r <= 20,
    decreases n,
{
    proof {
        lemma_decimal_u64_len(n as nat);
    }
    if n < 10 {
        1
    } else {
        let r = decimal_len(n / 10);
        r + 1
    }
}

proof fn lemma_decimal_u64_len(n: nat)
    requires
        n < 0x1_0000_0000_0000_0000,
    ensures
        decimal(n).len() <= 20,
{
    reveal_with_fuel(pow10, 21);
    assert(pow10(20) == 100000000000000000000nat);
    lemma_decimal_len_bound(n, 20);
}

/// `decimal(n)` has at most `k` digits whenever `n < 10^k`.
proof fn lemma_decimal_len_bound(n: nat, k: nat)
    requires
        k >= 1,
        n < pow10(k),
    ensures
        decimal(n).len() <= k,
    decreases n,
{
    if n >= 10 {
        let p = pow10((k - 1) as nat);
        assert(pow10(k) == 10 * p);
        assert(k >= 2) by {
            if k == 1 {
                assert(p == 1);
            }
        }
        assert(n / 10 < p) by (nonlinear_arith)
            requires
                n < 10 * p,
        ;
        lemma_decimal_len_bound(n / 10, (k - 1) as nat);
    }
}

/// `10^k`.
pub open spec fn pow10(k: nat) -> nat
    decreases k,
{
    if k == 0 {
        1
    } else {
        10 * pow10((k - 1) as nat)
    }
}

/// Appends `n` left-padded with zeros to `width` digits.
pub fn push_padded(s: &mut String, n: u64, width: usize)
    ensures
        final(s)@ == old(s)@ + zero_pad(decimal(n as nat), width as nat),
{
    let len = decimal_len(n);
    let ghost start = s@;
    if len < width {
        let pad = width - len;
        let mut i: usize = 0;
        while i < pad
            invariant
                i <= pad,
                s@ == start + Seq::new(i as nat, |j: int| '0'),
            decreases pad - i,
        {
            push_char(s, '0');
            assert(Seq::new((i + 1) as nat, |j: int| '0') =~= Seq::new(i as nat, |j: int| '0').push(
                '0',
            ));
            i = i + 1;
        }
    }
    let ghost mid = s@;
    push_decimal(s, n);
    proof {
        if len < width {
            assert(s@ =~= start + zero_pad(decimal(n as nat), width as nat));
        } else {
            assert(s@ =~= start + zero_pad(decimal(n as nat), width as nat));
        }
    }
}

// ---------------------------------------------------------------------------------------------
// Ordering
// ---------------------------------------------------------------------------------------------

/// Code-point lexicographic order, which is the order `String`'s `Ord` uses.
pub open spec fn seq_lt(a: Seq<char>, b: Seq<char>) -> bool
    decreases a.len(),
{
    if a.len() == 0 {
        b.len() > 0
    } else if b.len() == 0 {
        false
    } else if a[0] != b[0] {
        a[0] < b[0]
    } else {
        seq_lt(a.drop_first(), b.drop_first())
    }
}

/// Three-way outcome of comparing two values.
#[derive(Clone, Copy, Debug, PartialEq, Eq)]
pub enum Order {
    Less,
    Equal,
    Greater,
}

/// Compares two character sequences in code-point lexicographic order.
pub fn compare_chars(a: &[char], b: &[char]) -> (r: Order)
    ensures
        r == Order::Less <==> seq_lt(a@, b@),
        r == Order::Equal <==> a@ == b@,
        r == Order::Greater <==> seq_lt(b@, a@),
{
    let mut i: usize = 0;
    let n = a.len();
    let m = b.len();
    assert(a@.skip(0) =~= a@);
    assert(b@.skip(0) =~= b@);
    assert(a@.take(0) =~= b@.take(0));
    while i < n && i < m && a[i] == b[i]
        invariant
            i <= n == a@.len(),
            i <= m == b@.len(),
            a@.take(i as int) == b@.take(i as int),
            seq_lt(a@, b@) == seq_lt(a@.skip(i as int), b@.skip(i as int)),
            seq_lt(b@, a@) == seq_lt(b@.skip(i as int), a@.skip(i as int)),
        decreases n - i,
    {
        proof {
            assert(a@.skip(i as int).drop_first() =~= a@.skip(i + 1));
            assert(b@.skip(i as int).drop_first() =~= b@.skip(i + 1));
            assert(a@.take(i + 1) =~= a@.take(i as int).push(a@[i as int]));
            assert(b@.take(i + 1) =~= b@.take(i as int).push(b@[i as int]));
        }
        i = i + 1;
    }
    proof {
        if i < n && i < m {
            assert(a@.skip(i as int)[0] == a@[i as int]);
            assert(b@.skip(i as int)[0] == b@[i as int]);
            assert(a@ != b@) by {
                assert(a@[i as int] != b@[i as int]);
            }
        } else if i == n && i == m {
            assert(a@ =~= a@.take(i as int));
            assert(b@ =~= b@.take(i as int));
        } else if i == n {
            assert(a@ =~= a@.take(i as int));
            assert(a@.len() != b@.len());
        } else {
            assert(b@ =~= b@.take(i as int));
            assert(a@.len() != b@.len());
        }
    }
    if i < n && i < m {
        if a[i] < b[i] {
            Order::Less
        } else {
            Order::Greater
        }
    } else if i == n && i == m {
        Order::Equal
    } else if i == n {
        Order::Less
    } else {
        Order::Greater
    }
}

/// Compares two strings in the order `String`'s `Ord` uses.
pub fn compare_str(a: &str, b: &str) -> (r: Order)
    ensures
        r == Order::Less <==> seq_lt(a@, b@),
        r == Order::Equal <==> a@ == b@,
        r == Order::Greater <==> seq_lt(b@, a@),
{
    let va = chars_of(a);
    let vb = chars_of(b);
    compare_chars(va.as_slice(), vb.as_slice())
}

/// `seq_lt` is irreflexive.
pub proof fn lemma_seq_lt_irreflexive(a: Seq<char>)
    ensures
        !seq_lt(a, a),
    decreases a.len(),
{
    if a.len() > 0 {
        lemma_seq_lt_irreflexive(a.drop_first());
    }
}

/// `seq_lt` is transitive.
pub proof fn lemma_seq_lt_transitive(a: Seq<char>, b: Seq<char>, c: Seq<char>)
    requires
        seq_lt(a, b),
        seq_lt(b, c),
    ensures
        seq_lt(a, c),
    decreases a.len(),
{
    if a.len() > 0 && b.len() > 0 && c.len() > 0 {
        if a[0] == b[0] && b[0] == c[0] {
            lemma_seq_lt_transitive(a.drop_first(), b.drop_first(), c.drop_first());
        }
    }
}

/// `seq_lt` is total on distinct sequences.
pub proof fn lemma_seq_lt_total(a: Seq<char>, b: Seq<char>)
    ensures
        a == b || seq_lt(a, b) || seq_lt(b, a),
    decreases a.len(),
{
    if a.len() > 0 && b.len() > 0 && a[0] == b[0] {
        lemma_seq_lt_total(a.drop_first(), b.drop_first());
        if a.drop_first() == b.drop_first() {
            assert forall|i: int| 0 <= i < a.len() implies a[i] == b[i] by {
                if i > 0 {
                    assert(a[i] == a.drop_first()[i - 1]);
                    assert(b[i] == b.drop_first()[i - 1]);
                }
            }
            assert(a =~= b);
        }
    } else if a.len() == 0 && b.len() == 0 {
        assert(a =~= b);
    } else if a.len() > 0 && b.len() > 0 {
        assert(a[0] != b[0]);
    }
}

/// `seq_lt` is asymmetric.
pub proof fn lemma_seq_lt_asymmetric(a: Seq<char>, b: Seq<char>)
    requires
        seq_lt(a, b),
    ensures
        !seq_lt(b, a),
{
    if seq_lt(b, a) {
        lemma_seq_lt_transitive(a, b, a);
        lemma_seq_lt_irreflexive(a);
    }
}

// ---------------------------------------------------------------------------------------------
// Paths
// ---------------------------------------------------------------------------------------------

/// `base` joined with `name` (`Path::join` on Unix): an absolute `name` replaces `base`.
pub open spec fn joined_path(base: Seq<char>, name: Seq<char>) -> Seq<char> {
    if name.len() > 0 && name[0] == '/' {
        name
    } else if base.len() == 0 {
        name
    } else if base.last() == '/' {
        base + name
    } else {
        base + "/"@ + name
    }
}

/// Joins a path onto a directory path.
pub fn join_path(base: &str, name: &str) -> (r: String)
    ensures
        r@ == joined_path(base@, name@),
{
    let nv = chars_of(name);
    if nv.len() > 0 && nv[0] == '/' {
        return owned(name);
    }
    let v = chars_of(base);
    let mut r = owned(base);
    if v.len() > 0 && v[v.len() - 1] != '/' {
        push_char(&mut r, '/');
    }
    push_str(&mut r, name);
    proof {
        reveal_strlit("/");
        assert(r@ =~= joined_path(base@, name@));
    }
    r
}

// ---------------------------------------------------------------------------------------------
// Lines
// ---------------------------------------------------------------------------------------------

/// `line` without one trailing carriage return.
pub open spec fn strip_cr(line: Seq<char>) -> Seq<char> {
    if line.len() > 0 && line.last() == '\r' {
        line.drop_last()
    } else {
        line
    }
}

/// Completed lines and the pending line after reading `s` (`str::lines`).
pub open spec fn lines_state(s: Seq<char>) -> (Seq<Seq<char>>, Seq<char>)
    decreases s.len(),
{
    if s.len() == 0 {
        (Seq::empty(), Seq::empty())
    } else {
        let (done, cur) = lines_state(s.drop_last());
        if s.last() == '\n' {
            (done.push(strip_cr(cur)), Seq::empty())
        } else {
            (done, cur.push(s.last()))
        }
    }
}

/// Lines of `s` (`str::lines`): split at `\n`, a `\r` before it dropped, the final line ending
/// optional.
pub open spec fn lines_of(s: Seq<char>) -> Seq<Seq<char>> {
    let (done, cur) = lines_state(s);
    if cur.len() > 0 {
        done.push(cur)
    } else {
        done
    }
}

/// Splits `s` into its lines (`str::lines`).
pub fn split_lines(s: &str) -> (r: Vec<String>)
    ensures
        strs(r@) == lines_of(s@),
{
    let v = chars_of(s);
    let n = v.len();
    let mut done: Vec<String> = Vec::new();
    let mut cur = String::new();
    for i in 0..n
        invariant
            n == v@.len(),
            v@ == s@,
            (strs(done@), cur@) == lines_state(s@.take(i as int)),
    {
        let c = v[i];
        proof {
            assert(s@.take(i + 1).drop_last() =~= s@.take(i as int));
            assert(s@.take(i + 1).last() == c);
        }
        if c == '\n' {
            let cv = chars_of(cur.as_str());
            let line = if cv.len() > 0 && cv[cv.len() - 1] == '\r' {
                let l = string_of_range(cv.as_slice(), 0, cv.len() - 1);
                assert(l@ =~= cur@.drop_last());
                l
            } else {
                cur
            };
            let ghost before = strs(done@);
            done.push(line);
            assert(strs(done@) =~= before.push(strip_cr(cv@)));
            cur = String::new();
        } else {
            push_char(&mut cur, c);
        }
    }
    assert(s@.take(n as int) =~= s@);
    if !cur.as_str().is_empty() {
        let ghost before = strs(done@);
        done.push(cur);
        assert(strs(done@) =~= before.push(lines_state(s@).1));
    }
    done
}

// ---------------------------------------------------------------------------------------------
// Splitting
// ---------------------------------------------------------------------------------------------

/// Pieces of `s` split at `sep` (`str::split`): completed pieces and the pending one.
pub open spec fn split_state(s: Seq<char>, sep: char) -> (Seq<Seq<char>>, Seq<char>)
    decreases s.len(),
{
    if s.len() == 0 {
        (Seq::empty(), Seq::empty())
    } else {
        let (done, cur) = split_state(s.drop_last(), sep);
        if s.last() == sep {
            (done.push(cur), Seq::empty())
        } else {
            (done, cur.push(s.last()))
        }
    }
}

/// Pieces of `s` split at `sep` (`str::split`): always at least one.
pub open spec fn split_on(s: Seq<char>, sep: char) -> Seq<Seq<char>> {
    split_state(s, sep).0.push(split_state(s, sep).1)
}

/// Appending characters other than `sep` extends the pending piece and completes none.
pub proof fn lemma_split_state_plain(x: Seq<char>, d: Seq<char>, sep: char)
    requires
        !d.contains(sep),
    ensures
        split_state(x + d, sep) == (split_state(x, sep).0, split_state(x, sep).1 + d),
    decreases d.len(),
{
    if d.len() == 0 {
        assert(x + d =~= x);
        assert(split_state(x, sep).1 + d =~= split_state(x, sep).1);
    } else {
        let d0 = d.drop_last();
        assert(!d0.contains(sep)) by {
            if d0.contains(sep) {
                let k = choose|k: int| 0 <= k < d0.len() && d0[k] == sep;
                assert(d[k] == sep);
            }
        }
        lemma_split_state_plain(x, d0, sep);
        assert((x + d).drop_last() =~= x + d0);
        assert((x + d).last() == d.last());
        assert(d.last() != sep) by {
            assert(d[d.len() - 1] == d.last());
        }
        assert((split_state(x, sep).1 + d0).push(d.last()) =~= split_state(x, sep).1 + d);
    }
}

/// Appending characters never changes the pieces already completed.
pub proof fn lemma_split_state_prefix(x: Seq<char>, y: Seq<char>, sep: char)
    ensures
        split_state(x, sep).0.len() <= split_state(x + y, sep).0.len(),
        forall|i: int| 0 <= i < split_state(x, sep).0.len() ==> split_state(x + y, sep).0[i] == split_state(x, sep).0[i],
    decreases y.len(),
{
    if y.len() == 0 {
        assert(x + y =~= x);
    } else {
        lemma_split_state_prefix(x, y.drop_last(), sep);
        assert((x + y).drop_last() =~= x + y.drop_last());
    }
}

/// A piece that stands between separators (or at either end) of `s` is one of `split_on(s, sep)`.
pub proof fn lemma_split_on_contains_piece(before: Seq<char>, piece: Seq<char>, after: Seq<char>, sep: char)
    requires
        before.len() == 0 || before.last() == sep,
        after.len() == 0 || after[0] == sep,
        !piece.contains(sep),
    ensures
        exists|i: int| 0 <= i < split_on(before + piece + after, sep).len() && #[trigger] split_on(before + piece + after, sep)[i] == piece,
{
    let s = before + piece + after;
    assert(split_state(before, sep).1.len() == 0) by {
        if before.len() > 0 {
            let (d, c) = split_state(before.drop_last(), sep);
            assert(split_state(before, sep) == (d.push(c), Seq::<char>::empty()));
        }
    }
    lemma_split_state_plain(before, piece, sep);
    let a = before + piece;
    let done = split_state(before, sep).0;
    assert(split_state(a, sep).1 =~= piece);
    if after.len() == 0 {
        assert(s =~= a);
        let k = split_state(a, sep).0.len() as int;
        assert(split_on(s, sep)[k] == piece);
    } else {
        let a1 = a.push(sep);
        assert(a1.drop_last() =~= a);
        assert(split_state(a1, sep).0 == done.push(piece));
        lemma_split_state_prefix(a1, after.skip(1), sep);
        assert(a1 + after.skip(1) =~= s) by {
            assert(after =~= seq![sep] + after.skip(1));
        }
        let k = done.len() as int;
        assert(split_state(a1, sep).0[k] == piece);
        assert(split_state(s, sep).0[k] == piece);
        assert(split_on(s, sep)[k] == piece);
    }
}

/// Splits `s` at every `sep` (`str::split`).
pub fn split_char(s: &str, sep: char) -> (r: Vec<String>)
    ensures
        strs(r@) == split_on(s@, sep),
{
    let v = chars_of(s);
    let n = v.len();
    let mut done: Vec<String> = Vec::new();
    let mut cur = String::new();
    for i in 0..n
        invariant
            n == v@.len(),
            v@ == s@,
            (strs(done@), cur@) == split_state(s@.take(i as int), sep),
    {
        proof {
            assert(s@.take(i + 1).drop_last() =~= s@.take(i as int));
        }
        if v[i] == sep {
            let ghost before = strs(done@);
            done.push(cur);
            assert(strs(done@) =~= before.push(split_state(s@.take(i as int), sep).1));
            cur = String::new();
        } else {
            push_char(&mut cur, v[i]);
        }
    }
    assert(s@.take(n as int) =~= s@);
    let ghost before = strs(done@);
    done.push(cur);
    assert(strs(done@) =~= before.push(split_state(s@, sep).1));
    done
}

// ---------------------------------------------------------------------------------------------
// Words
// ---------------------------------------------------------------------------------------------

/// Whitespace-separated words of `s` (`str::split_whitespace`).
pub open spec fn words(s: Seq<char>) -> Seq<Seq<char>>
    decreases s.len(),
{
    if s.len() == 0 {
        Seq::empty()
    } else {
        let w = words(s.drop_last());
        let c = s.last();
        if is_ws(c) {
            w
        } else if s.len() >= 2 && !is_ws(s[s.len() - 2]) {
            w.update(w.len() - 1, w.last().push(c))
        } else {
            w.push(seq![c])
        }
    }
}

/// Splits `v` into whitespace-separated words.
pub fn split_words(v: &[char]) -> (r: Vec<String>)
    ensures
        strs(r@) == words(v@),
{
    let n = v.len();
    let mut out: Vec<String> = Vec::new();
    let mut cur = String::new();
    let mut open = false;
    assert(v@.take(0) =~= Seq::<char>::empty());
    for i in 0..n
        invariant
            n == v@.len(),
            open == (i > 0 && !is_ws(v@[i - 1])),
            !open ==> cur@.len() == 0,
            open ==> strs(out@).push(cur@) == words(v@.take(i as int)) && cur@.len() > 0,
            !open ==> strs(out@) == words(v@.take(i as int)),
    {
        let c = v[i];
        let ghost prefix = v@.take(i + 1);
        proof {
            assert(prefix.drop_last() =~= v@.take(i as int));
            assert(prefix.last() == c);
            if i > 0 {
                assert(prefix[prefix.len() - 2] == v@[i - 1]);
            }
        }
        if is_whitespace(c) {
            if open {
                let ghost before = strs(out@);
                out.push(cur);
                assert(strs(out@) =~= before.push(cur@));
                cur = String::new();
                open = false;
            }
        } else {
            let ghost w = words(v@.take(i as int));
            let ghost old_cur = cur@;
            push_char(&mut cur, c);
            if !open {
                assert(old_cur =~= Seq::<char>::empty());
                assert(cur@ =~= seq![c]);
                assert(strs(out@).push(cur@) =~= w.push(seq![c]));
            } else {
                assert(strs(out@).push(cur@) =~= w.update(w.len() - 1, w.last().push(c)));
            }
            open = true;
        }
    }
    assert(v@.take(n as int) =~= v@);
    if open {
        let ghost before = strs(out@);
        out.push(cur);
        assert(strs(out@) =~= before.push(cur@));
    }
    out
}

/// Splits `s` into whitespace-separated words (`str::split_whitespace`).
pub fn split_words_str(s: &str) -> (r: Vec<String>)
    ensures
        strs(r@) == words(s@),
{
    let v = chars_of(s);
    split_words(v.as_slice())
}

/// A text holding a non-whitespace character has at least one word.
pub proof fn lemma_words_nonempty(s: Seq<char>)
    requires
        exists|i: int| 0 <= i < s.len() && !is_ws(s[i]),
    ensures
        words(s).len() > 0,
    decreases s.len(),
{
    let p = s.drop_last();
    let c = s.last();
    if is_ws(c) {
        let i = choose|i: int| 0 <= i < s.len() && !is_ws(s[i]);
        assert(i < s.len() - 1);
        assert(p[i] == s[i]);
        lemma_words_nonempty(p);
    } else if s.len() >= 2 && !is_ws(s[s.len() - 2]) {
        assert(p[p.len() - 1] == s[s.len() - 2]);
        lemma_words_nonempty(p);
    }
}

} // verus!
