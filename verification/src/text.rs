//! Character-level string processing with exact specifications.
//!
//! Text is modelled as `Seq<char>` (the view of `str` and `String`). Every
//! operation the library performs on names, lines and headers is specified
//! here over that model: whitespace trimming, ASCII case folding, splitting,
//! prefix/suffix tests, lexicographic order and decimal rendering.
use vstd::prelude::*;

verus! {

// ---------------------------------------------------------------------------
// Specifications
// ---------------------------------------------------------------------------

/// Unicode `White_Space` (what `char::is_whitespace` tests).
pub open spec fn is_ws(c: char) -> bool {
    let u = c as u32;
    ||| 0x09 <= u <= 0x0d
    ||| u == 0x20
    ||| u == 0x85
    ||| u == 0xa0
    ||| u == 0x1680
    ||| 0x2000 <= u <= 0x200a
    ||| u == 0x2028
    ||| u == 0x2029
    ||| u == 0x202f
    ||| u == 0x205f
    ||| u == 0x3000
}

/// `s` without its leading whitespace.
pub open spec fn trim_start(s: Seq<char>) -> Seq<char>
    decreases s.len(),
{
    if s.len() > 0 && is_ws(s[0]) {
        trim_start(s.drop_first())
    } else {
        s
    }
}

/// `s` without its trailing whitespace.
pub open spec fn trim_end(s: Seq<char>) -> Seq<char>
    decreases s.len(),
{
    if s.len() > 0 && is_ws(s.last()) {
        trim_end(s.drop_last())
    } else {
        s
    }
}

/// `s` without leading and trailing whitespace (`str::trim`).
pub open spec fn trim(s: Seq<char>) -> Seq<char> {
    trim_end(trim_start(s))
}

/// `s` with every trailing `c` removed (`str::trim_end_matches(c)`).
pub open spec fn trim_end_matches(s: Seq<char>, c: char) -> Seq<char>
    decreases s.len(),
{
    if s.len() > 0 && s.last() == c {
        trim_end_matches(s.drop_last(), c)
    } else {
        s
    }
}

/// ASCII lower-casing of one character.
pub open spec fn lower_char(c: char) -> char {
    if 'A' <= c && c <= 'Z' {
        ((c as u32) + 32) as char
    } else {
        c
    }
}

/// ASCII lower-casing (`str::to_ascii_lowercase`): only `A`..`Z` change.
pub open spec fn lower(s: Seq<char>) -> Seq<char> {
    s.map_values(|c: char| lower_char(c))
}

/// Whether `p` is a prefix of `s`.
pub open spec fn has_prefix(s: Seq<char>, p: Seq<char>) -> bool {
    p.len() <= s.len() && s.take(p.len() as int) == p
}

/// Whether `p` is a suffix of `s`.
pub open spec fn has_suffix(s: Seq<char>, p: Seq<char>) -> bool {
    p.len() <= s.len() && s.skip(s.len() - p.len()) == p
}

/// `str::strip_prefix`.
pub open spec fn strip_prefix(s: Seq<char>, p: Seq<char>) -> Option<Seq<char>> {
    if has_prefix(s, p) {
        Some(s.skip(p.len() as int))
    } else {
        None
    }
}

/// `s.strip_prefix(p).unwrap_or(s)`.
pub open spec fn without_prefix(s: Seq<char>, p: Seq<char>) -> Seq<char> {
    if has_prefix(s, p) {
        s.skip(p.len() as int)
    } else {
        s
    }
}

/// Index of the first `c` in `s`, or `s.len()` when there is none.
pub open spec fn find(s: Seq<char>, c: char) -> nat
    decreases s.len(),
{
    if s.len() == 0 {
        0
    } else if s[0] == c {
        0
    } else {
        1 + find(s.drop_first(), c)
    }
}

/// The pieces of `s` between occurrences of `sep` (`str::split(sep)`):
/// always at least one piece.
pub open spec fn split(s: Seq<char>, sep: char) -> Seq<Seq<char>>
    decreases s.len(),
{
    let i = find(s, sep);
    if i >= s.len() {
        seq![s]
    } else {
        seq![s.take(i as int)] + split(s.skip(i as int + 1), sep)
    }
}

/// `line` without one trailing carriage return.
pub open spec fn strip_cr(line: Seq<char>) -> Seq<char> {
    if line.len() > 0 && line.last() == '\r' {
        line.drop_last()
    } else {
        line
    }
}

/// `str::lines`: split at `\n`, drop a `\r` that precedes a `\n`, and omit
/// the empty piece after a final line ending.
pub open spec fn lines(s: Seq<char>) -> Seq<Seq<char>> {
    let parts = split(s, '\n');
    let n = parts.len();
    parts.take(n - 1).map_values(|p: Seq<char>| strip_cr(p)) + if parts[n - 1].len() > 0 {
        seq![parts[n - 1]]
    } else {
        Seq::<Seq<char>>::empty()
    }
}

/// Strict lexicographic order on character sequences. For `String` this is
/// the order of `Ord` (UTF-8 encoding preserves code point order).
pub open spec fn seq_lt(a: Seq<char>, b: Seq<char>) -> bool
    decreases a.len(),
{
    if a.len() == 0 {
        b.len() > 0
    } else if b.len() == 0 {
        false
    } else if a[0] != b[0] {
        a[0] < b[0]
    } else {
        seq_lt(a.drop_first(), b.drop_first())
    }
}

/// Decimal digits of `n`, without leading zeros (`u64::to_string`).
pub open spec fn decimal(n: nat) -> Seq<char>
    decreases n,
{
    if n < 10 {
        seq![digit_char(n)]
    } else {
        decimal(n / 10).push(digit_char(n % 10))
    }
}

pub open spec fn digit_char(d: nat) -> char {
    ((d + 48) as u32) as char
}

/// Number of bytes of the UTF-8 encoding of `c`.
pub open spec fn utf8_width(c: char) -> nat {
    let u = c as u32;
    if u < 0x80 {
        1
    } else if u < 0x800 {
        2
    } else if u < 0x10000 {
        3
    } else {
        4
    }
}

/// Number of bytes of the UTF-8 encoding of `s` (`str::len`).
pub open spec fn utf8_len(s: Seq<char>) -> nat
    decreases s.len(),
{
    if s.len() == 0 {
        0
    } else {
        utf8_len(s.drop_last()) + utf8_width(s.last())
    }
}

/// The text `String::from_utf8_lossy` decodes from `bytes` (invalid
/// sequences replaced by U+FFFD).
pub uninterp spec fn utf8_lossy(bytes: Seq<u8>) -> Seq<char>;

/// The sequences of `parts` joined with `sep` in between.
pub open spec fn join(parts: Seq<Seq<char>>, sep: Seq<char>) -> Seq<char>
    decreases parts.len(),
{
    if parts.len() == 0 {
        Seq::empty()
    } else if parts.len() == 1 {
        parts[0]
    } else {
        join(parts.drop_last(), sep) + sep + parts.last()
    }
}

// ---------------------------------------------------------------------------
// Lemmas
// ---------------------------------------------------------------------------

pub proof fn lemma_seq_lt_irreflexive(a: Seq<char>)
    ensures
        !seq_lt(a, a),
    decreases a.len(),
{
    if a.len() > 0 {
        lemma_seq_lt_irreflexive(a.drop_first());
    }
}

pub proof fn lemma_seq_lt_asymmetric(a: Seq<char>, b: Seq<char>)
    ensures
        seq_lt(a, b) ==> !seq_lt(b, a),
    decreases a.len(),
{
    if a.len() > 0 && b.len() > 0 && a[0] == b[0] {
        lemma_seq_lt_asymmetric(a.drop_first(), b.drop_first());
    }
}

pub proof fn lemma_seq_lt_transitive(a: Seq<char>, b: Seq<char>, c: Seq<char>)
    requires
        seq_lt(a, b),
        seq_lt(b, c),
    ensures
        seq_lt(a, c),
    decreases a.len(),
{
    if a.len() > 0 && b.len() > 0 && c.len() > 0 && a[0] == b[0] && b[0] == c[0] {
        lemma_seq_lt_transitive(a.drop_first(), b.drop_first(), c.drop_first());
    }
}

pub proof fn lemma_seq_lt_total(a: Seq<char>, b: Seq<char>)
    ensures
        a != b ==> seq_lt(a, b) || seq_lt(b, a),
    decreases a.len(),
{
    if a.len() > 0 && b.len() > 0 && a[0] == b[0] {
        lemma_seq_lt_total(a.drop_first(), b.drop_first());
        if a.drop_first() == b.drop_first() {
            assert(a =~= seq![a[0]] + a.drop_first());
            assert(b =~= seq![b[0]] + b.drop_first());
        }
    } else if a.len() == 0 && b.len() == 0 {
        assert(a =~= b);
    }
}

proof fn lemma_trim_start_step(s: Seq<char>, i: int)
    requires
        0 <= i < s.len(),
        is_ws(s[i]),
    ensures
        trim_start(s.skip(i)) == trim_start(s.skip(i + 1)),
{
    assert(s.skip(i).drop_first() =~= s.skip(i + 1));
}

proof fn lemma_trim_end_step(s: Seq<char>, j: int)
    requires
        0 < j <= s.len(),
        is_ws(s[j - 1]),
    ensures
        trim_end(s.take(j)) == trim_end(s.take(j - 1)),
{
    assert(s.take(j).drop_last() =~= s.take(j - 1));
}

proof fn lemma_trim_end_matches_step(s: Seq<char>, j: int, c: char)
    requires
        0 < j <= s.len(),
        s[j - 1] == c,
    ensures
        trim_end_matches(s.take(j), c) == trim_end_matches(s.take(j - 1), c),
{
    assert(s.take(j).drop_last() =~= s.take(j - 1));
}

/// `find` locates the first occurrence, and everything before it differs.
pub proof fn lemma_find(s: Seq<char>, c: char)
    ensures
        find(s, c) <= s.len(),
        find(s, c) < s.len() ==> s[find(s, c) as int] == c,
        forall|k: int| 0 <= k < find(s, c) ==> s[k] != c,
    decreases s.len(),
{
    if s.len() > 0 && s[0] != c {
        lemma_find(s.drop_first(), c);
        assert forall|k: int| 0 <= k < find(s, c) implies s[k] != c by {
            if k > 0 {
                assert(s[k] == s.drop_first()[k - 1]);
            }
        }
    }
}

/// `find` is determined by the first occurrence.
pub proof fn lemma_find_at(s: Seq<char>, c: char, i: int)
    requires
        0 <= i <= s.len(),
        i < s.len() ==> s[i] == c,
        forall|k: int| 0 <= k < i ==> s[k] != c,
    ensures
        find(s, c) == i,
    decreases s.len(),
{
    if s.len() > 0 && i > 0 {
        assert(s[0] != c);
        assert forall|k: int| 0 <= k < i - 1 implies s.drop_first()[k] != c by {
            assert(s.drop_first()[k] == s[k + 1]);
        }
        lemma_find_at(s.drop_first(), c, i - 1);
    }
}

pub proof fn lemma_split_len(s: Seq<char>, sep: char)
    ensures
        split(s, sep).len() >= 1,
    decreases s.len(),
{
    lemma_find(s, sep);
    let i = find(s, sep);
    if i < s.len() {
        lemma_split_len(s.skip(i as int + 1), sep);
    }
}

pub proof fn lemma_decimal_len(n: nat)
    ensures
        decimal(n).len() >= 1,
    decreases n,
{
    if n >= 10 {
        lemma_decimal_len(n / 10);
    }
}


/// The first piece of a split is a prefix of the text.
pub proof fn lemma_split_first(s: Seq<char>, sep: char)
    ensures
        split(s, sep)[0].len() <= s.len(),
        s.take(split(s, sep)[0].len() as int) == split(s, sep)[0],
{
    lemma_find(s, sep);
    let i = find(s, sep);
    if i >= s.len() {
        assert(s.take(s.len() as int) =~= s);
    }
}

/// The last piece of a split is a suffix of the text.
pub proof fn lemma_split_last(s: Seq<char>, sep: char)
    ensures
        split(s, sep).last().len() <= s.len(),
        s.skip(s.len() - split(s, sep).last().len()) == split(s, sep).last(),
    decreases s.len(),
{
    lemma_find(s, sep);
    lemma_split_len(s, sep);
    let i = find(s, sep);
    if i >= s.len() {
        assert(s.skip(0) =~= s);
    } else {
        let rest = s.skip(i as int + 1);
        lemma_split_last(rest, sep);
        lemma_split_len(rest, sep);
        let p = split(rest, sep).last();
        assert(split(s, sep).last() == p);
        assert(s.skip(s.len() - p.len()) =~= rest.skip(rest.len() - p.len()));
    }
}

/// Text that is not padded, has no trailing dot and no capital letter is its
/// own trim / trailing-dot-strip / lower-casing.
pub proof fn lemma_plain_fixed(q: Seq<char>)
    requires
        q.len() > 0,
        !is_ws(q[0]),
        !is_ws(q.last()),
        q.last() != '.',
        forall|k: int| 0 <= k < q.len() ==> !('A' <= #[trigger] q[k] && q[k] <= 'Z'),
    ensures
        lower(trim_end_matches(trim(q), '.')) == q,
{
    assert(trim_start(q) == q);
    assert(trim_end(q) == q);
    assert(trim_end_matches(q, '.') == q);
    assert(lower(q) =~= q);
}

/// Text that is not padded and has no trailing dot canonicalizes to its
/// lower-casing.
pub proof fn lemma_plain_lower(q: Seq<char>)
    requires
        q.len() > 0,
        !is_ws(q[0]),
        !is_ws(q.last()),
        q.last() != '.',
    ensures
        lower(trim_end_matches(trim(q), '.')) == lower(q),
{
    assert(trim_start(q) == q);
    assert(trim_end(q) == q);
    assert(trim_end_matches(q, '.') == q);
}

/// ASCII lower-casing keeps whitespace, dots and the lower-case letters as
/// they are.
proof fn lemma_lower_char(c: char)
    ensures
        is_ws(lower_char(c)) == is_ws(c),
        (lower_char(c) == '.') == (c == '.'),
        lower_char(lower_char(c)) == lower_char(c),
{
    if 'A' <= c && c <= 'Z' {
        let d = lower_char(c);
        assert(d as u32 == c as u32 + 32);
        assert('a' <= d && d <= 'z');
    }
}

/// Lower-casing commutes with dropping leading whitespace.
proof fn lemma_trim_start_lower(s: Seq<char>)
    ensures
        trim_start(lower(s)) == lower(trim_start(s)),
    decreases s.len(),
{
    if s.len() > 0 {
        lemma_lower_char(s[0]);
        if is_ws(s[0]) {
            assert(lower(s).drop_first() =~= lower(s.drop_first()));
            lemma_trim_start_lower(s.drop_first());
        }
    }
}

/// Lower-casing commutes with dropping trailing whitespace.
proof fn lemma_trim_end_lower(s: Seq<char>)
    ensures
        trim_end(lower(s)) == lower(trim_end(s)),
    decreases s.len(),
{
    if s.len() > 0 {
        lemma_lower_char(s.last());
        if is_ws(s.last()) {
            assert(lower(s).drop_last() =~= lower(s.drop_last()));
            lemma_trim_end_lower(s.drop_last());
        }
    }
}

/// Lower-casing commutes with dropping trailing dots.
proof fn lemma_trim_dots_lower(s: Seq<char>)
    ensures
        trim_end_matches(lower(s), '.') == lower(trim_end_matches(s, '.')),
    decreases s.len(),
{
    if s.len() > 0 {
        lemma_lower_char(s.last());
        if s.last() == '.' {
            assert(lower(s).drop_last() =~= lower(s.drop_last()));
            lemma_trim_dots_lower(s.drop_last());
        }
    }
}

/// Lower-casing twice is lower-casing once.
pub proof fn lemma_lower_idempotent(s: Seq<char>)
    ensures
        lower(lower(s)) == lower(s),
{
    assert forall|i: int| 0 <= i < s.len() implies #[trigger] lower(lower(s))[i] == lower(s)[i] by {
        lemma_lower_char(s[i]);
    }
    assert(lower(lower(s)) =~= lower(s));
}

/// Trimming, dropping trailing dots and lower-casing give the same result
/// on `s` and on its lower-casing.
pub proof fn lemma_canonical_lower(s: Seq<char>)
    ensures
        lower(trim_end_matches(trim(lower(s)), '.')) == lower(trim_end_matches(trim(s), '.')),
{
    lemma_trim_start_lower(s);
    lemma_trim_end_lower(trim_start(s));
    lemma_trim_dots_lower(trim(s));
    lemma_lower_idempotent(trim_end_matches(trim(s), '.'));
}

/// What leading whitespace is dropped from does not change by appending a
/// non-whitespace character.
proof fn lemma_trim_start_push(s: Seq<char>, c: char)
    requires
        !is_ws(c),
    ensures
        trim_start(s.push(c)) == trim_start(s).push(c),
    decreases s.len(),
{
    if s.len() > 0 && is_ws(s[0]) {
        assert(s.push(c).drop_first() =~= s.drop_first().push(c));
        lemma_trim_start_push(s.drop_first(), c);
    } else if s.len() == 0 {
        assert(s.push(c) =~= seq![c]);
    }
}

/// Dropping leading whitespace keeps a suffix of the text.
proof fn lemma_trim_start_suffix(s: Seq<char>)
    ensures
        trim_start(s).len() <= s.len(),
        trim_start(s) == s.skip(s.len() - trim_start(s).len()),
    decreases s.len(),
{
    if s.len() > 0 && is_ws(s[0]) {
        lemma_trim_start_suffix(s.drop_first());
        let t = trim_start(s.drop_first());
        assert(s.drop_first().skip(s.drop_first().len() - t.len()) =~= s.skip(s.len() - t.len()));
    } else {
        assert(s.skip(0) =~= s);
    }
}

/// A trailing dot is ignored when text is trimmed and stripped of trailing
/// dots, unless whitespace precedes it.
pub proof fn lemma_canonical_trailing_dot(s: Seq<char>)
    requires
        s.len() == 0 || !is_ws(s.last()),
    ensures
        trim_end_matches(trim(s.push('.')), '.') == trim_end_matches(trim(s), '.'),
{
    lemma_trim_start_push(s, '.');
    let t = trim_start(s);
    lemma_trim_start_suffix(s);
    assert(trim_end(t.push('.')) == t.push('.'));
    assert(t.push('.').drop_last() =~= t);
    if t.len() > 0 {
        assert(t.last() == s.last());
        assert(trim_end(t) == t);
    } else {
        assert(trim_end(t) == t);
    }
}

/// Text without trailing whitespace does not end in whitespace.
pub proof fn lemma_trim_end_last(s: Seq<char>)
    ensures
        trim_end(s).len() > 0 ==> !is_ws(trim_end(s).last()),
        trim_end(s).len() <= s.len(),
    decreases s.len(),
{
    if s.len() > 0 && is_ws(s.last()) {
        lemma_trim_end_last(s.drop_last());
    }
}

/// Stripping trailing `c`s from `p + s` only touches `s`, as long as
/// something of `s` remains.
pub proof fn lemma_trim_end_matches_concat(p: Seq<char>, s: Seq<char>, c: char)
    requires
        trim_end_matches(s, c).len() > 0,
    ensures
        trim_end_matches(p + s, c) == p + trim_end_matches(s, c),
    decreases s.len(),
{
    if s.len() > 0 && s.last() == c {
        assert((p + s).drop_last() =~= p + s.drop_last());
        lemma_trim_end_matches_concat(p, s.drop_last(), c);
    } else {
        assert(s.len() > 0);
        assert((p + s).last() == s.last());
    }
}

/// Lower-casing a concatenation lower-cases each part.
pub proof fn lemma_lower_concat(a: Seq<char>, b: Seq<char>)
    ensures
        lower(a + b) == lower(a) + lower(b),
{
    assert(lower(a + b) =~= lower(a) + lower(b));
}

// ---------------------------------------------------------------------------
// Executable operations
// ---------------------------------------------------------------------------

/// Appends one character (`String::push`).
#[verifier::external_body]
fn push_char(s: &mut String, c: char)
    ensures
        final(s)@ == old(s)@.push(c),
{
    s.push(c);
}

/// The characters of `s`, in order.
pub fn chars_of(s: &str) -> (r: Vec<char>)
    ensures
        r@ == s@,
{
    let mut r: Vec<char> = Vec::new();
    for c in it: s.chars()
        invariant
            r@ == it.seq().take(it.index()),
    {
        r.push(c);
    }
    r
}

/// A `String` holding exactly the characters `v`.
pub fn string_of(v: &[char]) -> (r: String)
    ensures
        r@ == v@,
{
    let mut r = String::new();
    let mut i: usize = 0;
    while i < v.len()
        invariant
            i <= v.len(),
            r@ == v@.take(i as int),
        decreases v.len() - i,
    {
        push_char(&mut r, v[i]);
        proof {
            assert(v@.take(i as int).push(v@[i as int]) =~= v@.take(i + 1));
        }
        i += 1;
    }
    proof {
        assert(v@.take(v.len() as int) =~= v@);
    }
    r
}

/// The characters `s[from..to]`.
pub fn slice_chars(s: &[char], from: usize, to: usize) -> (r: Vec<char>)
    requires
        from <= to <= s.len(),
    ensures
        r@ == s@.subrange(from as int, to as int),
{
    let mut r: Vec<char> = Vec::new();
    let mut i = from;
    while i < to
        invariant
            from <= i <= to <= s.len(),
            r@ == s@.subrange(from as int, i as int),
        decreases to - i,
    {
        r.push(s[i]);
        proof {
            assert(s@.subrange(from as int, i as int).push(s@[i as int]) =~= s@.subrange(
                from as int,
                i + 1,
            ));
        }
        i += 1;
    }
    r
}

/// `a` followed by `b`.
pub fn concat(a: &[char], b: &[char]) -> (r: Vec<char>)
    ensures
        r@ == a@ + b@,
{
    let mut r = slice_chars(a, 0, a.len());
    let mut i: usize = 0;
    while i < b.len()
        invariant
            i <= b.len(),
            r@ == a@ + b@.take(i as int),
        decreases b.len() - i,
    {
        r.push(b[i]);
        proof {
            assert((a@ + b@.take(i as int)).push(b@[i as int]) =~= a@ + b@.take(i + 1));
        }
        i += 1;
    }
    proof {
        assert(a@.subrange(0, a@.len() as int) =~= a@);
        assert(b@.take(b.len() as int) =~= b@);
    }
    r
}

/// Exec counterpart of [`is_ws`].
pub fn is_whitespace(c: char) -> (r: bool)
    ensures
        r == is_ws(c),
{
    let u = c as u32;
    (0x09 <= u && u <= 0x0d) || u == 0x20 || u == 0x85 || u == 0xa0 || u == 0x1680 || (0x2000 <= u
        && u <= 0x200a) || u == 0x2028 || u == 0x2029 || u == 0x202f || u == 0x205f || u == 0x3000
}

/// `str::trim` on characters.
pub fn trim_chars(s: &[char]) -> (r: Vec<char>)
    ensures
        r@ == trim(s@),
{
    let n = s.len();
    let mut i: usize = 0;
    proof {
        assert(s@.skip(0) =~= s@);
    }
    while i < n && is_whitespace(s[i])
        invariant
            i <= n == s.len(),
            trim_start(s@) == trim_start(s@.skip(i as int)),
        decreases n - i,
    {
        proof {
            lemma_trim_start_step(s@, i as int);
        }
        i += 1;
    }
    let ghost t = s@.skip(i as int);
    assert(trim_start(t) == t);
    let mut j: usize = n;
    proof {
        assert(t.take(t.len() as int) =~= t);
    }
    while j > i && is_whitespace(s[j - 1])
        invariant
            i <= j <= n == s.len(),
            t == s@.skip(i as int),
            trim_end(t) == trim_end(t.take(j - i)),
        decreases j,
    {
        proof {
            assert(t[j - i - 1] == s@[j - 1]);
            lemma_trim_end_step(t, j - i);
        }
        j -= 1;
    }
    proof {
        assert(trim_end(t.take(j - i)) == t.take(j - i));
        assert(t.take(j - i) =~= s@.subrange(i as int, j as int));
    }
    slice_chars(s, i, j)
}

/// `str::trim_end` on characters.
pub fn trim_end_chars(s: &[char]) -> (r: Vec<char>)
    ensures
        r@ == trim_end(s@),
{
    let mut j: usize = s.len();
    proof {
        assert(s@.take(s.len() as int) =~= s@);
    }
    while j > 0 && is_whitespace(s[j - 1])
        invariant
            j <= s.len(),
            trim_end(s@) == trim_end(s@.take(j as int)),
        decreases j,
    {
        proof {
            lemma_trim_end_step(s@, j as int);
        }
        j -= 1;
    }
    proof {
        assert(trim_end(s@.take(j as int)) == s@.take(j as int));
        assert(s@.take(j as int) =~= s@.subrange(0, j as int));
    }
    slice_chars(s, 0, j)
}

/// `str::trim_end_matches(c)` on characters.
pub fn trim_end_matching(s: &[char], c: char) -> (r: Vec<char>)
    ensures
        r@ == trim_end_matches(s@, c),
{
    let mut j: usize = s.len();
    proof {
        assert(s@.take(s.len() as int) =~= s@);
    }
    while j > 0 && s[j - 1] == c
        invariant
            j <= s.len(),
            trim_end_matches(s@, c) == trim_end_matches(s@.take(j as int), c),
        decreases j,
    {
        proof {
            lemma_trim_end_matches_step(s@, j as int, c);
        }
        j -= 1;
    }
    proof {
        assert(s@.take(j as int) =~= s@.subrange(0, j as int));
    }
    slice_chars(s, 0, j)
}

/// Exec counterpart of [`lower_char`].
pub fn lower_ascii_char(c: char) -> (r: char)
    ensures
        r == lower_char(c),
{
    if 'A' <= c && c <= 'Z' {
        let u = (c as u8) + 32;
        u as char

    } else {
        c
    }
}

/// `to_ascii_lowercase` on characters.
pub fn lower_chars(s: &[char]) -> (r: Vec<char>)
    ensures
        r@ == lower(s@),
{
    let mut r: Vec<char> = Vec::new();
    let mut i: usize = 0;
    while i < s.len()
        invariant
            i <= s.len(),
            r@ == lower(s@.take(i as int)),
        decreases s.len() - i,
    {
        r.push(lower_ascii_char(s[i]));
        proof {
            assert(lower(s@.take(i as int)).push(lower_char(s@[i as int])) =~= lower(
                s@.take(i + 1),
            ));
        }
        i += 1;
    }
    proof {
        assert(s@.take(s.len() as int) =~= s@);
    }
    r
}

/// Whether `s` and `t` hold the same characters.
pub fn chars_eq(s: &[char], t: &[char]) -> (r: bool)
    ensures
        r == (s@ == t@),
{
    if s.len() != t.len() {
        return false;
    }
    let mut i: usize = 0;
    while i < s.len()
        invariant
            i <= s.len() == t.len(),
            s@.take(i as int) == t@.take(i as int),
        decreases s.len() - i,
    {
        if s[i] != t[i] {
            proof {
                assert(s@[i as int] != t@[i as int]);
            }
            return false;
        }
        proof {
            assert(s@.take(i + 1) =~= s@.take(i as int).push(s@[i as int]));
            assert(t@.take(i + 1) =~= t@.take(i as int).push(t@[i as int]));
        }
        i += 1;
    }
    proof {
        assert(s@ =~= s@.take(s.len() as int));
        assert(t@ =~= t@.take(t.len() as int));
    }
    true
}

/// Whether `p` is a prefix of `s`.
pub fn starts_with(s: &[char], p: &[char]) -> (r: bool)
    ensures
        r == has_prefix(s@, p@),
{
    if p.len() > s.len() {
        return false;
    }
    let head = slice_chars(s, 0, p.len());
    proof {
        assert(s@.subrange(0, p@.len() as int) =~= s@.take(p@.len() as int));
    }
    chars_eq(&head, p)
}

/// Whether `p` is a suffix of `s`.
pub fn ends_with(s: &[char], p: &[char]) -> (r: bool)
    ensures
        r == has_suffix(s@, p@),
{
    if p.len() > s.len() {
        return false;
    }
    let tail = slice_chars(s, s.len() - p.len(), s.len());
    proof {
        assert(s@.subrange(s.len() - p.len(), s.len() as int) =~= s@.skip(
            s@.len() - p@.len(),
        ));
    }
    chars_eq(&tail, p)
}

/// `s.strip_prefix(p).unwrap_or(s)` on characters.
pub fn remove_prefix(s: &[char], p: &[char]) -> (r: Vec<char>)
    ensures
        r@ == without_prefix(s@, p@),
{
    if starts_with(s, p) {
        proof {
            assert(s@.subrange(p.len() as int, s.len() as int) =~= s@.skip(p@.len() as int));
        }
        slice_chars(s, p.len(), s.len())
    } else {
        slice_chars(s, 0, s.len())
    }
}

/// `str::strip_prefix` on characters.
pub fn prefix_stripped(s: &[char], p: &[char]) -> (r: Option<Vec<char>>)
    ensures
        match r {
            Some(v) => strip_prefix(s@, p@) == Some(v@),
            None => strip_prefix(s@, p@) is None,
        },
{
    if starts_with(s, p) {
        proof {
            assert(s@.subrange(p.len() as int, s.len() as int) =~= s@.skip(p@.len() as int));
        }
        Some(slice_chars(s, p.len(), s.len()))
    } else {
        None
    }
}

/// Whether `c` occurs in `s`.
pub fn contains_char(s: &[char], c: char) -> (r: bool)
    ensures
        r == s@.contains(c),
{
    let mut i: usize = 0;
    while i < s.len()
        invariant
            i <= s.len(),
            forall|k: int| 0 <= k < i ==> s@[k] != c,
        decreases s.len() - i,
    {
        if s[i] == c {
            return true;
        }
        i += 1;
    }
    false
}

/// Position of the first `c` at or after `from`, or `s.len()`.
fn find_from(s: &[char], c: char, from: usize) -> (r: usize)
    requires
        from <= s.len(),
    ensures
        r == from + find(s@.skip(from as int), c),
{
    let mut i = from;
    while i < s.len() && s[i] != c
        invariant
            from <= i <= s.len(),
            forall|k: int| from <= k < i ==> s@[k] != c,
        decreases s.len() - i,
    {
        i += 1;
    }
    proof {
        let t = s@.skip(from as int);
        assert forall|k: int| 0 <= k < i - from implies t[k] != c by {
            assert(t[k] == s@[from + k]);
        }
        lemma_find_at(t, c, i - from);
    }
    i
}

/// `str::split(sep)` on characters.
pub fn split_chars(s: &[char], sep: char) -> (r: Vec<Vec<char>>)
    ensures
        r@.map_values(|v: Vec<char>| v@) == split(s@, sep),
{
    let mut r: Vec<Vec<char>> = Vec::new();
    let mut start: usize = 0;
    proof {
        assert(s@.skip(0) =~= s@);
        assert(r@.map_values(|v: Vec<char>| v@) + split(s@.skip(0), sep) =~= split(s@, sep));
    }
    loop
        invariant
            start <= s.len(),
            r@.map_values(|v: Vec<char>| v@) + split(s@.skip(start as int), sep) == split(
                s@,
                sep,
            ),
        decreases s.len() - start,
    {
        let i = find_from(s, sep, start);
        let ghost t = s@.skip(start as int);
        proof {
            lemma_find(t, sep);
        }
        if i >= s.len() {
            let piece = slice_chars(s, start, s.len());
            proof {
                assert(piece@ =~= t);
                assert(split(t, sep) == seq![t]);
            }
            let ghost before = r@.map_values(|v: Vec<char>| v@);
            r.push(piece);
            proof {
                assert(r@.map_values(|v: Vec<char>| v@) =~= before.push(t));
                assert(before + seq![t] =~= before.push(t));
            }
            return r;
        }
        let piece = slice_chars(s, start, i);
        proof {
            let k = find(t, sep);
            assert(piece@ =~= t.take(k as int));
            assert(t.skip(k as int + 1) =~= s@.skip(i + 1));
            assert(split(t, sep) == seq![t.take(k as int)] + split(t.skip(k as int + 1), sep));
        }
        let ghost before = r@.map_values(|v: Vec<char>| v@);
        r.push(piece);
        proof {
            assert(r@.map_values(|v: Vec<char>| v@) =~= before.push(piece@));
            assert(before + (seq![piece@] + split(s@.skip(i + 1), sep)) =~= before.push(piece@)
                + split(s@.skip(i + 1), sep));
        }
        start = i + 1;
    }
}

/// `str::lines` on characters.
pub fn lines_of(s: &[char]) -> (r: Vec<Vec<char>>)
    ensures
        r@.map_values(|v: Vec<char>| v@) == lines(s@),
{
    let parts = split_chars(s, '\n');
    let ghost ps = split(s@, '\n');
    proof {
        lemma_split_len(s@, '\n');
    }
    let n = parts.len();
    assert(parts@[n - 1]@ == ps[n - 1]);
    let mut r: Vec<Vec<char>> = Vec::new();
    let mut k: usize = 0;
    while k + 1 < n
        invariant
            n == parts.len() >= 1,
            parts@.map_values(|v: Vec<char>| v@) == ps,
            k + 1 <= n,
            r@.map_values(|v: Vec<char>| v@) == ps.take(k as int).map_values(
                |p: Seq<char>| strip_cr(p),
            ),
        decreases n - k,
    {
        let p = &parts[k];
        assert(p@ == ps[k as int]);
        let line = if p.len() > 0 && p[p.len() - 1] == '\r' {
            slice_chars(p, 0, p.len() - 1)
        } else {
            slice_chars(p, 0, p.len())
        };
        proof {
            assert(line@ =~= strip_cr(ps[k as int]));
        }
        let ghost before = r@.map_values(|v: Vec<char>| v@);
        r.push(line);
        proof {
            assert(r@.map_values(|v: Vec<char>| v@) =~= before.push(line@));
            assert(ps.take(k + 1).map_values(|p: Seq<char>| strip_cr(p)) =~= ps.take(
                k as int,
            ).map_values(|p: Seq<char>| strip_cr(p)).push(strip_cr(ps[k as int])));
        }
        k += 1;
    }
    let last = &parts[n - 1];
    let ghost before = r@.map_values(|v: Vec<char>| v@);
    if last.len() > 0 {
        let piece = slice_chars(last, 0, last.len());
        proof {
            assert(piece@ =~= ps[n - 1]);
        }
        r.push(piece);
        proof {
            assert(r@.map_values(|v: Vec<char>| v@) =~= before + seq![ps[n - 1]]);
        }
    } else {
        proof {
            assert(before + Seq::<Seq<char>>::empty() =~= before);
        }
    }
    r
}

/// Strict lexicographic comparison.
pub fn chars_lt(a: &[char], b: &[char]) -> (r: bool)
    ensures
        r == seq_lt(a@, b@),
{
    let mut i: usize = 0;
    proof {
        assert(a@.skip(0) =~= a@);
        assert(b@.skip(0) =~= b@);
    }
    while i < a.len() && i < b.len() && a[i] == b[i]
        invariant
            i <= a.len(),
            i <= b.len(),
            seq_lt(a@, b@) == seq_lt(a@.skip(i as int), b@.skip(i as int)),
        decreases a.len() - i,
    {
        proof {
            assert(a@.skip(i as int).drop_first() =~= a@.skip(i + 1));
            assert(b@.skip(i as int).drop_first() =~= b@.skip(i + 1));
        }
        i += 1;
    }
    if i == a.len() {
        i < b.len()
    } else if i == b.len() {
        false
    } else {
        a[i] < b[i]
    }
}

/// Decimal rendering of `n` (`u64::to_string`).
pub fn decimal_of(n: u128) -> (r: Vec<char>)
    ensures
        r@ == decimal(n as nat),
    decreases n,
{
    let d = n % 10;
    let c = ((d as u8) + 48) as char;
    assert(c == digit_char(d as nat));
    if n < 10 {
        vec![c]
    } else {
        let mut r = decimal_of(n / 10);
        r.push(c);
        r
    }
}

/// Number of bytes of the UTF-8 encoding of `s`.
pub fn utf8_length(s: &[char]) -> (r: u128)
    ensures
        r == utf8_len(s@),
{
    let mut total: u128 = 0;
    let mut i: usize = 0;
    while i < s.len()
        invariant
            i <= s.len(),
            total == utf8_len(s@.take(i as int)),
            total <= 4 * i,
        decreases s.len() - i,
    {
        proof {
            assert(s@.take(i + 1).drop_last() =~= s@.take(i as int));
        }
        let c = s[i];
        let u = c as u32;
        let w: u128 = if u < 0x80 {
            1
        } else if u < 0x800 {
            2
        } else if u < 0x10000 {
            3
        } else {
            4
        };
        total = total + w;
        i += 1;
    }
    proof {
        assert(s@.take(s.len() as int) =~= s@);
    }
    total
}

/// Decodes bytes with `String::from_utf8_lossy`. The result is named
/// `utf8_lossy`; the contract also states the documented fact that ASCII
/// input decodes unchanged, one character per byte. How other input is
/// decoded, and how invalid sequences are replaced, is not stated.
#[verifier::external_body]
pub(crate) fn lossy_text(bytes: &[u8]) -> (r: String)
    ensures
        r@ == utf8_lossy(bytes@),
        (forall|i: int| 0 <= i < bytes@.len() ==> #[trigger] bytes@[i] < 0x80) ==> r@
            == bytes@.map_values(|b: u8| b as char),
{
    String::from_utf8_lossy(bytes).into_owned()
}

} // verus!
