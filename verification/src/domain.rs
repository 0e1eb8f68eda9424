//! Domain names: canonicalization of blocklist entries and matching of DNS
//! query names against them.
use vstd::prelude::*;

use crate::strset::StrSet;
use crate::text::{lemma_canonical_lower, lemma_lower_concat, lemma_trim_end_last, lemma_trim_end_matches_concat, trim_start, trim_end, lemma_canonical_trailing_dot, lemma_plain_fixed, lemma_plain_lower, lemma_split_first, lemma_split_last,
    lemma_split_len, is_ws, chars_eq, chars_of, concat, contains_char, ends_with, has_prefix, has_suffix, lower,
    lower_chars, remove_prefix, slice_chars, split, split_chars, starts_with, string_of, trim, trim_chars, trim_end_matches,
    trim_end_matching, utf8_len, utf8_width, without_prefix};

verus! {

/// Lower-cased, trimmed, without trailing dots: the canonical form of a
/// name (`trim`, `trim_end_matches('.')`, `to_ascii_lowercase`).
pub open spec fn canonical_name(raw: Seq<char>) -> Seq<char> {
    lower(trim_end_matches(trim(raw), '.'))
}

/// An exact-match entry `=d`: it covers the name `d` only, none of its
/// subdomains.
pub open spec fn is_exact(entry: Seq<char>) -> bool {
    has_prefix(entry, "="@)
}

/// A blocklist entry without its optional `=` exact-match or `*.` wildcard
/// prefix.
pub open spec fn entry_base(entry: Seq<char>) -> Seq<char> {
    if is_exact(entry) {
        entry.skip(1)
    } else {
        without_prefix(entry, "*."@)
    }
}

/// An ASCII letter or digit, or a hyphen.
pub open spec fn label_char(c: char) -> bool {
    ('a' <= c && c <= 'z') || ('A' <= c && c <= 'Z') || ('0' <= c && c <= '9') || c == '-'
}

/// A DNS label: 1 to 63 letters, digits and hyphens, not starting or ending
/// with a hyphen.
pub open spec fn valid_label(l: Seq<char>) -> bool {
    &&& 0 < l.len() <= 63
    &&& forall|i: int| 0 <= i < l.len() ==> label_char(#[trigger] l[i])
    &&& l[0] != '-'
    &&& l.last() != '-'
}

/// Every dot-separated label of `host` is valid.
pub open spec fn valid_labels(host: Seq<char>) -> bool {
    forall|i: int|
        0 <= i < split(host, '.').len() ==> valid_label(#[trigger] split(host, '.')[i])
}

pub open spec fn invalid_domain_message(raw: Seq<char>) -> Seq<char> {
    "invalid domain '"@ + raw + "'"@
}

pub open spec fn not_fqdn_message(raw: Seq<char>) -> Seq<char> {
    "'"@ + raw + "' is not a fully-qualified domain name"@
}

/// The outcome of canonicalizing a blocklist domain: the canonical entry
/// (with its `*.` prefix, if any), or the message rejecting it.
pub open spec fn domain_check(raw: Seq<char>) -> Result<Seq<char>, Seq<char>> {
    let s = canonical_name(raw);
    let host = entry_base(s);
    if s.len() == 0 {
        Err("empty domain"@)
    } else if host.len() == 0 || utf8_len(host) > 253 {
        Err(invalid_domain_message(raw))
    } else if !host.contains('.') {
        Err(not_fqdn_message(raw))
    } else if !valid_labels(host) {
        Err(invalid_domain_message(raw))
    } else {
        Ok(s)
    }
}

/// Whether the blocklist entry `entry` covers the query name `name`: the
/// entry's base itself, and, unless the entry is exact, any name ending in
/// `.` followed by the base.
pub open spec fn entry_covers(entry: Seq<char>, name: Seq<char>) -> bool {
    let base = entry_base(entry);
    name == base || (!is_exact(entry) && has_suffix(name, seq!['.'] + base))
}

/// Whether a query for `qname` is blocked by the entries `domains`.
pub open spec fn blocked_by(domains: Set<Seq<char>>, qname: Seq<char>) -> bool {
    let name = canonical_name(qname);
    name.len() > 0 && exists|e: Seq<char>| #[trigger] domains.contains(e) && entry_covers(e, name)
}

// ---------------------------------------------------------------------------
// Laws of matching
// ---------------------------------------------------------------------------

/// An entry `d` and its wildcard form `*.d` cover exactly the same names.
pub proof fn lemma_wildcard_same_coverage(base: Seq<char>, name: Seq<char>)
    requires
        !has_prefix(base, "*."@),
        !is_exact(base),
    ensures
        entry_covers("*."@ + base, name) == entry_covers(base, name),
{
    let star = "*."@ + base;
    reveal_strlit("*.");
    reveal_strlit("=");
    assert(!is_exact(star)) by {
        assert(star.take(1)[0] == '*');
    }
    assert(star.take(2) =~= "*."@);
    assert(star.skip(2) =~= base);
}

/// An entry covers its base, and, unless it is exact, every subdomain of
/// it.
pub proof fn lemma_covers_apex_and_subdomains(entry: Seq<char>, sub: Seq<char>)
    ensures
        entry_covers(entry, entry_base(entry)),
        !is_exact(entry) ==> entry_covers(entry, sub + seq!['.'] + entry_base(entry)),
{
    let base = entry_base(entry);
    let name = sub + seq!['.'] + base;
    let suffix = seq!['.'] + base;
    assert(name.skip(name.len() - suffix.len()) =~= suffix);
}

/// Matching ignores the letter case of the query name.
pub proof fn lemma_matching_ignores_case(domains: Set<Seq<char>>, qname: Seq<char>)
    ensures
        blocked_by(domains, lower(qname)) == blocked_by(domains, qname),
{
    lemma_canonical_lower(qname);
}

/// Matching ignores a trailing dot on the query name (the root label of a
/// fully-qualified name), unless whitespace precedes it.
pub proof fn lemma_matching_ignores_trailing_dot(domains: Set<Seq<char>>, qname: Seq<char>)
    requires
        qname.len() == 0 || !is_ws(qname.last()),
    ensures
        blocked_by(domains, qname.push('.')) == blocked_by(domains, qname),
{
    lemma_canonical_trailing_dot(qname);
}

/// What canonicalization accepts: exactly the names whose canonical host
/// (without an optional `*.` or `=` prefix) is nonempty, at most 253 bytes
/// long, holds a dot, and whose every dot-separated label has 1 to 63
/// letters, digits or hyphens and neither starts nor ends with a hyphen.
/// Nothing else rejects a name (a label may, for one, begin with a digit);
/// an accepted name becomes its canonical form.
pub proof fn lemma_accepted_domains(raw: Seq<char>)
    ensures
        ({
            let s = canonical_name(raw);
            let host = entry_base(s);
            let labels = split(host, '.');
            let ok = host.len() > 0 && utf8_len(host) <= 253 && host.contains('.') && forall|i: int|
                0 <= i < labels.len() ==> {
                    let l = #[trigger] labels[i];
                    &&& 1 <= l.len() <= 63
                    &&& forall|j: int|
                        0 <= j < l.len() ==> ('a' <= #[trigger] l[j] <= 'z' || 'A' <= l[j] <= 'Z'
                            || '0' <= l[j] <= '9' || l[j] == '-')
                    &&& l[0] != '-'
                    &&& l[l.len() - 1] != '-'
                };
            &&& ok ==> domain_check(raw) == Ok::<Seq<char>, Seq<char>>(s)
            &&& domain_check(raw) is Ok ==> ok
        }),
{
    let s = canonical_name(raw);
    let host = entry_base(s);
    let labels = split(host, '.');
    reveal_strlit("*.");
    reveal_strlit("=");
    if s.len() == 0 {
        assert(!is_exact(s) && !has_prefix(s, "*."@));
        assert(host.len() == 0);
    }
    assert forall|i: int| 0 <= i < labels.len() implies (valid_label(#[trigger] labels[i]) <==> {
        let l = labels[i];
        &&& 1 <= l.len() <= 63
        &&& forall|j: int|
            0 <= j < l.len() ==> ('a' <= #[trigger] l[j] <= 'z' || 'A' <= l[j] <= 'Z' || '0' <= l[j]
                <= '9' || l[j] == '-')
        &&& l[0] != '-'
        &&& l[l.len() - 1] != '-'
    }) by {
        let l = labels[i];
        assert(l.len() > 0 ==> l.last() == l[l.len() - 1]);
    }
}

/// A matched name stays matched when entries are added.
pub proof fn lemma_matching_grows_with_entries(
    domains: Set<Seq<char>>,
    more: Set<Seq<char>>,
    qname: Seq<char>,
)
    requires
        domains.subset_of(more),
        blocked_by(domains, qname),
    ensures
        blocked_by(more, qname),
{
    let name = canonical_name(qname);
    let e = choose|e: Seq<char>| #[trigger] domains.contains(e) && entry_covers(e, name);
    assert(more.contains(e));
}

/// A name matched through entries that are not exact stays matched when a
/// label (any nonempty run of letters, digits and hyphens) is put in front
/// of it: a subdomain of a blocked name is blocked.
pub proof fn lemma_matching_covers_subdomains(domains: Set<Seq<char>>, qname: Seq<char>, label: Seq<char>)
    requires
        forall|e: Seq<char>| #[trigger] domains.contains(e) ==> !is_exact(e),
        qname == trim(qname),
        label.len() > 0,
        forall|i: int| 0 <= i < label.len() ==> label_char(#[trigger] label[i]),
        blocked_by(domains, qname),
    ensures
        blocked_by(domains, label + seq!['.'] + qname),
{
    let name = canonical_name(qname);
    let q2 = label + seq!['.'] + qname;
    let head = label + seq!['.'];
    assert(q2 =~= head + qname);
    // The new name is not padded: it starts with a label character and ends
    // where `qname` does.
    assert(label_char(head[0]));
    assert(trim_start(q2) == q2);
    lemma_trim_end_last(trim_start(qname));
    assert(qname.len() > 0);
    assert(q2.last() == qname.last());
    assert(trim_end(q2) == q2);
    assert(trim(q2) == q2);
    // Canonically, it is the label, a dot, and the canonical `qname`.
    let t = trim_end_matches(qname, '.');
    assert(lower(t).len() == t.len());
    lemma_trim_end_matches_concat(head, qname, '.');
    lemma_lower_concat(head, t);
    let name2 = canonical_name(q2);
    assert(name2 == lower(head) + name);
    let e = choose|e: Seq<char>| #[trigger] domains.contains(e) && entry_covers(e, name);
    let suffix = seq!['.'] + entry_base(e);
    assert(lower(head).last() == '.');
    if name == entry_base(e) {
        assert(name2.skip(name2.len() - suffix.len()) =~= suffix);
    } else {
        assert(name2.skip(name2.len() - suffix.len()) =~= name.skip(name.len() - suffix.len()));
    }
    assert(entry_covers(e, name2));
}

/// An accepted entry is in canonical form: lower-case, unpadded, without a
/// trailing dot, and canonicalizing it again gives it back unchanged.
pub proof fn lemma_canonical_entry_is_fixed(raw: Seq<char>)
    requires
        domain_check(raw) is Ok,
    ensures
        ({
            let s = domain_check(raw)->Ok_0;
            &&& s.len() > 0
            &&& !is_ws(s[0])
            &&& !is_ws(s.last())
            &&& s.last() != '.'
            &&& forall|k: int| 0 <= k < s.len() ==> !('A' <= #[trigger] s[k] && s[k] <= 'Z')
            &&& canonical_name(s) == s
            &&& domain_check(s) == Ok::<Seq<char>, Seq<char>>(s)
        }),
{
    let s = domain_check(raw)->Ok_0;
    let host = entry_base(s);
    reveal_strlit("*.");
    reveal_strlit("=");
    lemma_valid_host_ends(host);
    assert(s.last() == host.last());
    if is_exact(s) {
        assert(s.take(1)[0] == '=');
    } else if has_prefix(s, "*."@) {
        assert(s.take(2)[0] == '*');
    } else {
        assert(s[0] == host[0]);
    }
    lemma_plain_fixed(s);
}


/// A valid host begins and ends with a label character.
proof fn lemma_valid_host_ends(host: Seq<char>)
    requires
        host.len() > 0,
        valid_labels(host),
    ensures
        label_char(host[0]),
        label_char(host.last()),
{
    lemma_split_len(host, '.');
    lemma_split_first(host, '.');
    lemma_split_last(host, '.');
    let first = split(host, '.')[0];
    let last = split(host, '.').last();
    assert(valid_label(split(host, '.')[0]));
    assert(valid_label(split(host, '.')[split(host, '.').len() - 1]));
    assert(host.take(first.len() as int)[0] == first[0]);
    assert(host.skip(host.len() - last.len())[last.len() - 1] == last[last.len() - 1]);
    assert(label_char(first[0]));
    assert(label_char(last[last.len() - 1]));
}

/// An entry accepted by canonicalization blocks queries for its base name
/// and, unless it is exact, for every subdomain of it, whatever the
/// subdomain's letter case.
pub proof fn lemma_entry_blocks(entries: Set<Seq<char>>, raw: Seq<char>, sub: Seq<char>)
    requires
        domain_check(raw) is Ok,
        entries.contains(domain_check(raw)->Ok_0),
        valid_label(sub),
    ensures
        blocked_by(entries, entry_base(domain_check(raw)->Ok_0)),
        !is_exact(domain_check(raw)->Ok_0) ==> blocked_by(
            entries,
            sub + seq!['.'] + entry_base(domain_check(raw)->Ok_0),
        ),
{
    let entry = domain_check(raw)->Ok_0;
    let base = entry_base(entry);
    reveal_strlit("*.");
    reveal_strlit("=");
    lemma_valid_host_ends(base);
    assert(label_char(base[0]) && label_char(base.last()));
    // The entry is lower-cased, and so is its base.
    assert forall|k: int| 0 <= k < base.len() implies !('A' <= #[trigger] base[k] && base[k]
        <= 'Z') by {
        if is_exact(entry) {
            assert(base[k] == entry[k + 1]);
        } else if has_prefix(entry, "*."@) {
            assert(base[k] == entry[k + 2]);
        }
    }
    lemma_plain_fixed(base);
    assert(canonical_name(base) == base);
    assert(entry_covers(entry, base));
    // A subdomain query.
    if !is_exact(entry) {
        let q = sub + seq!['.'] + base;
        assert(q[0] == sub[0]);
        assert(q.last() == base.last());
        assert(label_char(sub[0]));
        lemma_plain_lower(q);
        let name = canonical_name(q);
        assert(name =~= lower(sub) + seq!['.'] + lower(base));
        assert(lower(base) =~= base);
        let suffix = seq!['.'] + base;
        assert(name.skip(name.len() - suffix.len()) =~= suffix);
        assert(entry_covers(entry, name));
    }
}

// ---------------------------------------------------------------------------
// Executable canonicalization and matching
// ---------------------------------------------------------------------------

/// Exec counterpart of [`canonical_name`].
pub fn canonical_chars(raw: &str) -> (r: Vec<char>)
    ensures
        r@ == canonical_name(raw@),
{
    let c = chars_of(raw);
    let t = trim_chars(&c);
    let d = trim_end_matching(&t, '.');
    lower_chars(&d)
}

proof fn lemma_utf8_len_prefix(s: Seq<char>, i: int)
    requires
        0 <= i <= s.len(),
    ensures
        utf8_len(s.take(i)) <= utf8_len(s),
    decreases s.len() - i,
{
    if i < s.len() {
        lemma_utf8_len_prefix(s, i + 1);
        assert(s.take(i + 1).drop_last() =~= s.take(i));
    } else {
        assert(s.take(i) =~= s);
    }
}

fn utf8_width_of(c: char) -> (r: usize)
    ensures
        r == utf8_width(c),
{
    let u = c as u32;
    if u < 0x80 {
        1
    } else if u < 0x800 {
        2
    } else if u < 0x10000 {
        3
    } else {
        4
    }
}

/// Whether the UTF-8 encoding of `s` is longer than `limit` bytes.
fn utf8_longer_than(s: &[char], limit: usize) -> (r: bool)
    requires
        limit < usize::MAX - 4,
    ensures
        r == (utf8_len(s@) > limit),
{
    let mut total: usize = 0;
    let mut i: usize = 0;
    while i < s.len()
        invariant
            i <= s.len(),
            limit < usize::MAX - 4,
            total == utf8_len(s@.take(i as int)),
            total <= limit,
        decreases s.len() - i,
    {
        proof {
            assert(s@.take(i + 1).drop_last() =~= s@.take(i as int));
        }
        total = total + utf8_width_of(s[i]);
        i += 1;
        if total > limit {
            proof {
                lemma_utf8_len_prefix(s@, i as int);
            }
            return true;
        }
    }
    proof {
        assert(s@.take(s.len() as int) =~= s@);
    }
    false
}

fn is_label_char(c: char) -> (r: bool)
    ensures
        r == label_char(c),
{
    ('a' <= c && c <= 'z') || ('A' <= c && c <= 'Z') || ('0' <= c && c <= '9') || c == '-'
}

fn label_ok(l: &[char]) -> (r: bool)
    ensures
        r == valid_label(l@),
{
    if l.len() == 0 || l.len() > 63 {
        return false;
    }
    let mut i: usize = 0;
    while i < l.len()
        invariant
            i <= l.len(),
            forall|k: int| 0 <= k < i ==> label_char(#[trigger] l@[k]),
        decreases l.len() - i,
    {
        if !is_label_char(l[i]) {
            return false;
        }
        i += 1;
    }
    l[0] != '-' && l[l.len() - 1] != '-'
}

/// The base of a blocklist entry, and whether the entry is exact.
fn base_of(entry: &[char]) -> (r: (Vec<char>, bool))
    ensures
        r.0@ == entry_base(entry@),
        r.1 == is_exact(entry@),
{
    let eq = chars_of("=");
    if starts_with(entry, &eq) {
        proof {
            reveal_strlit("=");
            assert(entry@.subrange(1, entry@.len() as int) =~= entry@.skip(1));
        }
        (slice_chars(entry, 1, entry.len()), true)
    } else {
        (remove_prefix(entry, &chars_of("*.")), false)
    }
}

/// `invalid domain '<raw>'`.
fn invalid_domain(raw: &str) -> (r: String)
    ensures
        r@ == invalid_domain_message(raw@),
{
    let head = concat(&chars_of("invalid domain '"), &chars_of(raw));
    string_of(&concat(&head, &chars_of("'")))
}

/// Canonicalizes a blocklist domain: lower-case it, drop surrounding
/// whitespace and trailing dots, allow an optional `*.` wildcard or `=`
/// exact-match prefix (kept in the result), and require a syntactically
/// valid fully-qualified name.
pub fn normalize_domain(raw: &str) -> (r: Result<String, crate::state::StateError>)
    ensures
        match r {
            Ok(s) => domain_check(raw@) == Ok::<Seq<char>, Seq<char>>(s@),
            Err(crate::state::StateError::Invalid(m)) => domain_check(raw@) == Err::<
                Seq<char>,
                Seq<char>,
            >(m@),
        },
{
    let s = canonical_chars(raw);
    if s.len() == 0 {
        return Err(crate::state::StateError::Invalid("empty domain".to_owned()));
    }
    let (host, _) = base_of(&s);
    if host.len() == 0 || utf8_longer_than(&host, 253) {
        return Err(crate::state::StateError::Invalid(invalid_domain(raw)));
    }
    if !contains_char(&host, '.') {
        return Err(crate::state::StateError::Invalid(not_fqdn(raw)));
    }
    let labels = split_chars(&host, '.');
    let ghost pieces = split(host@, '.');
    let mut i: usize = 0;
    while i < labels.len()
        invariant
            i <= labels.len(),
            labels@.map_values(|v: Vec<char>| v@) == pieces,
            pieces == split(host@, '.'),
            s@ == canonical_name(raw@),
            host@ == entry_base(s@),
            s@.len() > 0,
            host@.len() > 0,
            utf8_len(host@) <= 253,
            host@.contains('.'),
            forall|k: int| 0 <= k < i ==> valid_label(#[trigger] pieces[k]),
        decreases labels.len() - i,
    {
        let l = labels[i].as_slice();
        assert(l@ == pieces[i as int]);
        if !label_ok(l) {
            proof {
                assert(!valid_label(split(host@, '.')[i as int]));
                assert(!valid_labels(host@));
            }
            return Err(crate::state::StateError::Invalid(invalid_domain(raw)));
        }
        i += 1;
    }
    Ok(string_of(&s))
}

/// `'<raw>' is not a fully-qualified domain name`.
fn not_fqdn(raw: &str) -> (r: String)
    ensures
        r@ == not_fqdn_message(raw@),
{
    let head = concat(&chars_of("'"), &chars_of(raw));
    string_of(&concat(&head, &chars_of("' is not a fully-qualified domain name")))
}

/// Whether `qname` is covered by any entry of `domains`. An entry `d` (or
/// `*.d`) matches the apex `d` and any subdomain `sub.d`; an exact entry
/// `=d` matches `d` only. Matching is case- and trailing-dot-insensitive.
pub fn name_matches(domains: &StrSet, qname: &str) -> (r: bool)
    requires
        domains.wf(),
    ensures
        r == blocked_by(domains@, qname@),
{
    let name = canonical_chars(qname);
    if name.len() == 0 {
        return false;
    }
    let n = domains.len();
    proof {
        domains.lemma_wf();
    }
    let mut i: usize = 0;
    while i < n
        invariant
            i <= n == domains.seq().len(),
            domains.wf(),
            name@ == canonical_name(qname@),
            name@.len() > 0,
            forall|k: int| 0 <= k < i ==> !entry_covers(#[trigger] domains.seq()[k], name@),
        decreases n - i,
    {
        let entry = chars_of(domains.get(i).as_str());
        let (base, exact) = base_of(&entry);
        let mut dot: Vec<char> = Vec::new();
        dot.push('.');
        let dotted = concat(&dot, &base);
        proof {
            assert(dot@ =~= seq!['.']);
        }
        if chars_eq(&name, &base) || (!exact && ends_with(&name, &dotted)) {
            proof {
                domains.lemma_wf();
                assert(domains@.contains(domains.seq()[i as int]));
            }
            return true;
        }
        i += 1;
    }
    proof {
        domains.lemma_wf();
        assert forall|e: Seq<char>| #[trigger] domains@.contains(e) implies !entry_covers(
            e,
            name@,
        ) by {
            let k = choose|k: int| 0 <= k < domains.seq().len() && domains.seq()[k] == e;
        }
    }
    false
}

} // verus!
