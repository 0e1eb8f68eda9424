//! The daemon's authoritative blocklist state and its mutations.
//!
//! Every mutation first validates and canonicalizes its whole batch (one bad
//! entry rejects the command), then plans the entries that actually change.
//! The daemon persists that plan and only then commits it to memory, so the
//! in-memory state never runs ahead of what was stored.
use vstd::prelude::*;

use crate::cidr::{canonical_cidr, canonicalize_cidr};
use crate::domain::{blocked_by, domain_check, entry_base, is_exact, lemma_entry_blocks, name_matches,
    normalize_domain, valid_label};
use crate::strset::{lemma_sorted_no_duplicates, sorted, StrSet};
use crate::text::{chars_of, concat, string_of};

verus! {

/// Errors from state mutations: client input that was rejected. The
/// message is safe to echo back.
#[derive(Debug, Clone, PartialEq, Eq)]
pub enum StateError {
    Invalid(String),
}

/// An active blocking session.
#[derive(Debug, Clone, Copy, PartialEq, Eq, Structural)]
pub struct Session {
    pub until_unix: i64,
    pub committed: bool,
}

/// Result of a mutating command: how many entries actually changed, and the
/// resulting set size.
#[derive(Debug, Clone, Copy, PartialEq, Eq, Structural)]
pub struct MutationResult {
    pub changed: usize,
    pub total: usize,
}

// ---------------------------------------------------------------------------
// Batch model
// ---------------------------------------------------------------------------

/// The texts of a list of strings.
pub open spec fn texts(raw: Seq<String>) -> Seq<Seq<char>> {
    raw.map_values(|s: String| s@)
}

/// The first rejection message of the batch, in batch order.
pub open spec fn first_rejection(
    raw: Seq<Seq<char>>,
    check: spec_fn(Seq<char>) -> Result<Seq<char>, Seq<char>>,
) -> Option<Seq<char>>
    decreases raw.len(),
{
    if raw.len() == 0 {
        None
    } else {
        match first_rejection(raw.drop_last(), check) {
            Some(e) => Some(e),
            None => match check(raw.last()) {
                Err(e) => Some(e),
                Ok(_) => None,
            },
        }
    }
}

/// The canonical forms of the batch's entries.
pub open spec fn accepted(
    raw: Seq<Seq<char>>,
    check: spec_fn(Seq<char>) -> Result<Seq<char>, Seq<char>>,
) -> Set<Seq<char>> {
    Set::new(
        |x: Seq<char>|
            exists|i: int| 0 <= i < raw.len() && check(#[trigger] raw[i]) == Ok::<Seq<char>, Seq<char>>(x),
    )
}

/// A batch is all-or-nothing: an empty batch and any bad entry reject it,
/// otherwise it stands for the set of its canonical entries.
pub open spec fn batch(
    raw: Seq<Seq<char>>,
    check: spec_fn(Seq<char>) -> Result<Seq<char>, Seq<char>>,
) -> Result<Set<Seq<char>>, Seq<char>> {
    if raw.len() == 0 {
        Err("empty input list"@)
    } else {
        match first_rejection(raw, check) {
            Some(e) => Err(e),
            None => Ok(accepted(raw, check)),
        }
    }
}

/// Canonicalization of blocklist domains.
pub open spec fn domain_rule() -> spec_fn(Seq<char>) -> Result<Seq<char>, Seq<char>> {
    |raw: Seq<char>| domain_check(raw)
}

pub open spec fn invalid_cidr_message(raw: Seq<char>) -> Seq<char> {
    "invalid CIDR '"@ + raw + "'"@
}

/// The outcome of canonicalizing a CIDR.
pub open spec fn cidr_check(raw: Seq<char>) -> Result<Seq<char>, Seq<char>> {
    match canonical_cidr(raw) {
        Some(c) => Ok(c),
        None => Err(invalid_cidr_message(raw)),
    }
}

/// Canonicalization of blocklist CIDRs.
pub open spec fn cidr_rule() -> spec_fn(Seq<char>) -> Result<Seq<char>, Seq<char>> {
    |raw: Seq<char>| cidr_check(raw)
}

/// Adding a batch to `current`: the new set and how many entries it gained.
pub open spec fn apply_add(
    current: Set<Seq<char>>,
    raw: Seq<Seq<char>>,
    check: spec_fn(Seq<char>) -> Result<Seq<char>, Seq<char>>,
) -> Result<(Set<Seq<char>>, nat), Seq<char>> {
    match batch(raw, check) {
        Err(e) => Err(e),
        Ok(n) => Ok((current.union(n), n.difference(current).len())),
    }
}

/// Removing a batch from `current`: the new set and how many entries it lost.
pub open spec fn apply_remove(
    current: Set<Seq<char>>,
    raw: Seq<Seq<char>>,
    check: spec_fn(Seq<char>) -> Result<Seq<char>, Seq<char>>,
) -> Result<(Set<Seq<char>>, nat), Seq<char>> {
    match batch(raw, check) {
        Err(e) => Err(e),
        Ok(n) => Ok((current.difference(n), n.intersect(current).len())),
    }
}

proof fn lemma_first_rejection_extends(
    raw: Seq<Seq<char>>,
    check: spec_fn(Seq<char>) -> Result<Seq<char>, Seq<char>>,
    i: int,
)
    requires
        0 <= i <= raw.len(),
        first_rejection(raw.take(i), check) is Some,
    ensures
        first_rejection(raw, check) == first_rejection(raw.take(i), check),
    decreases raw.len() - i,
{
    if i < raw.len() {
        assert(raw.take(i + 1).drop_last() =~= raw.take(i));
        lemma_first_rejection_extends(raw, check, i + 1);
    } else {
        assert(raw.take(i) =~= raw);
    }
}

proof fn lemma_accepted_step(
    raw: Seq<Seq<char>>,
    check: spec_fn(Seq<char>) -> Result<Seq<char>, Seq<char>>,
    i: int,
    x: Seq<char>,
)
    requires
        0 <= i < raw.len(),
        check(raw[i]) == Ok::<Seq<char>, Seq<char>>(x),
    ensures
        accepted(raw.take(i + 1), check) == accepted(raw.take(i), check).insert(x),
{
    let a = accepted(raw.take(i + 1), check);
    let b = accepted(raw.take(i), check).insert(x);
    assert forall|y: Seq<char>| a.contains(y) <==> b.contains(y) by {
        if a.contains(y) {
            let k = choose|k: int| 0 <= k < i + 1 && check(#[trigger] raw.take(i + 1)[k]) == Ok::<Seq<char>, Seq<char>>(y);
            if k < i {
                assert(raw.take(i)[k] == raw[k]);
            }
        }
        if accepted(raw.take(i), check).contains(y) {
            let k = choose|k: int| 0 <= k < i && check(#[trigger] raw.take(i)[k]) == Ok::<Seq<char>, Seq<char>>(y);
            assert(raw.take(i + 1)[k] == raw[k]);
        }
        if y == x {
            assert(raw.take(i + 1)[i] == raw[i]);
        }
    }
    assert(a =~= b);
}

// ---------------------------------------------------------------------------
// Laws of the blocklist
// ---------------------------------------------------------------------------

/// Adding the same batch twice: the second time changes nothing.
pub proof fn lemma_add_idempotent(
    current: Set<Seq<char>>,
    raw: Seq<Seq<char>>,
    check: spec_fn(Seq<char>) -> Result<Seq<char>, Seq<char>>,
)
    requires
        apply_add(current, raw, check) is Ok,
    ensures
        ({
            let (once, _) = apply_add(current, raw, check)->Ok_0;
            apply_add(once, raw, check) == Ok::<(Set<Seq<char>>, nat), Seq<char>>((once, 0nat))
        }),
{
    let n = batch(raw, check)->Ok_0;
    let once = current.union(n);
    assert(once.union(n) =~= once);
    assert(n.difference(once) =~= Set::<Seq<char>>::empty());
}

/// Removing a batch right after adding it leaves what removing it alone
/// would have left: a removal undoes the addition.
pub proof fn lemma_remove_undoes_add(
    current: Set<Seq<char>>,
    raw: Seq<Seq<char>>,
    check: spec_fn(Seq<char>) -> Result<Seq<char>, Seq<char>>,
)
    requires
        apply_add(current, raw, check) is Ok,
    ensures
        ({
            let (once, _) = apply_add(current, raw, check)->Ok_0;
            apply_remove(once, raw, check) is Ok && apply_remove(once, raw, check)->Ok_0.0
                == apply_remove(current, raw, check)->Ok_0.0
        }),
{
    let n = batch(raw, check)->Ok_0;
    assert(current.union(n).difference(n) =~= current.difference(n));
}

/// A rejected batch is rejected by additions and removals alike, with the
/// same message.
pub proof fn lemma_rejection_is_atomic(
    current: Set<Seq<char>>,
    raw: Seq<Seq<char>>,
    check: spec_fn(Seq<char>) -> Result<Seq<char>, Seq<char>>,
)
    requires
        batch(raw, check) is Err,
    ensures
        apply_add(current, raw, check) == Err::<(Set<Seq<char>>, nat), Seq<char>>(
            batch(raw, check)->Err_0,
        ),
        apply_remove(current, raw, check) == Err::<(Set<Seq<char>>, nat), Seq<char>>(
            batch(raw, check)->Err_0,
        ),
{
}


proof fn lemma_no_rejection_all_accepted(
    raw: Seq<Seq<char>>,
    check: spec_fn(Seq<char>) -> Result<Seq<char>, Seq<char>>,
    i: int,
)
    requires
        first_rejection(raw, check) is None,
        0 <= i < raw.len(),
    ensures
        check(raw[i]) is Ok,
    decreases raw.len(),
{
    if i < raw.len() - 1 {
        assert(raw.drop_last()[i] == raw[i]);
        lemma_no_rejection_all_accepted(raw.drop_last(), check, i);
    }
}

/// After `AddDomains` succeeds, each of its domains blocks queries for the
/// domain itself and, unless it is an exact entry `=d`, for any subdomain of
/// it (a wildcard entry `*.d` blocks `d` too).
pub proof fn lemma_added_domain_is_blocked(
    current: Set<Seq<char>>,
    raw: Seq<Seq<char>>,
    i: int,
    sub: Seq<char>,
)
    requires
        apply_add(current, raw, domain_rule()) is Ok,
        0 <= i < raw.len(),
        valid_label(sub),
    ensures
        ({
            let entry = domain_check(raw[i])->Ok_0;
            let after = apply_add(current, raw, domain_rule())->Ok_0.0;
            &&& domain_check(raw[i]) is Ok
            &&& blocked_by(after, entry_base(entry))
            &&& !is_exact(entry) ==> blocked_by(after, sub + seq!['.'] + entry_base(entry))
        }),
{
    let check = domain_rule();
    lemma_no_rejection_all_accepted(raw, check, i);
    let entry = domain_check(raw[i])->Ok_0;
    assert(check(raw[i]) == Ok::<Seq<char>, Seq<char>>(entry));
    assert(accepted(raw, check).contains(entry));
    let after = apply_add(current, raw, check)->Ok_0.0;
    assert(after.contains(entry));
    lemma_entry_blocks(after, raw[i], sub);
}

/// After `RemoveDomains` succeeds, none of its domains remains an entry.
pub proof fn lemma_removed_domain_is_gone(current: Set<Seq<char>>, raw: Seq<Seq<char>>, i: int)
    requires
        apply_remove(current, raw, domain_rule()) is Ok,
        0 <= i < raw.len(),
    ensures
        domain_check(raw[i]) is Ok,
        !apply_remove(current, raw, domain_rule())->Ok_0.0.contains(domain_check(raw[i])->Ok_0),
{
    let check = domain_rule();
    lemma_no_rejection_all_accepted(raw, check, i);
    let entry = domain_check(raw[i])->Ok_0;
    assert(check(raw[i]) == Ok::<Seq<char>, Seq<char>>(entry));
    assert(accepted(raw, check).contains(entry));
}

// ---------------------------------------------------------------------------
// Executable batch canonicalization
// ---------------------------------------------------------------------------

fn empty_input_error() -> (r: StateError)
    ensures
        r == StateError::Invalid(r->Invalid_0),
        r->Invalid_0@ == "empty input list"@,
{
    StateError::Invalid("empty input list".to_owned())
}

/// Canonicalizes a CIDR to its network form (host bits zeroed), so that
/// equivalent inputs coincide, e.g. `142.250.1.5/16` -> `142.250.0.0/16`.
pub fn normalize_cidr(raw: &str) -> (r: Result<String, StateError>)
    ensures
        match r {
            Ok(s) => cidr_check(raw@) == Ok::<Seq<char>, Seq<char>>(s@),
            Err(StateError::Invalid(m)) => cidr_check(raw@) == Err::<Seq<char>, Seq<char>>(m@),
        },
{
    match canonicalize_cidr(raw) {
        Some(s) => Ok(s),
        None => {
            let head = concat(&chars_of("invalid CIDR '"), &chars_of(raw));
            Err(StateError::Invalid(string_of(&concat(&head, &chars_of("'")))))
        },
    }
}

/// Validates and canonicalizes every domain of the batch, rejecting the
/// whole batch on the first bad one. Duplicates collapse.
pub fn normalize_domains(raw: &[String]) -> (r: Result<StrSet, StateError>)
    ensures
        match r {
            Ok(set) => set.wf() && batch(texts(raw@), domain_rule()) == Ok::<
                Set<Seq<char>>,
                Seq<char>,
            >(set@),
            Err(StateError::Invalid(m)) => batch(texts(raw@), domain_rule()) == Err::<
                Set<Seq<char>>,
                Seq<char>,
            >(m@),
        },
{
    let ghost v = texts(raw@);
    let ghost check = domain_rule();
    if raw.len() == 0 {
        return Err(empty_input_error());
    }
    let mut out = StrSet::new();
    let mut i: usize = 0;
    proof {
        assert(accepted(v.take(0), check) =~= Set::<Seq<char>>::empty());
    }
    while i < raw.len()
        invariant
            i <= raw.len(),
            v == texts(raw@),
            check == domain_rule(),
            out.wf(),
            first_rejection(v.take(i as int), check) is None,
            out@ == accepted(v.take(i as int), check),
        decreases raw.len() - i,
    {
        assert(v[i as int] == raw@[i as int]@);
        assert(v.take(i + 1).drop_last() =~= v.take(i as int));
        match normalize_domain(raw[i].as_str()) {
            Ok(s) => {
                proof {
                    lemma_accepted_step(v, check, i as int, s@);
                }
                out.insert(s);
            },
            Err(e) => {
                proof {
                    lemma_first_rejection_extends(v, check, i + 1);
                }
                return Err(e);
            },
        }
        i += 1;
    }
    proof {
        assert(v.take(raw.len() as int) =~= v);
    }
    Ok(out)
}

/// Validates and canonicalizes every CIDR of the batch, rejecting the whole
/// batch on the first bad one. Duplicates collapse.
pub fn normalize_cidrs(raw: &[String]) -> (r: Result<StrSet, StateError>)
    ensures
        match r {
            Ok(set) => set.wf() && batch(texts(raw@), cidr_rule()) == Ok::<
                Set<Seq<char>>,
                Seq<char>,
            >(set@),
            Err(StateError::Invalid(m)) => batch(texts(raw@), cidr_rule()) == Err::<
                Set<Seq<char>>,
                Seq<char>,
            >(m@),
        },
{
    let ghost v = texts(raw@);
    let ghost check = cidr_rule();
    if raw.len() == 0 {
        return Err(empty_input_error());
    }
    let mut out = StrSet::new();
    let mut i: usize = 0;
    proof {
        assert(accepted(v.take(0), check) =~= Set::<Seq<char>>::empty());
    }
    while i < raw.len()
        invariant
            i <= raw.len(),
            v == texts(raw@),
            check == cidr_rule(),
            out.wf(),
            first_rejection(v.take(i as int), check) is None,
            out@ == accepted(v.take(i as int), check),
        decreases raw.len() - i,
    {
        assert(v[i as int] == raw@[i as int]@);
        assert(v.take(i + 1).drop_last() =~= v.take(i as int));
        match normalize_cidr(raw[i].as_str()) {
            Ok(s) => {
                proof {
                    lemma_accepted_step(v, check, i as int, s@);
                }
                out.insert(s);
            },
            Err(e) => {
                proof {
                    lemma_first_rejection_extends(v, check, i + 1);
                }
                return Err(e);
            },
        }
        i += 1;
    }
    proof {
        assert(v.take(raw.len() as int) =~= v);
    }
    Ok(out)
}


// ---------------------------------------------------------------------------
// Planning and committing changes to one set
// ---------------------------------------------------------------------------

/// The entries of `normalized`, in order, whose membership in `current` is
/// `present`: the entries a removal would drop (`present`) or an addition
/// would add (`!present`).
fn select_by_membership(current: &StrSet, normalized: &StrSet, present: bool) -> (r: Vec<String>)
    requires
        current.wf(),
        normalized.wf(),
    ensures
        sorted(texts(r@)),
        texts(r@).to_set() == if present {
            normalized@.intersect(current@)
        } else {
            normalized@.difference(current@)
        },
{
    let ghost ns = normalized.seq();
    let mut r: Vec<String> = Vec::new();
    let n = normalized.len();
    let mut i: usize = 0;
    while i < n
        invariant
            i <= n == ns.len(),
            ns == normalized.seq(),
            normalized.wf(),
            current.wf(),
            sorted(texts(r@)),
            forall|k: int|
                0 <= k < r@.len() ==> exists|j: int|
                    0 <= j < i && #[trigger] texts(r@)[k] == ns[j],
            forall|x: Seq<char>|
                #[trigger] texts(r@).contains(x) <==> (ns.take(i as int).contains(x)
                    && current@.contains(x) == present),
        decreases n - i,
    {
        let item = normalized.get(i);
        let item_str = item.as_str();
        assert(item_str@ == ns[i as int]);
        let has = current.contains(item_str);
        let ghost before = texts(r@);
        assert(has == current@.contains(ns[i as int]));
        if has == present {
            r.push(item.clone());
            proof {
                assert(texts(r@) =~= before.push(ns[i as int]));
                assert forall|a: int, b: int| 0 <= a < b < texts(r@).len() implies seq_lt_pair(
                    texts(r@),
                    a,
                    b,
                ) by {
                    if b == texts(r@).len() - 1 {
                        let j = choose|j: int| 0 <= j < i && #[trigger] texts(r@)[a] == ns[j];
                        assert(texts(r@)[a] == before[a]);
                    }
                }
                assert forall|k: int|
                    0 <= k < r@.len() implies exists|j: int|
                        0 <= j < i + 1 && #[trigger] texts(r@)[k] == ns[j] by {
                    if k < before.len() {
                        assert(texts(r@)[k] == before[k]);
                        let j = choose|j: int| 0 <= j < i && #[trigger] before[k] == ns[j];
                        assert(texts(r@)[k] == ns[j]);
                    } else {
                        assert(texts(r@)[k] == ns[i as int]);
                    }
                }
            }
        } else {
            proof {
                assert forall|k: int|
                    0 <= k < r@.len() implies exists|j: int|
                        0 <= j < i + 1 && #[trigger] texts(r@)[k] == ns[j] by {
                    let j = choose|j: int| 0 <= j < i && #[trigger] texts(r@)[k] == ns[j];
                }
            }
        }
        proof {
            let now = texts(r@);
            assert(has == present ==> now == before.push(ns[i as int]));
            assert(has != present ==> now == before);
            assert(ns.take(i + 1) =~= ns.take(i as int).push(ns[i as int]));
            lemma_sorted_no_duplicates(ns);
            assert forall|x: Seq<char>|
                now.contains(x) <==> (ns.take(i + 1).contains(x) && current@.contains(x)
                    == present) by {
                if now.contains(x) {
                    let k = choose|k: int| 0 <= k < now.len() && #[trigger] now[k] == x;
                    if k < before.len() {
                        assert(before[k] == x);
                        assert(before.contains(x));
                        assert(ns.take(i as int).contains(x));
                        let m = choose|m: int| 0 <= m < i && #[trigger] ns.take(i as int)[m] == x;
                        assert(ns.take(i + 1)[m] == x);
                    } else {
                        assert(x == ns[i as int]);
                        assert(ns.take(i + 1)[i as int] == x);
                    }
                }
                if ns.take(i + 1).contains(x) && current@.contains(x) == present {
                    let k = choose|k: int| 0 <= k < i + 1 && #[trigger] ns.take(i + 1)[k] == x;
                    if k < i {
                        assert(ns.take(i as int)[k] == x);
                        assert(before.contains(x));
                        assert(ns.take(i as int).contains(x));
                        let m = choose|m: int| 0 <= m < before.len() && #[trigger] before[m] == x;
                        assert(now[m] == x);
                    } else {
                        assert(x == ns[i as int]);
                        assert(now[now.len() - 1] == x);
                    }
                }
            }
        }
        i += 1;
    }
    proof {
        assert(ns.take(n as int) =~= ns);
        normalized.lemma_wf();
        assert(texts(r@).to_set() =~= if present {
            normalized@.intersect(current@)
        } else {
            normalized@.difference(current@)
        });
    }
    r
}

pub open spec fn seq_lt_pair(s: Seq<Seq<char>>, a: int, b: int) -> bool {
    crate::text::seq_lt(s[a], s[b])
}

/// Inserts every entry of `items`.
pub(crate) fn insert_all(set: &mut StrSet, items: &[String])
    requires
        old(set).wf(),
    ensures
        final(set).wf(),
        final(set)@ == old(set)@.union(texts(items@).to_set()),
{
    let mut i: usize = 0;
    while i < items.len()
        invariant
            i <= items.len(),
            set.wf(),
            set@ == old(set)@.union(texts(items@).take(i as int).to_set()),
        decreases items.len() - i,
    {
        set.insert(items[i].clone());
        proof {
            let t = texts(items@);
            assert(t[i as int] == items@[i as int]@);
            assert(t.take(i + 1) =~= t.take(i as int).push(t[i as int]));
            t.take(i as int).lemma_push_to_set_commute(t[i as int]);
        }
        i += 1;
    }
    proof {
        assert(texts(items@).take(items.len() as int) =~= texts(items@));
        assert(set@ =~= old(set)@.union(texts(items@).to_set()));
    }
}

/// Removes every entry of `items`.
fn remove_all(set: &mut StrSet, items: &[String])
    requires
        old(set).wf(),
    ensures
        final(set).wf(),
        final(set)@ == old(set)@.difference(texts(items@).to_set()),
{
    let mut i: usize = 0;
    while i < items.len()
        invariant
            i <= items.len(),
            set.wf(),
            set@ == old(set)@.difference(texts(items@).take(i as int).to_set()),
        decreases items.len() - i,
    {
        set.remove(items[i].as_str());
        proof {
            let t = texts(items@);
            assert(t[i as int] == items@[i as int]@);
            assert(t.take(i + 1) =~= t.take(i as int).push(t[i as int]));
            t.take(i as int).lemma_push_to_set_commute(t[i as int]);
        }
        i += 1;
    }
    proof {
        assert(texts(items@).take(items.len() as int) =~= texts(items@));
        assert(set@ =~= old(set)@.difference(texts(items@).to_set()));
    }
}

// ---------------------------------------------------------------------------
// The blocklist state
// ---------------------------------------------------------------------------

/// A consistent point-in-time copy of all state.
pub struct Snapshot {
    pub domains: StrSet,
    pub cidrs: StrSet,
    pub session: Option<Session>,
}

/// The message of a rejected mutation.
pub open spec fn rejection<T>(r: Result<T, StateError>) -> Seq<char> {
    match r {
        Err(StateError::Invalid(m)) => m@,
        Ok(_) => Seq::empty(),
    }
}

impl Snapshot {
    pub open spec fn wf(&self) -> bool {
        self.domains.wf() && self.cidrs.wf()
    }

    /// `self` and `other` hold the same state.
    pub open spec fn same_as(&self, other: &Snapshot) -> bool {
        self.domains@ == other.domains@ && self.cidrs@ == other.cidrs@ && self.session
            == other.session
    }

    /// Empty state: no entries, no session.
    pub fn new() -> (r: Snapshot)
        ensures
            r.wf(),
            r.domains@ == Set::<Seq<char>>::empty(),
            r.cidrs@ == Set::<Seq<char>>::empty(),
            r.session is None,
    {
        Snapshot { domains: StrSet::new(), cidrs: StrSet::new(), session: None }
    }

    /// The state held by the stored rows: every domain and CIDR row (rows
    /// are stored canonical, so they are taken as they are) and the session.
    pub fn restore(domains: &[String], cidrs: &[String], session: Option<Session>) -> (r: Snapshot)
        ensures
            r.wf(),
            r.domains@ == texts(domains@).to_set(),
            r.cidrs@ == texts(cidrs@).to_set(),
            r.session == session,
    {
        let mut d = StrSet::new();
        insert_all(&mut d, domains);
        let mut c = StrSet::new();
        insert_all(&mut c, cidrs);
        proof {
            assert(Set::<Seq<char>>::empty().union(texts(domains@).to_set()) =~= texts(
                domains@,
            ).to_set());
            assert(Set::<Seq<char>>::empty().union(texts(cidrs@).to_set()) =~= texts(
                cidrs@,
            ).to_set());
        }
        Snapshot { domains: d, cidrs: c, session }
    }

    /// A copy of the current state.
    pub fn summary(&self) -> (r: Snapshot)
        requires
            self.wf(),
        ensures
            r.wf(),
            r.same_as(self),
            r.domains.seq() == self.domains.seq(),
            r.cidrs.seq() == self.cidrs.seq(),
    {
        Snapshot { domains: self.domains.clone(), cidrs: self.cidrs.clone(), session: self.session }
    }

    /// Whether a DNS query for `qname` is sinkholed by the current blocklist.
    pub fn is_blocked(&self, qname: &str) -> (r: bool)
        requires
            self.wf(),
        ensures
            r == blocked_by(self.domains@, qname@),
    {
        name_matches(&self.domains, qname)
    }

    /// The domains an `AddDomains` of `raw` adds, in order, or its rejection.
    pub fn plan_add_domains(&self, raw: &[String]) -> (r: Result<Vec<String>, StateError>)
        requires
            self.wf(),
        ensures
            match batch(texts(raw@), domain_rule()) {
                Ok(n) => r is Ok && sorted(texts(r->Ok_0@)) && texts(r->Ok_0@).to_set()
                    == n.difference(self.domains@),
                Err(e) => r is Err && rejection(r) == e,
            },
    {
        let normalized = normalize_domains(raw)?;
        Ok(select_by_membership(&self.domains, &normalized, false))
    }

    /// The domains a `RemoveDomains` of `raw` removes, in order, or its
    /// rejection.
    pub fn plan_remove_domains(&self, raw: &[String]) -> (r: Result<Vec<String>, StateError>)
        requires
            self.wf(),
        ensures
            match batch(texts(raw@), domain_rule()) {
                Ok(n) => r is Ok && sorted(texts(r->Ok_0@)) && texts(r->Ok_0@).to_set()
                    == n.intersect(self.domains@),
                Err(e) => r is Err && rejection(r) == e,
            },
    {
        let normalized = normalize_domains(raw)?;
        Ok(select_by_membership(&self.domains, &normalized, true))
    }

    /// The CIDRs an `AddAddrs` of `raw` adds, in order, or its rejection.
    pub fn plan_add_cidrs(&self, raw: &[String]) -> (r: Result<Vec<String>, StateError>)
        requires
            self.wf(),
        ensures
            match batch(texts(raw@), cidr_rule()) {
                Ok(n) => r is Ok && sorted(texts(r->Ok_0@)) && texts(r->Ok_0@).to_set()
                    == n.difference(self.cidrs@),
                Err(e) => r is Err && rejection(r) == e,
            },
    {
        let normalized = normalize_cidrs(raw)?;
        Ok(select_by_membership(&self.cidrs, &normalized, false))
    }

    /// The CIDRs a `RemoveAddrs` of `raw` removes, in order, or its
    /// rejection.
    pub fn plan_remove_cidrs(&self, raw: &[String]) -> (r: Result<Vec<String>, StateError>)
        requires
            self.wf(),
        ensures
            match batch(texts(raw@), cidr_rule()) {
                Ok(n) => r is Ok && sorted(texts(r->Ok_0@)) && texts(r->Ok_0@).to_set()
                    == n.intersect(self.cidrs@),
                Err(e) => r is Err && rejection(r) == e,
            },
    {
        let normalized = normalize_cidrs(raw)?;
        Ok(select_by_membership(&self.cidrs, &normalized, true))
    }

    /// Records domains that were added (after they were persisted).
    pub fn commit_add_domains(&mut self, added: &[String]) -> (r: MutationResult)
        requires
            old(self).wf(),
        ensures
            final(self).wf(),
            final(self).domains@ == old(self).domains@.union(texts(added@).to_set()),
            final(self).cidrs@ == old(self).cidrs@,
            final(self).session == old(self).session,
            r.changed == added@.len(),
            r.total == final(self).domains@.len(),
    {
        insert_all(&mut self.domains, added);
        MutationResult { changed: added.len(), total: self.domains.len() }
    }

    /// Records domains that were removed (after they were persisted).
    pub fn commit_remove_domains(&mut self, removed: &[String]) -> (r: MutationResult)
        requires
            old(self).wf(),
        ensures
            final(self).wf(),
            final(self).domains@ == old(self).domains@.difference(texts(removed@).to_set()),
            final(self).cidrs@ == old(self).cidrs@,
            final(self).session == old(self).session,
            r.changed == removed@.len(),
            r.total == final(self).domains@.len(),
    {
        remove_all(&mut self.domains, removed);
        MutationResult { changed: removed.len(), total: self.domains.len() }
    }

    /// Records CIDRs that were added (after they were persisted).
    pub fn commit_add_cidrs(&mut self, added: &[String]) -> (r: MutationResult)
        requires
            old(self).wf(),
        ensures
            final(self).wf(),
            final(self).cidrs@ == old(self).cidrs@.union(texts(added@).to_set()),
            final(self).domains@ == old(self).domains@,
            final(self).session == old(self).session,
            r.changed == added@.len(),
            r.total == final(self).cidrs@.len(),
    {
        insert_all(&mut self.cidrs, added);
        MutationResult { changed: added.len(), total: self.cidrs.len() }
    }

    /// Records CIDRs that were removed (after they were persisted).
    pub fn commit_remove_cidrs(&mut self, removed: &[String]) -> (r: MutationResult)
        requires
            old(self).wf(),
        ensures
            final(self).wf(),
            final(self).cidrs@ == old(self).cidrs@.difference(texts(removed@).to_set()),
            final(self).domains@ == old(self).domains@,
            final(self).session == old(self).session,
            r.changed == removed@.len(),
            r.total == final(self).cidrs@.len(),
    {
        remove_all(&mut self.cidrs, removed);
        MutationResult { changed: removed.len(), total: self.cidrs.len() }
    }

    /// `AddDomains` on the in-memory state: canonicalize the batch, add what
    /// is missing, report `{ changed, total }`. A rejected batch changes
    /// nothing.
    pub fn add_domains(&mut self, raw: &[String]) -> (r: Result<MutationResult, StateError>)
        requires
            old(self).wf(),
        ensures
            final(self).wf(),
            match apply_add(old(self).domains@, texts(raw@), domain_rule()) {
                Ok((set, changed)) => r is Ok && final(self).domains@ == set && r->Ok_0.changed
                    == changed && r->Ok_0.total == set.len() && final(self).cidrs@ == old(
                    self,
                ).cidrs@ && final(self).session == old(self).session,
                Err(e) => r is Err && rejection(r) == e && final(self).same_as(&*old(self)),
            },
    {
        let added = self.plan_add_domains(raw)?;
        proof {
            lemma_sorted_no_duplicates(texts(added@));
        }
        let m = self.commit_add_domains(&added);
        proof {
            self.domains.lemma_wf();
        }
        Ok(m)
    }

    /// `RemoveDomains` on the in-memory state.
    pub fn remove_domains(&mut self, raw: &[String]) -> (r: Result<MutationResult, StateError>)
        requires
            old(self).wf(),
        ensures
            final(self).wf(),
            match apply_remove(old(self).domains@, texts(raw@), domain_rule()) {
                Ok((set, changed)) => r is Ok && final(self).domains@ == set && r->Ok_0.changed
                    == changed && r->Ok_0.total == set.len() && final(self).cidrs@ == old(
                    self,
                ).cidrs@ && final(self).session == old(self).session,
                Err(e) => r is Err && rejection(r) == e && final(self).same_as(&*old(self)),
            },
    {
        let removed = self.plan_remove_domains(raw)?;
        let ghost n = batch(texts(raw@), domain_rule())->Ok_0;
        proof {
            lemma_sorted_no_duplicates(texts(removed@));
        }
        let m = self.commit_remove_domains(&removed);
        proof {
            self.domains.lemma_wf();
            assert(old(self).domains@.difference(n.intersect(old(self).domains@))
                =~= old(self).domains@.difference(n));
        }
        Ok(m)
    }

    /// `AddAddrs` on the in-memory state.
    pub fn add_cidrs(&mut self, raw: &[String]) -> (r: Result<MutationResult, StateError>)
        requires
            old(self).wf(),
        ensures
            final(self).wf(),
            match apply_add(old(self).cidrs@, texts(raw@), cidr_rule()) {
                Ok((set, changed)) => r is Ok && final(self).cidrs@ == set && r->Ok_0.changed
                    == changed && r->Ok_0.total == set.len() && final(self).domains@ == old(
                    self,
                ).domains@ && final(self).session == old(self).session,
                Err(e) => r is Err && rejection(r) == e && final(self).same_as(&*old(self)),
            },
    {
        let added = self.plan_add_cidrs(raw)?;
        proof {
            lemma_sorted_no_duplicates(texts(added@));
        }
        let m = self.commit_add_cidrs(&added);
        proof {
            self.cidrs.lemma_wf();
        }
        Ok(m)
    }

    /// `RemoveAddrs` on the in-memory state.
    pub fn remove_cidrs(&mut self, raw: &[String]) -> (r: Result<MutationResult, StateError>)
        requires
            old(self).wf(),
        ensures
            final(self).wf(),
            match apply_remove(old(self).cidrs@, texts(raw@), cidr_rule()) {
                Ok((set, changed)) => r is Ok && final(self).cidrs@ == set && r->Ok_0.changed
                    == changed && r->Ok_0.total == set.len() && final(self).domains@ == old(
                    self,
                ).domains@ && final(self).session == old(self).session,
                Err(e) => r is Err && rejection(r) == e && final(self).same_as(&*old(self)),
            },
    {
        let removed = self.plan_remove_cidrs(raw)?;
        let ghost n = batch(texts(raw@), cidr_rule())->Ok_0;
        proof {
            lemma_sorted_no_duplicates(texts(removed@));
        }
        let m = self.commit_remove_cidrs(&removed);
        proof {
            self.cidrs.lemma_wf();
            assert(old(self).cidrs@.difference(n.intersect(old(self).cidrs@))
                =~= old(self).cidrs@.difference(n));
        }
        Ok(m)
    }
}

} // verus!
