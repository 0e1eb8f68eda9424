//! The app-orchestrated scheduler's decisions: which sessions are active
//! now, the blocklist they call for, and the add/remove requests that move
//! the daemon from the session-managed set it was last given to that
//! blocklist. The app performs the requests and stores the new managed set.
use vstd::prelude::*;

use crate::config::{Recurrence, ScheduleRule, Session, WebsiteItem};
use crate::protocol::Request;
use crate::schedule::LocalMoment;
use crate::state::{insert_all, texts};
use crate::strset::{sorted, StrSet};

verus! {

// ---------------------------------------------------------------------------
// Model
// ---------------------------------------------------------------------------

/// Index of the library item with id `id`; when several share it, the last.
pub open spec fn item_index(library: Seq<WebsiteItem>, id: Seq<char>) -> Option<int>
    decreases library.len(),
{
    if library.len() == 0 {
        None
    } else if library.last().id@ == id {
        Some(library.len() - 1)
    } else {
        item_index(library.drop_last(), id)
    }
}

/// The domains (or, with `cidrs`, the CIDRs) of a library item.
pub open spec fn item_entries(item: WebsiteItem, cidrs: bool) -> Set<Seq<char>> {
    if cidrs {
        texts(item.cidrs@).to_set()
    } else {
        texts(item.domains@).to_set()
    }
}

/// The entries of the item with id `id`; nothing for an unknown id.
pub open spec fn id_entries(library: Seq<WebsiteItem>, id: Seq<char>, cidrs: bool) -> Set<
    Seq<char>,
> {
    match item_index(library, id) {
        Some(j) => item_entries(library[j], cidrs),
        None => Set::empty(),
    }
}

/// The union of the entries of the items `ids`.
pub open spec fn ids_entries(library: Seq<WebsiteItem>, ids: Seq<String>, cidrs: bool) -> Set<
    Seq<char>,
>
    decreases ids.len(),
{
    if ids.len() == 0 {
        Set::empty()
    } else {
        ids_entries(library, ids.drop_last(), cidrs).union(
            id_entries(library, ids.last()@, cidrs),
        )
    }
}

/// The union of the entries of the items of every session active at `now`.
pub open spec fn desired_entries(
    library: Seq<WebsiteItem>,
    sessions: Seq<Session>,
    now: LocalMoment,
    cidrs: bool,
) -> Set<Seq<char>>
    decreases sessions.len(),
{
    if sessions.len() == 0 {
        Set::empty()
    } else {
        desired_entries(library, sessions.drop_last(), now, cidrs).union(
            if sessions.last().active_at(now) {
                ids_entries(library, sessions.last().item_ids@, cidrs)
            } else {
                Set::empty()
            },
        )
    }
}

/// The ids of the sessions active at `now`, in order.
pub open spec fn active_ids(sessions: Seq<Session>, now: LocalMoment) -> Seq<Seq<char>>
    decreases sessions.len(),
{
    if sessions.len() == 0 {
        Seq::empty()
    } else {
        active_ids(sessions.drop_last(), now) + if sessions.last().active_at(now) {
            seq![sessions.last().id@]
        } else {
            Seq::<Seq<char>>::empty()
        }
    }
}

/// The elements of `s` outside `excluded`, in order.
pub open spec fn without(s: Seq<Seq<char>>, excluded: Set<Seq<char>>) -> Seq<Seq<char>>
    decreases s.len(),
{
    if s.len() == 0 {
        Seq::empty()
    } else {
        without(s.drop_last(), excluded) + if excluded.contains(s.last()) {
            Seq::<Seq<char>>::empty()
        } else {
            seq![s.last()]
        }
    }
}

/// Deciding whether each session is active at `now` stays in calendar
/// range (see [`Session::computable_at`]).
pub open spec fn sessions_computable(sessions: Seq<Session>, now: LocalMoment) -> bool {
    forall|i: int| 0 <= i < sessions.len() ==> (#[trigger] sessions[i]).computable_at(now)
}

// ---------------------------------------------------------------------------
// Laws
// ---------------------------------------------------------------------------

/// The desired blocklist is the union over all sessions active at `now`:
/// every entry of every item of each active session is in it, and each of
/// its entries comes from an item of some active session.
pub proof fn lemma_desired_is_union_of_active_sessions(
    library: Seq<WebsiteItem>,
    sessions: Seq<Session>,
    now: LocalMoment,
    cidrs: bool,
)
    ensures
        forall|i: int|
            0 <= i < sessions.len() && (#[trigger] sessions[i]).active_at(now) ==> ids_entries(
                library,
                sessions[i].item_ids@,
                cidrs,
            ).subset_of(desired_entries(library, sessions, now, cidrs)),
        forall|x: Seq<char>|
            #[trigger] desired_entries(library, sessions, now, cidrs).contains(x) ==> exists|i: int|
                0 <= i < sessions.len() && (#[trigger] sessions[i]).active_at(now) && ids_entries(
                    library,
                    sessions[i].item_ids@,
                    cidrs,
                ).contains(x),
    decreases sessions.len(),
{
    if sessions.len() > 0 {
        let rest = sessions.drop_last();
        lemma_desired_is_union_of_active_sessions(library, rest, now, cidrs);
        assert forall|i: int|
            0 <= i < sessions.len() && (#[trigger] sessions[i]).active_at(now) implies ids_entries(
                library,
                sessions[i].item_ids@,
                cidrs,
            ).subset_of(desired_entries(library, sessions, now, cidrs)) by {
            if i < sessions.len() - 1 {
                assert(rest[i] == sessions[i]);
            }
        }
        assert forall|x: Seq<char>|
            #[trigger] desired_entries(library, sessions, now, cidrs).contains(x) implies exists|i: int|
                0 <= i < sessions.len() && (#[trigger] sessions[i]).active_at(now) && ids_entries(
                    library,
                    sessions[i].item_ids@,
                    cidrs,
                ).contains(x) by {
            if desired_entries(library, rest, now, cidrs).contains(x) {
                let i = choose|i: int|
                    0 <= i < rest.len() && (#[trigger] rest[i]).active_at(now) && ids_entries(
                        library,
                        rest[i].item_ids@,
                        cidrs,
                    ).contains(x);
                assert(sessions[i] == rest[i]);
            } else {
                let j = sessions.len() - 1;
                assert(sessions[j] == sessions.last());
            }
        }
    }
}

/// The elements of `s` outside `excluded` are exactly those of `s` that are
/// not in `excluded`.
pub proof fn lemma_without_members(s: Seq<Seq<char>>, excluded: Set<Seq<char>>)
    ensures
        forall|x: Seq<char>|
            #[trigger] without(s, excluded).contains(x) <==> (s.contains(x) && !excluded.contains(
                x,
            )),
    decreases s.len(),
{
    if s.len() > 0 {
        lemma_without_members(s.drop_last(), excluded);
        let w = without(s, excluded);
        let w0 = without(s.drop_last(), excluded);
        assert forall|x: Seq<char>| #[trigger] w.contains(x) <==> (s.contains(x) && !excluded.contains(x)) by {
            if w.contains(x) {
                let k = choose|k: int| 0 <= k < w.len() && w[k] == x;
                if k < w0.len() {
                    assert(w0[k] == x);
                    assert(w0.contains(x));
                    let m = choose|m: int| 0 <= m < s.drop_last().len() && s.drop_last()[m] == x;
                    assert(s[m] == x);
                } else {
                    assert(x == s.last());
                    assert(s[s.len() - 1] == x);
                }
            }
            if s.contains(x) && !excluded.contains(x) {
                let k = choose|k: int| 0 <= k < s.len() && s[k] == x;
                if k < s.len() - 1 {
                    assert(s.drop_last()[k] == x);
                    assert(w0.contains(x));
                    let m = choose|m: int| 0 <= m < w0.len() && w0[m] == x;
                    assert(w[m] == x);
                } else {
                    assert(w[w.len() - 1] == x);
                }
            }
        }
    }
}

/// Applying the reconcile deltas to the session-managed set yields exactly
/// the desired set: drop the managed entries no longer desired, add the
/// desired entries not yet managed.
pub proof fn lemma_delta_reaches_desired(managed: Seq<Seq<char>>, desired: Seq<Seq<char>>)
    ensures
        managed.to_set().difference(without(managed, desired.to_set()).to_set()).union(
            without(desired, managed.to_set()).to_set(),
        ) == desired.to_set(),
{
    lemma_without_members(managed, desired.to_set());
    lemma_without_members(desired, managed.to_set());
    assert(managed.to_set().difference(without(managed, desired.to_set()).to_set()).union(
        without(desired, managed.to_set()).to_set(),
    ) =~= desired.to_set());
}

/// The scheduler only ever removes entries it manages itself, so entries
/// added by hand are never removed by a reconcile.
pub proof fn lemma_removals_are_managed(managed: Seq<Seq<char>>, desired: Set<Seq<char>>)
    ensures
        without(managed, desired).to_set().subset_of(managed.to_set()),
{
    lemma_without_members(managed, desired);
}

/// When the managed set already equals the desired set there is nothing to
/// push.
pub proof fn lemma_in_sync_no_delta(managed: Seq<Seq<char>>, desired: Seq<Seq<char>>)
    requires
        managed.to_set() == desired.to_set(),
    ensures
        without(managed, desired.to_set()).len() == 0,
        without(desired, managed.to_set()).len() == 0,
{
    lemma_without_members(managed, desired.to_set());
    lemma_without_members(desired, managed.to_set());
    let a = without(managed, desired.to_set());
    let b = without(desired, managed.to_set());
    if a.len() > 0 {
        assert(a.contains(a[0]));
    }
    if b.len() > 0 {
        assert(b.contains(b[0]));
    }
}

// ---------------------------------------------------------------------------
// Executable scheduler
// ---------------------------------------------------------------------------

/// The domains/CIDRs the scheduler has currently pushed to the daemon on
/// behalf of active sessions.
#[derive(Debug, Clone, Default, PartialEq, Eq)]
pub struct ManagedSet {
    pub domains: Vec<String>,
    pub cidrs: Vec<String>,
}

/// What blocking should be in force right now, derived from active sessions.
pub struct Desired {
    pub domains: StrSet,
    pub cidrs: StrSet,
    pub active_session_ids: Vec<String>,
}

/// The add/remove deltas that move the daemon from `managed` to `desired`.
#[derive(Debug, Clone, PartialEq, Eq)]
pub struct Delta {
    pub domains_add: Vec<String>,
    pub domains_remove: Vec<String>,
    pub cidrs_add: Vec<String>,
    pub cidrs_remove: Vec<String>,
}

/// Reported to the UI after a reconcile (or a read of schedule state).
#[derive(Debug, Clone, PartialEq, Eq)]
pub struct ScheduleState {
    pub active_session_ids: Vec<String>,
    pub managed_domains: Vec<String>,
    pub managed_cidrs: Vec<String>,
}

impl Desired {
    pub open spec fn wf(&self) -> bool {
        self.domains.wf() && self.cidrs.wf()
    }
}

/// Index of the last library item whose id is `id`.
fn find_item(library: &[WebsiteItem], id: &String) -> (r: Option<usize>)
    ensures
        match r {
            Some(j) => item_index(library@, id@) == Some(j as int),
            None => item_index(library@, id@) is None,
        },
        r matches Some(j) ==> j < library@.len(),
{
    let mut j = library.len();
    proof {
        assert(library@.take(j as int) =~= library@);
    }
    while j > 0
        invariant
            j <= library.len(),
            item_index(library@, id@) == item_index(library@.take(j as int), id@),
        decreases j,
    {
        let ghost t = library@.take(j as int);
        if library[j - 1].id == *id {
            proof {
                assert(t.last() == library@[j - 1]);
            }
            return Some(j - 1);
        }
        proof {
            assert(t.drop_last() =~= library@.take(j - 1));
        }
        j -= 1;
    }
    None
}

/// Adds the entries of the items `ids` to `domains` and `cidrs`.
fn collect_items(
    library: &[WebsiteItem],
    ids: &Vec<String>,
    domains: &mut StrSet,
    cidrs: &mut StrSet,
)
    requires
        old(domains).wf(),
        old(cidrs).wf(),
    ensures
        final(domains).wf(),
        final(cidrs).wf(),
        final(domains)@ == old(domains)@.union(ids_entries(library@, ids@, false)),
        final(cidrs)@ == old(cidrs)@.union(ids_entries(library@, ids@, true)),
{
    let mut k: usize = 0;
    proof {
        assert(ids@.take(0) =~= Seq::<String>::empty());
        assert(old(domains)@.union(ids_entries(library@, ids@.take(0), false)) =~= old(domains)@);
        assert(old(cidrs)@.union(ids_entries(library@, ids@.take(0), true)) =~= old(cidrs)@);
    }
    while k < ids.len()
        invariant
            k <= ids.len(),
            domains.wf(),
            cidrs.wf(),
            domains@ == old(domains)@.union(ids_entries(library@, ids@.take(k as int), false)),
            cidrs@ == old(cidrs)@.union(ids_entries(library@, ids@.take(k as int), true)),
        decreases ids.len() - k,
    {
        let ghost dbefore = domains@;
        let ghost cbefore = cidrs@;
        match find_item(library, &ids[k]) {
            Some(j) => {
                insert_all(domains, library[j].domains.as_slice());
                insert_all(cidrs, library[j].cidrs.as_slice());
            },
            None => {},
        }
        proof {
            let t = ids@.take(k + 1);
            assert(t.drop_last() =~= ids@.take(k as int));
            assert(t.last() == ids@[k as int]);
            assert(domains@ =~= old(domains)@.union(ids_entries(library@, t, false)));
            assert(cidrs@ =~= old(cidrs)@.union(ids_entries(library@, t, true)));
        }
        k += 1;
    }
    proof {
        assert(ids@.take(ids.len() as int) =~= ids@);
    }
}

/// Unions the items of every session active at `now`.
pub fn compute_desired(library: &[WebsiteItem], sessions: &[Session], now: &LocalMoment) -> (r:
    Desired)
    requires
        sessions_computable(sessions@, *now),
    ensures
        r.wf(),
        r.domains@ == desired_entries(library@, sessions@, *now, false),
        r.cidrs@ == desired_entries(library@, sessions@, *now, true),
        texts(r.active_session_ids@) == active_ids(sessions@, *now),
{
    let mut domains = StrSet::new();
    let mut cidrs = StrSet::new();
    let mut active_session_ids: Vec<String> = Vec::new();
    let mut i: usize = 0;
    proof {
        assert(sessions@.take(0) =~= Seq::<Session>::empty());
        assert(texts(active_session_ids@) =~= Seq::<Seq<char>>::empty());
    }
    while i < sessions.len()
        invariant
            i <= sessions.len(),
            sessions_computable(sessions@, *now),
            domains.wf(),
            cidrs.wf(),
            domains@ == desired_entries(library@, sessions@.take(i as int), *now, false),
            cidrs@ == desired_entries(library@, sessions@.take(i as int), *now, true),
            texts(active_session_ids@) == active_ids(sessions@.take(i as int), *now),
        decreases sessions.len() - i,
    {
        let ghost t = sessions@.take(i + 1);
        proof {
            assert(t.drop_last() =~= sessions@.take(i as int));
            assert(t.last() == sessions@[i as int]);
            assert(sessions@[i as int].computable_at(*now));
        }
        let session = &sessions[i];
        if session.is_active_at(now) {
            let ghost before = texts(active_session_ids@);
            active_session_ids.push(session.id.clone());
            proof {
                assert(texts(active_session_ids@) =~= before + seq![session.id@]);
            }
            collect_items(library, &session.item_ids, &mut domains, &mut cidrs);
        } else {
            proof {
                assert(domains@ =~= domains@.union(Set::empty()));
                assert(cidrs@ =~= cidrs@.union(Set::empty()));
                assert(texts(active_session_ids@) =~= texts(active_session_ids@) + Seq::<
                    Seq<char>,
                >::empty());
            }
        }
        i += 1;
    }
    proof {
        assert(sessions@.take(sessions.len() as int) =~= sessions@);
    }
    Desired { domains, cidrs, active_session_ids }
}

/// Whether some element of `items` has the text of `x`.
fn contains_text(items: &[String], x: &String) -> (r: bool)
    ensures
        r == texts(items@).contains(x@),
{
    let mut i: usize = 0;
    while i < items.len()
        invariant
            i <= items.len(),
            forall|k: int| 0 <= k < i ==> texts(items@)[k] != x@,
        decreases items.len() - i,
    {
        if items[i] == *x {
            proof {
                assert(texts(items@)[i as int] == x@);
            }
            return true;
        }
        i += 1;
    }
    false
}

/// The elements of `set`, in order, whose text is not among `excluded`.
fn set_minus_list(set: &StrSet, excluded: &[String]) -> (r: Vec<String>)
    requires
        set.wf(),
    ensures
        texts(r@) == without(set.seq(), texts(excluded@).to_set()),
{
    let n = set.len();
    let mut r: Vec<String> = Vec::new();
    let mut i: usize = 0;
    proof {
        assert(set.seq().take(0) =~= Seq::<Seq<char>>::empty());
        assert(texts(r@) =~= Seq::<Seq<char>>::empty());
    }
    while i < n
        invariant
            i <= n == set.seq().len(),
            set.wf(),
            texts(r@) == without(set.seq().take(i as int), texts(excluded@).to_set()),
        decreases n - i,
    {
        let item = set.get(i);
        let ghost t = set.seq().take(i + 1);
        proof {
            assert(t.drop_last() =~= set.seq().take(i as int));
            assert(t.last() == item@);
        }
        let ghost before = texts(r@);
        if !contains_text(excluded, item) {
            r.push(item.clone());
            proof {
                assert(texts(r@) =~= before + seq![item@]);
            }
        } else {
            proof {
                assert(texts(r@) =~= before + Seq::<Seq<char>>::empty());
            }
        }
        i += 1;
    }
    proof {
        assert(set.seq().take(n as int) =~= set.seq());
    }
    r
}

/// The elements of `items`, in order, that are not in `set`.
fn list_minus_set(items: &[String], set: &StrSet) -> (r: Vec<String>)
    requires
        set.wf(),
    ensures
        texts(r@) == without(texts(items@), set@),
{
    let mut r: Vec<String> = Vec::new();
    let mut i: usize = 0;
    proof {
        assert(texts(items@).take(0) =~= Seq::<Seq<char>>::empty());
        assert(texts(r@) =~= Seq::<Seq<char>>::empty());
    }
    while i < items.len()
        invariant
            i <= items.len(),
            set.wf(),
            texts(r@) == without(texts(items@).take(i as int), set@),
        decreases items.len() - i,
    {
        let ghost t = texts(items@).take(i + 1);
        proof {
            assert(t.drop_last() =~= texts(items@).take(i as int));
            assert(t.last() == items@[i as int]@);
        }
        let ghost before = texts(r@);
        if !set.contains(items[i].as_str()) {
            r.push(items[i].clone());
            proof {
                assert(texts(r@) =~= before + seq![items@[i as int]@]);
            }
        } else {
            proof {
                assert(texts(r@) =~= before + Seq::<Seq<char>>::empty());
            }
        }
        i += 1;
    }
    proof {
        assert(texts(items@).take(items.len() as int) =~= texts(items@));
    }
    r
}

/// The deltas between what is desired and what the scheduler manages.
pub fn diff(desired: &Desired, managed: &ManagedSet) -> (r: Delta)
    requires
        desired.wf(),
    ensures
        texts(r.domains_add@) == without(desired.domains.seq(), texts(managed.domains@).to_set()),
        texts(r.domains_remove@) == without(texts(managed.domains@), desired.domains@),
        texts(r.cidrs_add@) == without(desired.cidrs.seq(), texts(managed.cidrs@).to_set()),
        texts(r.cidrs_remove@) == without(texts(managed.cidrs@), desired.cidrs@),
{
    Delta {
        domains_add: set_minus_list(&desired.domains, &managed.domains),
        domains_remove: list_minus_set(&managed.domains, &desired.domains),
        cidrs_add: set_minus_list(&desired.cidrs, &managed.cidrs),
        cidrs_remove: list_minus_set(&managed.cidrs, &desired.cidrs),
    }
}

impl Delta {
    /// Nothing to add or remove.
    pub fn is_empty(&self) -> (r: bool)
        ensures
            r == (self.domains_add@.len() == 0 && self.domains_remove@.len() == 0
                && self.cidrs_add@.len() == 0 && self.cidrs_remove@.len() == 0),
    {
        self.domains_add.len() == 0 && self.domains_remove.len() == 0 && self.cidrs_add.len() == 0
            && self.cidrs_remove.len() == 0
    }
}

/// A request's kind (1 = remove domains, 2 = remove CIDRs, 3 = add domains,
/// 4 = add CIDRs, 0 = other) and its entries.
pub open spec fn request_entries(r: Request) -> (int, Seq<Seq<char>>) {
    match r {
        Request::RemoveDomains { domains } => (1, texts(domains@)),
        Request::RemoveAddrs { cidrs } => (2, texts(cidrs@)),
        Request::AddDomains { domains } => (3, texts(domains@)),
        Request::AddAddrs { cidrs } => (4, texts(cidrs@)),
        _ => (0, Seq::empty()),
    }
}

/// One request of kind `kind` for `entries`, unless there are none.
pub open spec fn step_if_any(kind: int, entries: Seq<Seq<char>>) -> Seq<(int, Seq<Seq<char>>)> {
    if entries.len() > 0 {
        seq![(kind, entries)]
    } else {
        Seq::empty()
    }
}

/// The requests of a reconcile, removals before additions, empty ones
/// skipped.
pub open spec fn reconcile_steps(
    domains_remove: Seq<Seq<char>>,
    cidrs_remove: Seq<Seq<char>>,
    domains_add: Seq<Seq<char>>,
    cidrs_add: Seq<Seq<char>>,
) -> Seq<(int, Seq<Seq<char>>)> {
    step_if_any(1, domains_remove) + step_if_any(2, cidrs_remove) + step_if_any(3, domains_add)
        + step_if_any(4, cidrs_add)
}

/// A copy of a list of strings.
fn copy_texts(v: &[String]) -> (r: Vec<String>)
    ensures
        texts(r@) == texts(v@),
{
    let mut r: Vec<String> = Vec::new();
    let mut i: usize = 0;
    while i < v.len()
        invariant
            i <= v.len(),
            texts(r@) == texts(v@).take(i as int),
        decreases v.len() - i,
    {
        let ghost before = texts(r@);
        r.push(v[i].clone());
        proof {
            assert(texts(r@) =~= before.push(v@[i as int]@));
            assert(texts(v@).take(i + 1) =~= texts(v@).take(i as int).push(v@[i as int]@));
        }
        i += 1;
    }
    proof {
        assert(texts(v@).take(v.len() as int) =~= texts(v@));
    }
    r
}

impl Delta {
    /// The daemon requests that apply this delta: removals before additions
    /// (so a removal never undoes an addition of the same tick), and no
    /// request for an empty list.
    pub fn into_requests(self) -> (r: Vec<Request>)
        ensures
            r@.map_values(|q: Request| request_entries(q)) == reconcile_steps(
                texts(self.domains_remove@),
                texts(self.cidrs_remove@),
                texts(self.domains_add@),
                texts(self.cidrs_add@),
            ),
    {
        let ghost dr = texts(self.domains_remove@);
        let ghost cr = texts(self.cidrs_remove@);
        let ghost da = texts(self.domains_add@);
        let ghost ca = texts(self.cidrs_add@);
        let mut r: Vec<Request> = Vec::new();
        if self.domains_remove.len() > 0 {
            r.push(Request::RemoveDomains { domains: self.domains_remove });
        }
        let ghost r1 = r@.map_values(|q: Request| request_entries(q));
        proof {
            assert(r1 =~= step_if_any(1, dr));
        }
        if self.cidrs_remove.len() > 0 {
            r.push(Request::RemoveAddrs { cidrs: self.cidrs_remove });
        }
        let ghost r2 = r@.map_values(|q: Request| request_entries(q));
        proof {
            assert(r2 =~= step_if_any(1, dr) + step_if_any(2, cr));
        }
        if self.domains_add.len() > 0 {
            r.push(Request::AddDomains { domains: self.domains_add });
        }
        let ghost r3 = r@.map_values(|q: Request| request_entries(q));
        proof {
            assert(r3 =~= step_if_any(1, dr) + step_if_any(2, cr) + step_if_any(3, da));
        }
        if self.cidrs_add.len() > 0 {
            r.push(Request::AddAddrs { cidrs: self.cidrs_add });
        }
        proof {
            assert(r@.map_values(|q: Request| request_entries(q)) =~= reconcile_steps(
                dr,
                cr,
                da,
                ca,
            ));
        }
        r
    }
}

/// One reconcile: the requests to push, in order, the managed set to store
/// once they all succeed, and the state to report.
pub struct ReconcilePlan {
    pub requests: Vec<Request>,
    pub managed: ManagedSet,
    pub state: ScheduleState,
}

/// Plans a reconcile: compute the desired blocklist at `now`, diff it
/// against the managed set, and order the requests.
pub fn plan_reconcile(
    library: &[WebsiteItem],
    sessions: &[Session],
    managed: &ManagedSet,
    now: &LocalMoment,
) -> (r: ReconcilePlan)
    requires
        sessions_computable(sessions@, *now),
    ensures
        ({
            let d = texts(r.managed.domains@);
            let c = texts(r.managed.cidrs@);
            &&& sorted(d)
            &&& sorted(c)
            &&& d.to_set() == desired_entries(library@, sessions@, *now, false)
            &&& c.to_set() == desired_entries(library@, sessions@, *now, true)
            &&& r.requests@.map_values(|q: Request| request_entries(q)) == reconcile_steps(
                without(texts(managed.domains@), d.to_set()),
                without(texts(managed.cidrs@), c.to_set()),
                without(d, texts(managed.domains@).to_set()),
                without(c, texts(managed.cidrs@).to_set()),
            )
            &&& texts(r.state.active_session_ids@) == active_ids(sessions@, *now)
            &&& texts(r.state.managed_domains@) == d
            &&& texts(r.state.managed_cidrs@) == c
        }),
{
    let desired = compute_desired(library, sessions, now);
    let delta = diff(&desired, managed);
    let requests = delta.into_requests();
    let domains = desired.domains.to_vec();
    let cidrs = desired.cidrs.to_vec();
    proof {
        desired.domains.lemma_wf();
        desired.cidrs.lemma_wf();
    }
    let state = ScheduleState {
        active_session_ids: copy_texts(&desired.active_session_ids),
        managed_domains: copy_texts(&domains),
        managed_cidrs: copy_texts(&cidrs),
    };
    ReconcilePlan { requests, managed: ManagedSet { domains, cidrs }, state }
}

/// What a reconcile does next.
#[derive(Debug, Clone, PartialEq, Eq)]
pub enum ReconcileAction {
    /// Send the plan's request at this index to the daemon.
    Send(usize),
    /// Every request succeeded: store the plan's managed set and report
    /// its state.
    SaveManaged,
    /// A request failed: stop, send nothing more and store nothing, so the
    /// next tick retries from the managed set stored before.
    Fail(String),
}

/// Decides the next step of carrying out `plan`, given that its first
/// `sent` requests succeeded and `failure`, the error of the request after
/// them if it failed. Requests go out in the plan's order; the managed set
/// is stored only once all of them succeeded.
pub fn next_reconcile_action(plan: &ReconcilePlan, sent: usize, failure: Option<String>) -> (r:
    ReconcileAction)
    requires
        sent <= plan.requests@.len(),
    ensures
        match failure {
            Some(e) => r == ReconcileAction::Fail(e),
            None => if sent < plan.requests@.len() {
                r == ReconcileAction::Send(sent)
            } else {
                r == ReconcileAction::SaveManaged
            },
        },
{
    match failure {
        Some(e) => ReconcileAction::Fail(e),
        None => if sent < plan.requests.len() {
            ReconcileAction::Send(sent)
        } else {
            ReconcileAction::SaveManaged
        },
    }
}

/// Which sessions are active now, and what the scheduler currently manages;
/// a read that changes nothing.
pub fn schedule_state(
    library: &[WebsiteItem],
    sessions: &[Session],
    managed: &ManagedSet,
    now: &LocalMoment,
) -> (r: ScheduleState)
    requires
        sessions_computable(sessions@, *now),
    ensures
        texts(r.active_session_ids@) == active_ids(sessions@, *now),
        texts(r.managed_domains@) == texts(managed.domains@),
        texts(r.managed_cidrs@) == texts(managed.cidrs@),
{
    let desired = compute_desired(library, sessions, now);
    ScheduleState {
        active_session_ids: desired.active_session_ids,
        managed_domains: copy_texts(&managed.domains),
        managed_cidrs: copy_texts(&managed.cidrs),
    }
}


/// The moment with the given clock fields: the caller reads the local
/// wall clock and hands over its year, month, day, hour and minute.
pub fn moment_from_clock(year: i32, month: u32, day: u32, hour: u32, minute: u32) -> (r: LocalMoment)
    requires
        1 <= month <= 12,
        1 <= day <= 31,
        hour < 24,
        minute < 60,
    ensures
        r == (LocalMoment {
            year,
            month: month as u8,
            day: day as u8,
            hour: hour as u8,
            minute: minute as u8,
        }),
        r.month == month && r.day == day && r.hour == hour && r.minute == minute,
{
    LocalMoment { year, month: month as u8, day: day as u8, hour: hour as u8, minute: minute as u8 }
}

fn date_in_range(d: &crate::config::CivilDate) -> (r: bool)
    ensures
        r == d.in_range(),
{
    d.month > 2 || d.year > i32::MIN
}

fn rule_computable(rule: &ScheduleRule, now: &LocalMoment) -> (r: bool)
    ensures
        r == rule.computable_at(*now),
{
    let moment_ok = now.month > 2 || now.year > i32::MIN;
    match &rule.recurrence {
        Recurrence::Everyday => true,
        Recurrence::MonthDays { .. } => true,
        Recurrence::Weekdays { .. } => moment_ok,
        Recurrence::EveryNDays { n, anchor } => *n == 0 || (moment_ok && date_in_range(anchor)),
        Recurrence::DateRange { start, end } => moment_ok && date_in_range(start) && date_in_range(
            end,
        ),
    }
}

/// Whether deciding which sessions are active at `now` stays in calendar
/// range: the run-time test of [`sessions_computable`].
pub fn sessions_computable_at(sessions: &[Session], now: &LocalMoment) -> (r: bool)
    ensures
        r == sessions_computable(sessions@, *now),
{
    let mut i: usize = 0;
    while i < sessions.len()
        invariant
            i <= sessions.len(),
            forall|k: int| 0 <= k < i ==> (#[trigger] sessions@[k]).computable_at(*now),
        decreases sessions.len() - i,
    {
        if sessions[i].enabled {
            let rules = &sessions[i].rules;
            let mut j: usize = 0;
            while j < rules.len()
                invariant
                    i < sessions.len(),
                    sessions@[i as int].enabled,
                    *rules == sessions@[i as int].rules,
                    j <= rules.len(),
                    forall|k: int| 0 <= k < j ==> (#[trigger] rules@[k]).computable_at(*now),
                decreases rules.len() - j,
            {
                if !rule_computable(&rules[j], now) {
                    proof {
                        assert(!sessions@[i as int].rules@[j as int].computable_at(*now));
                        assert(!sessions@[i as int].computable_at(*now));
                    }
                    return false;
                }
                j += 1;
            }
        }
        i += 1;
    }
    true
}

} // verus!
