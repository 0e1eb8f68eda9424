//! An ordered set of strings: the blocklist and schedule sets.
//!
//! Entries are kept strictly increasing in lexicographic order, so the set
//! has no duplicates and is always enumerated in sorted order.
use vstd::prelude::*;

use crate::text::{chars_lt, chars_of, lemma_seq_lt_asymmetric, lemma_seq_lt_irreflexive,
    lemma_seq_lt_total, lemma_seq_lt_transitive, seq_lt};

verus! {

/// Whether `s` is strictly increasing in lexicographic order.
pub open spec fn sorted(s: Seq<Seq<char>>) -> bool {
    forall|i: int, j: int| 0 <= i < j < s.len() ==> seq_lt(#[trigger] s[i], #[trigger] s[j])
}

/// An ordered set of strings.
pub struct StrSet {
    items: Vec<String>,
}

impl View for StrSet {
    type V = Set<Seq<char>>;

    open spec fn view(&self) -> Set<Seq<char>> {
        self.seq().to_set()
    }
}

pub proof fn lemma_sorted_no_duplicates(s: Seq<Seq<char>>)
    requires
        sorted(s),
    ensures
        s.no_duplicates(),
        s.to_set().len() == s.len(),
        s.to_set().finite(),
{
    assert forall|i: int, j: int| 0 <= i < s.len() && 0 <= j < s.len() && i != j implies s[i]
        != s[j] by {
        if i < j {
            lemma_seq_lt_irreflexive(s[i]);
        } else {
            lemma_seq_lt_irreflexive(s[j]);
        }
    }
    s.unique_seq_to_set();
    vstd::seq_lib::seq_to_set_is_finite(s);
}

/// Two sorted sequences with the same elements are equal: a sorted
/// enumeration is determined by the set it enumerates.
pub proof fn lemma_sorted_unique(a: Seq<Seq<char>>, b: Seq<Seq<char>>)
    requires
        sorted(a),
        sorted(b),
        a.to_set() == b.to_set(),
    ensures
        a == b,
    decreases a.len(),
{
    lemma_sorted_no_duplicates(a);
    lemma_sorted_no_duplicates(b);
    if a.len() == 0 {
        if b.len() > 0 {
            assert(b.to_set().contains(b[0]));
        }
        assert(a =~= b);
    } else {
        assert(b.len() == a.len());
        // Both first elements are the least element of the common set.
        assert(b.to_set().contains(a[0]));
        assert(a.to_set().contains(b[0]));
        let i = choose|i: int| 0 <= i < b.len() && b[i] == a[0];
        let j = choose|j: int| 0 <= j < a.len() && a[j] == b[0];
        if i > 0 {
            assert(seq_lt(b[0], b[i]));
            if j > 0 {
                assert(seq_lt(a[0], a[j]));
                lemma_seq_lt_asymmetric(a[0], b[0]);
            } else {
                lemma_seq_lt_irreflexive(a[0]);
            }
        }
        assert(a[0] == b[0]);
        let ar = a.drop_first();
        let br = b.drop_first();
        assert forall|x: Seq<char>| ar.to_set().contains(x) implies br.to_set().contains(x) by {
            let k = choose|k: int| 0 <= k < ar.len() && ar[k] == x;
            assert(a[k + 1] == x);
            assert(a.to_set().contains(x));
            let m = choose|m: int| 0 <= m < b.len() && b[m] == x;
            if m == 0 {
                assert(a[0] == a[k + 1]);
            }
            assert(br[m - 1] == x);
        }
        assert forall|x: Seq<char>| br.to_set().contains(x) implies ar.to_set().contains(x) by {
            let k = choose|k: int| 0 <= k < br.len() && br[k] == x;
            assert(b[k + 1] == x);
            assert(b.to_set().contains(x));
            let m = choose|m: int| 0 <= m < a.len() && a[m] == x;
            if m == 0 {
                assert(b[0] == b[k + 1]);
            }
            assert(ar[m - 1] == x);
        }
        assert(ar.to_set() =~= br.to_set());
        lemma_sorted_unique(ar, br);
        assert(a =~= seq![a[0]] + ar);
        assert(b =~= seq![b[0]] + br);
    }
}

impl StrSet {
    /// The elements in increasing order.
    pub closed spec fn seq(&self) -> Seq<Seq<char>> {
        self.items@.map_values(|s: String| s@)
    }

    /// Well-formedness: the elements are strictly increasing.
    pub open spec fn wf(&self) -> bool {
        sorted(self.seq())
    }

    /// The set's size, order and enumeration agree.
    pub proof fn lemma_wf(&self)
        requires
            self.wf(),
        ensures
            self@.len() == self.seq().len(),
            self@.finite(),
            forall|i: int| 0 <= i < self.seq().len() ==> self@.contains(#[trigger] self.seq()[i]),
            forall|x: Seq<char>| #[trigger]
                self@.contains(x) ==> exists|i: int| 0 <= i < self.seq().len() && self.seq()[i] == x,
    {
        lemma_sorted_no_duplicates(self.seq());
    }

    /// An empty set.
    pub fn new() -> (r: StrSet)
        ensures
            r.wf(),
            r@ == Set::<Seq<char>>::empty(),
            r.seq() == Seq::<Seq<char>>::empty(),
    {
        let r = StrSet { items: Vec::new() };
        proof {
            assert(r.seq() =~= Seq::<Seq<char>>::empty());
            assert(r@ =~= Set::<Seq<char>>::empty());
        }
        r
    }

    /// Number of elements.
    pub fn len(&self) -> (r: usize)
        requires
            self.wf(),
        ensures
            r == self@.len(),
            r == self.seq().len(),
    {
        proof {
            self.lemma_wf();
        }
        self.items.len()
    }

    /// Whether the set is empty.
    pub fn is_empty(&self) -> (r: bool)
        requires
            self.wf(),
        ensures
            r == (self@.len() == 0),
            r == (self.seq().len() == 0),
    {
        proof {
            self.lemma_wf();
        }
        self.items.len() == 0
    }

    /// The elements, in increasing order.
    pub fn to_vec(&self) -> (r: Vec<String>)
        requires
            self.wf(),
        ensures
            r@.map_values(|s: String| s@) == self.seq(),
    {
        let mut r: Vec<String> = Vec::new();
        let mut i: usize = 0;
        while i < self.items.len()
            invariant
                i <= self.items.len(),
                r@.map_values(|s: String| s@) == self.seq().take(i as int),
            decreases self.items.len() - i,
        {
            let s = self.items[i].clone();
            let ghost before = r@.map_values(|s: String| s@);
            r.push(s);
            proof {
                assert(s@ == self.seq()[i as int]);
                assert(r@.map_values(|s: String| s@) =~= before.push(s@));
                assert(self.seq().take(i + 1) =~= self.seq().take(i as int).push(self.seq()[i as int]));
            }
            i += 1;
        }
        proof {
            assert(self.seq().take(self.items.len() as int) =~= self.seq());
        }
        r
    }

    /// The `i`-th smallest element.
    pub fn get(&self, i: usize) -> (r: &String)
        requires
            i < self.seq().len(),
        ensures
            r@ == self.seq()[i as int],
    {
        &self.items[i]
    }

    /// Position of `x`, or of its first strictly greater element.
    fn position(&self, x: &[char]) -> (r: (usize, bool))
        requires
            self.wf(),
        ensures
            r.0 <= self.seq().len(),
            forall|k: int| 0 <= k < r.0 ==> seq_lt(#[trigger] self.seq()[k], x@),
            r.1 ==> r.0 < self.seq().len() && self.seq()[r.0 as int] == x@,
            !r.1 ==> r.0 < self.seq().len() ==> seq_lt(x@, self.seq()[r.0 as int]),
            r.1 == self@.contains(x@),
    {
        let n = self.items.len();
        let mut i: usize = 0;
        while i < n
            invariant
                i <= n == self.seq().len(),
                self.wf(),
                forall|k: int| 0 <= k < i ==> seq_lt(#[trigger] self.seq()[k], x@),
            decreases n - i,
        {
            let cur = chars_of(self.items[i].as_str());
            assert(cur@ == self.seq()[i as int]);
            if !chars_lt(&cur, x) {
                let eq = crate::text::chars_eq(&cur, x);
                proof {
                    lemma_seq_lt_total(cur@, x@);
                    self.lemma_wf();
                    if !eq {
                        assert forall|k: int| 0 <= k < n implies self.seq()[k] != x@ by {
                            if k < i {
                                lemma_seq_lt_irreflexive(x@);
                            } else if k > i {
                                lemma_seq_lt_transitive(x@, self.seq()[i as int], self.seq()[k]);
                                lemma_seq_lt_irreflexive(x@);
                            }
                        }
                    }
                }
                return (i, eq);
            }
            i += 1;
        }
        proof {
            self.lemma_wf();
            assert forall|k: int| 0 <= k < n implies self.seq()[k] != x@ by {
                lemma_seq_lt_irreflexive(x@);
            }
        }
        (n, false)
    }

    /// Whether `x` is an element.
    pub fn contains(&self, x: &str) -> (r: bool)
        requires
            self.wf(),
        ensures
            r == self@.contains(x@),
    {
        let cx = chars_of(x);
        let (_, found) = self.position(&cx);
        found
    }

    /// Adds `x`; returns whether it was absent.
    pub fn insert(&mut self, x: String) -> (r: bool)
        requires
            old(self).wf(),
        ensures
            final(self).wf(),
            final(self)@ == old(self)@.insert(x@),
            r == !old(self)@.contains(x@),
    {
        let cx = chars_of(x.as_str());
        let (i, found) = self.position(&cx);
        if found {
            proof {
                assert(self@ =~= self@.insert(x@));
            }
            return false;
        }
        let ghost s = self.seq();
        self.items.insert(i, x);
        proof {
            let t = self.seq();
            assert(t =~= s.insert(i as int, x@));
            s.insert_ensures(i as int, x@);
            assert forall|a: int, b: int| 0 <= a < b < t.len() implies seq_lt(
                #[trigger] t[a],
                #[trigger] t[b],
            ) by {
                if b < i {
                } else if a < i && b == i {
                } else if a < i && b > i {
                    assert(t[b] == s[b - 1]);
                } else if a == i {
                    assert(t[b] == s[b - 1]);
                    if b - 1 > i {
                        lemma_seq_lt_transitive(x@, s[i as int], s[b - 1]);
                    }
                } else {
                    assert(t[a] == s[a - 1]);
                    assert(t[b] == s[b - 1]);
                }
            }
            assert forall|y: Seq<char>| t.to_set().contains(y) <==> s.to_set().insert(x@).contains(
                y,
            ) by {
                if t.to_set().contains(y) {
                    let k = choose|k: int| 0 <= k < t.len() && t[k] == y;
                    if k < i {
                        assert(s[k] == y);
                    } else if k > i {
                        assert(s[k - 1] == y);
                    }
                }
                if s.to_set().contains(y) {
                    let k = choose|k: int| 0 <= k < s.len() && s[k] == y;
                    if k < i {
                        assert(t[k] == y);
                    } else {
                        assert(t[k + 1] == y);
                    }
                }
                if y == x@ {
                    assert(t[i as int] == y);
                }
            }
            assert(self@ =~= old(self)@.insert(x@));
        }
        true
    }

    /// Removes `x`; returns whether it was present.
    pub fn remove(&mut self, x: &str) -> (r: bool)
        requires
            old(self).wf(),
        ensures
            final(self).wf(),
            final(self)@ == old(self)@.remove(x@),
            r == old(self)@.contains(x@),
    {
        let cx = chars_of(x);
        let (i, found) = self.position(&cx);
        if !found {
            proof {
                assert(self@ =~= self@.remove(x@));
            }
            return false;
        }
        let ghost s = self.seq();
        proof {
            lemma_sorted_no_duplicates(s);
        }
        let _ = self.items.remove(i);
        proof {
            let t = self.seq();
            assert(t =~= s.remove(i as int));
            s.remove_ensures(i as int);
            assert forall|a: int, b: int| 0 <= a < b < t.len() implies seq_lt(
                #[trigger] t[a],
                #[trigger] t[b],
            ) by {
                if b < i {
                } else if a < i {
                    assert(t[b] == s[b + 1]);
                } else {
                    assert(t[a] == s[a + 1]);
                    assert(t[b] == s[b + 1]);
                }
            }
            assert forall|y: Seq<char>| t.to_set().contains(y) <==> s.to_set().remove(x@).contains(
                y,
            ) by {
                if t.to_set().contains(y) {
                    let k = choose|k: int| 0 <= k < t.len() && t[k] == y;
                    if k < i {
                        assert(s[k] == y);
                        assert(k != i);
                    } else {
                        assert(s[k + 1] == y);
                    }
                }
                if s.to_set().remove(x@).contains(y) {
                    let k = choose|k: int| 0 <= k < s.len() && s[k] == y;
                    assert(k != i);
                    if k < i {
                        assert(t[k] == y);
                    } else {
                        assert(t[k - 1] == y);
                    }
                }
            }
            assert(self@ =~= old(self)@.remove(x@));
        }
        true
    }
}

impl Clone for StrSet {
    fn clone(&self) -> (r: StrSet)
        ensures
            r.seq() == self.seq(),
            r@ == self@,
    {
        let mut items: Vec<String> = Vec::new();
        let mut i: usize = 0;
        while i < self.items.len()
            invariant
                i <= self.items.len(),
                items@.map_values(|s: String| s@) == self.seq().take(i as int),
            decreases self.items.len() - i,
        {
            let s = self.items[i].clone();
            let ghost before = items@.map_values(|s: String| s@);
            items.push(s);
            proof {
                assert(s@ == self.seq()[i as int]);
                assert(items@.map_values(|s: String| s@) =~= before.push(s@));
                assert(self.seq().take(i + 1) =~= self.seq().take(i as int).push(self.seq()[i as int]));
            }
            i += 1;
        }
        let r = StrSet { items };
        proof {
            assert(r.seq() =~= self.seq());
        }
        r
    }
}

} // verus!
