//! A map from names to values, kept as a list in the order of the names.

use crate::order::{
    compare_text, lemma_text_asymmetric, lemma_text_connected, lemma_text_irreflexive,
    lemma_text_transitive, text_less, Sign,
};
use vstd::prelude::*;

verus! {

/// The names of `s` are strictly increasing.
pub open spec fn names_sorted<X>(s: Seq<(Seq<char>, X)>) -> bool {
    forall|i: int, j: int| 0 <= i < j < s.len() ==> text_less((#[trigger] s[i]).0, (#[trigger] s[j]).0)
}

/// The number of leading entries of `s` whose name comes before `name`.
pub open spec fn rank<X>(s: Seq<(Seq<char>, X)>, name: Seq<char>) -> nat
    decreases s.len(),
{
    if s.len() == 0 || !text_less(s[0].0, name) {
        0
    } else {
        1 + rank(s.drop_first(), name)
    }
}

/// Whether `s` has an entry for `name`.
pub open spec fn holds<X>(s: Seq<(Seq<char>, X)>, name: Seq<char>) -> bool {
    rank(s, name) < s.len() && s[rank(s, name) as int].0 == name
}

/// The value that `s` has for `name`.
pub open spec fn lookup<X>(s: Seq<(Seq<char>, X)>, name: Seq<char>) -> Option<X> {
    if holds(s, name) {
        Some(s[rank(s, name) as int].1)
    } else {
        None
    }
}

/// `s` with `name` bound to `x`, in place of what `name` was bound to.
pub open spec fn put<X>(s: Seq<(Seq<char>, X)>, name: Seq<char>, x: X) -> Seq<(Seq<char>, X)> {
    if holds(s, name) {
        s.update(rank(s, name) as int, (name, x))
    } else {
        s.insert(rank(s, name) as int, (name, x))
    }
}

/// `s` without its entry for `name`.
pub open spec fn without<X>(s: Seq<(Seq<char>, X)>, name: Seq<char>) -> Seq<(Seq<char>, X)> {
    if holds(s, name) {
        s.remove(rank(s, name) as int)
    } else {
        s
    }
}

/// The rank is the first position whose name does not come before `name`.
pub proof fn lemma_rank_at<X>(s: Seq<(Seq<char>, X)>, name: Seq<char>, i: int)
    requires
        0 <= i <= s.len(),
        forall|j: int| 0 <= j < i ==> text_less((#[trigger] s[j]).0, name),
        i < s.len() ==> !text_less(s[i].0, name),
    ensures
        rank(s, name) == i,
    decreases i,
{
    if i > 0 {
        let t = s.drop_first();
        assert forall|j: int| 0 <= j < i - 1 implies text_less((#[trigger] t[j]).0, name) by {
            assert(t[j] == s[j + 1]);
        }
        if i < s.len() {
            assert(t[i - 1] == s[i]);
        }
        lemma_rank_at(t, name, i - 1);
    }
}

/// What the rank says of the entries before and at it.
pub proof fn lemma_rank_bounds<X>(s: Seq<(Seq<char>, X)>, name: Seq<char>)
    ensures
        rank(s, name) <= s.len(),
        forall|j: int| 0 <= j < rank(s, name) ==> text_less((#[trigger] s[j]).0, name),
        rank(s, name) < s.len() ==> !text_less(s[rank(s, name) as int].0, name),
    decreases s.len(),
{
    if s.len() == 0 || !text_less(s[0].0, name) {
    } else {
        let t = s.drop_first();
        lemma_rank_bounds(t, name);
        assert forall|j: int| 0 <= j < rank(s, name) implies text_less((#[trigger] s[j]).0, name) by {
            if j > 0 {
                assert(s[j] == t[j - 1]);
            }
        }
        if rank(s, name) < s.len() {
            assert(s[rank(s, name) as int] == t[rank(t, name) as int]);
        }
    }
}

/// In a sorted list every entry from the rank on, but one for `name` itself,
/// has a name that comes after `name`.
pub proof fn lemma_rank_after<X>(s: Seq<(Seq<char>, X)>, name: Seq<char>)
    requires
        names_sorted(s),
    ensures
        forall|j: int|
            rank(s, name) <= j < s.len() && (#[trigger] s[j]).0 != name ==> text_less(name, s[j].0),
        forall|j: int| rank(s, name) < j < s.len() ==> (#[trigger] s[j]).0 != name,
{
    lemma_rank_bounds(s, name);
    let r = rank(s, name) as int;
    assert forall|j: int| r <= j < s.len() && (#[trigger] s[j]).0 != name implies text_less(
        name,
        s[j].0,
    ) by {
        lemma_text_connected(s[j].0, name);
        if text_less(s[j].0, name) {
            if j > r {
                lemma_text_transitive(s[r].0, s[j].0, name);
            }
        }
    }
    assert forall|j: int| r < j < s.len() implies (#[trigger] s[j]).0 != name by {
        if s[j].0 == name {
            assert(text_less(s[r].0, s[j].0));
        }
    }
}

/// A sorted list has an entry for `name` exactly where `lookup` finds it.
pub proof fn law_lookup_member<X>(s: Seq<(Seq<char>, X)>, i: int)
    requires
        names_sorted(s),
        0 <= i < s.len(),
    ensures
        rank(s, s[i].0) == i,
        lookup(s, s[i].0) == Some(s[i].1),
{
    assert forall|j: int| 0 <= j < i implies text_less((#[trigger] s[j]).0, s[i].0) by {}
    lemma_text_irreflexive(s[i].0);
    lemma_rank_at(s, s[i].0, i);
}

/// Binding a name keeps the list sorted.
pub proof fn lemma_put_sorted<X>(s: Seq<(Seq<char>, X)>, name: Seq<char>, x: X)
    requires
        names_sorted(s),
    ensures
        names_sorted(put(s, name, x)),
{
    lemma_rank_bounds(s, name);
    lemma_rank_after(s, name);
    let r = rank(s, name) as int;
    let t = put(s, name, x);
    assert forall|i: int, j: int| 0 <= i < j < t.len() implies text_less(
        (#[trigger] t[i]).0,
        (#[trigger] t[j]).0,
    ) by {
        if holds(s, name) {
            assert(t[i].0 == s[i].0);
            assert(t[j].0 == s[j].0);
        } else {
            if j < r {
                assert(t[i] == s[i] && t[j] == s[j]);
            } else if j == r {
                assert(t[i] == s[i]);
            } else if i < r {
                assert(t[i] == s[i] && t[j] == s[j - 1]);
            } else if i == r {
                assert(t[j] == s[j - 1]);
            } else {
                assert(t[i] == s[i - 1] && t[j] == s[j - 1]);
            }
        }
    }
}

/// Taking a name out keeps the list sorted.
pub proof fn lemma_without_sorted<X>(s: Seq<(Seq<char>, X)>, name: Seq<char>)
    requires
        names_sorted(s),
    ensures
        names_sorted(without(s, name)),
{
    let r = rank(s, name) as int;
    let t = without(s, name);
    if holds(s, name) {
        assert forall|i: int, j: int| 0 <= i < j < t.len() implies text_less(
            (#[trigger] t[i]).0,
            (#[trigger] t[j]).0,
        ) by {
            let a = if i < r { i } else { i + 1 };
            let b = if j < r { j } else { j + 1 };
            assert(t[i] == s[a] && t[j] == s[b]);
        }
    }
}

/// After `name` is bound to `x`, it is found with `x`.
pub proof fn lemma_lookup_put_same<X>(s: Seq<(Seq<char>, X)>, name: Seq<char>, x: X)
    requires
        names_sorted(s),
    ensures
        lookup(put(s, name, x), name) == Some(x),
{
    lemma_rank_bounds(s, name);
    let r = rank(s, name) as int;
    let t = put(s, name, x);
    assert forall|j: int| 0 <= j < r implies text_less((#[trigger] t[j]).0, name) by {
        assert(t[j] == s[j]);
    }
    lemma_text_irreflexive(name);
    assert(t[r] == (name, x));
    lemma_rank_at(t, name, r);
}

/// Binding `name` changes what no other name is bound to.
pub proof fn lemma_lookup_put_other<X>(
    s: Seq<(Seq<char>, X)>,
    name: Seq<char>,
    x: X,
    other: Seq<char>,
)
    requires
        names_sorted(s),
        other != name,
    ensures
        lookup(put(s, name, x), other) == lookup(s, other),
{
    lemma_rank_bounds(s, name);
    lemma_rank_after(s, name);
    lemma_rank_bounds(s, other);
    lemma_rank_after(s, other);
    let r = rank(s, name) as int;
    let q = rank(s, other) as int;
    let t = put(s, name, x);
    lemma_text_connected(name, other);
    if holds(s, name) {
        assert forall|j: int| 0 <= j < q implies text_less((#[trigger] t[j]).0, other) by {
            assert(t[j].0 == s[j].0);
        }
        if q < s.len() {
            assert(t[q].0 == s[q].0);
            if q != r {
                assert(t[q] == s[q]);
            }
        }
        lemma_rank_at(t, other, q);
    } else if text_less(other, name) {
        // `other` stands before the new entry
        assert(q <= r) by {
            if r < q {
                assert(text_less(s[r].0, other));
                lemma_text_transitive(s[r].0, other, name);
            }
        }
        assert forall|j: int| 0 <= j < q implies text_less((#[trigger] t[j]).0, other) by {
            assert(t[j] == s[j]);
        }
        if q < r {
            assert(t[q] == s[q]);
        } else {
            assert(t[q] == (name, x));
            lemma_text_asymmetric(other, name);
            if q < s.len() {
                if s[q].0 == other {
                    assert(text_less(name, s[q].0));
                }
            }
        }
        lemma_rank_at(t, other, q);
    } else {
        // `other` stands behind the new entry
        assert(r <= q) by {
            if q < r {
                assert(text_less(s[q].0, name));
                if s[q].0 != other {
                    assert(text_less(other, s[q].0));
                    lemma_text_transitive(other, s[q].0, name);
                }
                lemma_text_asymmetric(name, other);
            }
        }
        assert forall|j: int| 0 <= j < q + 1 implies text_less((#[trigger] t[j]).0, other) by {
            if j < r {
                assert(t[j] == s[j]);
            } else if j == r {
                assert(t[j] == (name, x));
            } else {
                assert(t[j] == s[j - 1]);
            }
        }
        if q < s.len() {
            assert(t[q + 1] == s[q]);
        }
        lemma_rank_at(t, other, q + 1);
    }
}

/// After `name` is taken out, it is not found.
pub proof fn law_lookup_without_same<X>(s: Seq<(Seq<char>, X)>, name: Seq<char>)
    requires
        names_sorted(s),
    ensures
        lookup(without(s, name), name) is None,
{
    lemma_rank_bounds(s, name);
    lemma_rank_after(s, name);
    let r = rank(s, name) as int;
    let t = without(s, name);
    if holds(s, name) {
        assert forall|j: int| 0 <= j < r implies text_less((#[trigger] t[j]).0, name) by {
            assert(t[j] == s[j]);
        }
        if r < t.len() {
            assert(t[r] == s[r + 1]);
            lemma_text_asymmetric(name, t[r].0);
        }
        lemma_rank_at(t, name, r);
    }
}

/// Taking `name` out changes what no other name is bound to.
pub proof fn law_lookup_without_other<X>(
    s: Seq<(Seq<char>, X)>,
    name: Seq<char>,
    other: Seq<char>,
)
    requires
        names_sorted(s),
        other != name,
    ensures
        lookup(without(s, name), other) == lookup(s, other),
{
    lemma_rank_bounds(s, name);
    lemma_rank_after(s, name);
    lemma_rank_bounds(s, other);
    lemma_rank_after(s, other);
    let r = rank(s, name) as int;
    let q = rank(s, other) as int;
    let t = without(s, name);
    if holds(s, name) {
        if q <= r {
            assert forall|j: int| 0 <= j < q implies text_less((#[trigger] t[j]).0, other) by {
                assert(t[j] == s[j]);
            }
            if q < r {
                assert(t[q] == s[q]);
            } else if q < t.len() {
                // the entry for `name` stood at the rank of `other`
                assert(t[q] == s[q + 1]);
                assert(text_less(other, s[q].0));
                lemma_text_transitive(other, s[q].0, s[q + 1].0);
                lemma_text_asymmetric(other, t[q].0);
            }
            lemma_rank_at(t, other, q);
        } else {
            assert forall|j: int| 0 <= j < q - 1 implies text_less((#[trigger] t[j]).0, other) by {
                if j < r {
                    assert(t[j] == s[j]);
                } else {
                    assert(t[j] == s[j + 1]);
                }
            }
            if q - 1 < t.len() {
                assert(t[q - 1] == s[q]);
            }
            lemma_rank_at(t, other, q - 1);
        }
    }
}

/// Binding a name that comes after every name of the list puts it at the end.
pub proof fn lemma_put_last<X>(s: Seq<(Seq<char>, X)>, name: Seq<char>, x: X)
    requires
        names_sorted(s),
        s.len() > 0 ==> text_less(s.last().0, name),
    ensures
        put(s, name, x) == s.push((name, x)),
        names_sorted(s.push((name, x))),
{
    assert forall|j: int| 0 <= j < s.len() implies text_less((#[trigger] s[j]).0, name) by {
        if j < s.len() - 1 {
            assert(text_less(s[j].0, s[s.len() - 1].0));
            lemma_text_transitive(s[j].0, s.last().0, name);
        }
    }
    lemma_rank_at(s, name, s.len() as int);
    assert(s.insert(s.len() as int, (name, x)) =~= s.push((name, x)));
    lemma_put_sorted(s, name, x);
}

/// A map from names to values. Its entries stand in the order of their names,
/// as strings are ordered, and no name occurs twice.
#[derive(Debug)]
pub struct NameMap<V> {
    entries: Vec<(String, V)>,
}

impl<V: View> View for NameMap<V> {
    type V = Seq<(Seq<char>, V::V)>;

    closed spec fn view(&self) -> Seq<(Seq<char>, V::V)> {
        Seq::new(self.entries@.len(), |i: int| (self.entries@[i].0@, self.entries@[i].1@))
    }
}

impl<V: View> NameMap<V> {
    /// The names stand in strictly increasing order.
    pub open spec fn wf(&self) -> bool {
        names_sorted(self@)
    }

    /// The empty map.
    pub fn new() -> (r: NameMap<V>)
        ensures
            r@ == Seq::<(Seq<char>, V::V)>::empty(),
            r.wf(),
    {
        let r = NameMap { entries: Vec::new() };
        assert(r@ =~= Seq::<(Seq<char>, V::V)>::empty());
        r
    }

    /// The number of entries.
    pub fn len(&self) -> (r: usize)
        ensures
            r == self@.len(),
    {
        self.entries.len()
    }

    /// The name of the entry at position `i`.
    pub fn name_at(&self, i: usize) -> (r: &str)
        requires
            i < self@.len(),
        ensures
            r@ == self@[i as int].0,
    {
        self.entries[i].0.as_str()
    }

    /// The value of the entry at position `i`.
    pub fn value_at(&self, i: usize) -> (r: &V)
        requires
            i < self@.len(),
        ensures
            r@ == self@[i as int].1,
    {
        &self.entries[i].1
    }

    /// Where `name` stands or would stand, and whether it is there.
    fn find(&self, name: &str) -> (r: (usize, bool))
        ensures
            r.0 == rank(self@, name@),
            r.1 == holds(self@, name@),
            r.0 <= self@.len(),
    {
        let mut i: usize = 0;
        while i < self.entries.len()
            invariant
                i <= self.entries.len(),
                self@.len() == self.entries@.len(),
                forall|j: int| 0 <= j < i ==> text_less((#[trigger] self@[j]).0, name@),
            decreases self.entries.len() - i,
        {
            let sign = compare_text(self.entries[i].0.as_str(), name);
            assert(self@[i as int].0 == self.entries@[i as int].0@);
            match sign {
                Sign::Less => {},
                Sign::Equal => {
                    proof {
                        lemma_text_irreflexive(name@);
                        lemma_rank_at(self@, name@, i as int);
                    }
                    return (i, true);
                },
                Sign::Greater => {
                    proof {
                        lemma_text_connected(self@[i as int].0, name@);
                        lemma_text_asymmetric(name@, self@[i as int].0);
                        lemma_rank_at(self@, name@, i as int);
                    }
                    return (i, false);
                },
            }
            i += 1;
        }
        proof {
            lemma_rank_at(self@, name@, i as int);
        }
        (i, false)
    }

    /// The value bound to `name`.
    pub fn get(&self, name: &str) -> (r: Option<&V>)
        ensures
            match r {
                Some(v) => lookup(self@, name@) == Some(v@),
                None => lookup(self@, name@) is None,
            },
    {
        let (i, found) = self.find(name);
        if found {
            Some(&self.entries[i].1)
        } else {
            None
        }
    }

    /// Binds `name` to `value`, in place of what it was bound to.
    pub fn insert(&mut self, name: &str, value: V)
        requires
            old(self).wf(),
        ensures
            final(self)@ == put(old(self)@, name@, value@),
            final(self).wf(),
    {
        let (i, found) = self.find(name);
        if found {
            self.entries.set(i, (String::from_str(name), value));
        } else {
            self.entries.insert(i, (String::from_str(name), value));
        }
        proof {
            assert(self@ =~= put(old(self)@, name@, value@));
            lemma_put_sorted(old(self)@, name@, value@);
        }
    }

    /// Adds an entry for `name`, which comes after every name of the map.
    pub fn push_back(&mut self, name: &str, value: V)
        requires
            old(self).wf(),
            old(self)@.len() > 0 ==> text_less(old(self)@.last().0, name@),
        ensures
            final(self)@ == old(self)@.push((name@, value@)),
            final(self).wf(),
    {
        self.entries.push((String::from_str(name), value));
        proof {
            assert(self@ =~= old(self)@.push((name@, value@)));
            lemma_put_last(old(self)@, name@, value@);
        }
    }

    /// Takes out every entry.
    pub fn clear(&mut self)
        ensures
            final(self)@ == Seq::<(Seq<char>, V::V)>::empty(),
            final(self).wf(),
    {
        self.entries.clear();
        assert(self@ =~= Seq::<(Seq<char>, V::V)>::empty());
    }

    /// Takes out the entry for `name`, if there is one.
    pub fn remove(&mut self, name: &str)
        requires
            old(self).wf(),
        ensures
            final(self)@ == without(old(self)@, name@),
            final(self).wf(),
    {
        let (i, found) = self.find(name);
        if found {
            self.entries.remove(i);
        }
        proof {
            assert(self@ =~= without(old(self)@, name@));
            lemma_without_sorted(old(self)@, name@);
        }
    }
}

} // verus!
