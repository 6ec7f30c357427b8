//! Labels, the order of label sets, and the canonical form that identifies a
//! label set whatever the order in which its labels were given.

use crate::order::{
    compare_text, lemma_lex_asymmetric, lemma_lex_skip_common, lemma_text_asymmetric,
    lemma_text_connected, lemma_text_irreflexive, lemma_text_transitive, lex_less, text_less, Sign,
};
use vstd::prelude::*;
use vstd::relations::*;
use vstd::seq_lib::*;

verus! {

/// A key and a value attached to one recording of a metric.
#[derive(Debug)]
pub struct Label {
    pub key: String,
    pub value: String,
}

impl View for Label {
    type V = (Seq<char>, Seq<char>);

    open spec fn view(&self) -> (Seq<char>, Seq<char>) {
        (self.key@, self.value@)
    }
}

impl DeepView for Label {
    type V = (Seq<char>, Seq<char>);

    open spec fn deep_view(&self) -> (Seq<char>, Seq<char>) {
        self@
    }
}

/// `a` comes before `b`: by key, and for equal keys by value.
pub open spec fn label_less(a: (Seq<char>, Seq<char>), b: (Seq<char>, Seq<char>)) -> bool {
    text_less(a.0, b.0) || (a.0 == b.0 && text_less(a.1, b.1))
}

/// The strict order of labels.
pub open spec fn label_order() -> spec_fn((Seq<char>, Seq<char>), (Seq<char>, Seq<char>)) -> bool {
    |a: (Seq<char>, Seq<char>), b: (Seq<char>, Seq<char>)| label_less(a, b)
}

/// The order of labels, equal labels included.
pub open spec fn label_leq() -> spec_fn((Seq<char>, Seq<char>), (Seq<char>, Seq<char>)) -> bool {
    |a: (Seq<char>, Seq<char>), b: (Seq<char>, Seq<char>)| a == b || label_less(a, b)
}

/// The labels of a set in increasing order: the form under which a label set is
/// filed, so that two sets with the same labels are one set.
pub open spec fn canonical(labels: Seq<(Seq<char>, Seq<char>)>) -> Seq<(Seq<char>, Seq<char>)> {
    labels.sort_by(label_leq())
}

/// `a` comes before `b` in the order of label sets: label by label.
pub open spec fn label_set_less(
    a: Seq<(Seq<char>, Seq<char>)>,
    b: Seq<(Seq<char>, Seq<char>)>,
) -> bool {
    lex_less(a, b, label_order())
}

/// The three-way comparison of two label sets.
pub open spec fn label_set_sign(
    a: Seq<(Seq<char>, Seq<char>)>,
    b: Seq<(Seq<char>, Seq<char>)>,
) -> Sign {
    if a == b {
        Sign::Equal
    } else if label_set_less(a, b) {
        Sign::Less
    } else {
        Sign::Greater
    }
}

/// The order of labels is a strict total order, and with equal labels
/// included a total order.
pub proof fn lemma_label_order_total()
    ensures
        strict_total_ordering(label_order()),
        total_ordering(label_leq()),
{
    let lt = label_order();
    let le = label_leq();
    assert forall|x: (Seq<char>, Seq<char>)| #[trigger] lt(x, x) == false by {
        lemma_text_irreflexive(x.0);
        lemma_text_irreflexive(x.1);
    }
    assert forall|x: (Seq<char>, Seq<char>), y: (Seq<char>, Seq<char>)|
        !(#[trigger] lt(x, y) && #[trigger] lt(y, x)) by {
        if lt(x, y) && lt(y, x) {
            if text_less(x.0, y.0) {
                lemma_text_asymmetric(x.0, y.0);
            } else {
                lemma_text_asymmetric(x.1, y.1);
                if text_less(y.0, x.0) {
                    lemma_text_asymmetric(y.0, x.0);
                }
            }
        }
    }
    assert forall|x: (Seq<char>, Seq<char>), y: (Seq<char>, Seq<char>), z: (Seq<char>, Seq<char>)|
        #[trigger] lt(x, y) && #[trigger] lt(y, z) implies lt(x, z) by {
        if text_less(x.0, y.0) && text_less(y.0, z.0) {
            lemma_text_transitive(x.0, y.0, z.0);
        } else if x.0 == y.0 && y.0 == z.0 {
            lemma_text_transitive(x.1, y.1, z.1);
        }
    }
    assert forall|x: (Seq<char>, Seq<char>), y: (Seq<char>, Seq<char>)| x != y implies #[trigger] lt(
        x,
        y,
    ) || #[trigger] lt(y, x) by {
        if x.0 != y.0 {
            lemma_text_connected(x.0, y.0);
        } else {
            assert(x.1 != y.1);
            lemma_text_connected(x.1, y.1);
        }
    }
    assert(strict_total_ordering(lt));
    assert forall|x: (Seq<char>, Seq<char>), y: (Seq<char>, Seq<char>)| #[trigger] le(x, y)
        && #[trigger] le(y, x) implies x == y by {
        if x != y {
            assert(lt(x, y) && lt(y, x));
        }
    }
    assert forall|x: (Seq<char>, Seq<char>), y: (Seq<char>, Seq<char>), z: (Seq<char>, Seq<char>)|
        #[trigger] le(x, y) && #[trigger] le(y, z) implies le(x, z) by {
        if x != y && y != z {
            assert(lt(x, y) && lt(y, z));
            assert(lt(x, z));
        }
    }
    assert forall|x: (Seq<char>, Seq<char>), y: (Seq<char>, Seq<char>)| #[trigger] le(x, y)
        || #[trigger] le(y, x) by {
        if x != y {
            assert(lt(x, y) || lt(y, x));
        }
    }
    assert(total_ordering(le));
}

/// The canonical form is sorted and holds the same labels, each as often.
pub proof fn lemma_canonical_sorted(labels: Seq<(Seq<char>, Seq<char>)>)
    ensures
        sorted_by(canonical(labels), label_leq()),
        canonical(labels).to_multiset() == labels.to_multiset(),
        canonical(labels).len() == labels.len(),
{
    lemma_label_order_total();
    labels.lemma_sort_by_ensures(label_leq());
    canonical(labels).to_multiset_ensures();
    labels.to_multiset_ensures();
}

/// A sorted list of labels is the canonical form of every list that holds the
/// same labels, each as often.
pub proof fn lemma_canonical_unique(
    sorted: Seq<(Seq<char>, Seq<char>)>,
    labels: Seq<(Seq<char>, Seq<char>)>,
)
    requires
        sorted_by(sorted, label_leq()),
        sorted.to_multiset() == labels.to_multiset(),
    ensures
        sorted == canonical(labels),
{
    lemma_label_order_total();
    lemma_canonical_sorted(labels);
    lemma_sorted_unique(sorted, canonical(labels), label_leq());
}

/// Two label sets have the same canonical form exactly if they hold the same
/// labels, each as often: the order in which the labels were given plays no part.
pub proof fn lemma_canonical_identifies(
    a: Seq<(Seq<char>, Seq<char>)>,
    b: Seq<(Seq<char>, Seq<char>)>,
)
    ensures
        canonical(a) == canonical(b) <==> a.to_multiset() == b.to_multiset(),
{
    lemma_canonical_sorted(a);
    lemma_canonical_sorted(b);
    if a.to_multiset() == b.to_multiset() {
        lemma_canonical_unique(canonical(a), b);
    }
}

impl Label {
    /// The label with the given key and value.
    pub fn new(key: &str, value: &str) -> (r: Label)
        ensures
            r@ == (key@, value@),
    {
        Label { key: String::from_str(key), value: String::from_str(value) }
    }

    /// A copy of the label.
    pub fn duplicate(&self) -> (r: Label)
        ensures
            r@ == self@,
    {
        Label { key: self.key.clone(), value: self.value.clone() }
    }

    /// Compares two labels: by key, and for equal keys by value.
    pub fn compare(&self, other: &Label) -> (r: Sign)
        ensures
            r == Sign::Equal <==> self@ == other@,
            r == Sign::Less <==> label_less(self@, other@),
            r == Sign::Greater <==> label_less(other@, self@),
    {
        proof {
            lemma_label_order_total();
            assert(label_order()(self@, self@) == false);
            if self@ != other@ {
                assert(label_order()(self@, other@) || label_order()(other@, self@));
            }
            if label_less(self@, other@) {
                assert(label_order()(self@, other@));
                assert(!label_order()(other@, self@));
            }
        }
        match compare_text(self.key.as_str(), other.key.as_str()) {
            Sign::Less => Sign::Less,
            Sign::Greater => {
                proof {
                    lemma_text_connected(self.key@, other.key@);
                }
                Sign::Greater
            },
            Sign::Equal => {
                let r = compare_text(self.value.as_str(), other.value.as_str());
                proof {
                    lemma_text_irreflexive(self.key@);
                    if r == Sign::Greater {
                        lemma_text_connected(self.value@, other.value@);
                    }
                }
                r
            },
        }
    }
}

/// A copy of a list of labels.
pub fn duplicate_labels(labels: &Vec<Label>) -> (r: Vec<Label>)
    ensures
        r.deep_view() == labels.deep_view(),
{
    let mut copy: Vec<Label> = Vec::new();
    let mut i: usize = 0;
    while i < labels.len()
        invariant
            i <= labels.len(),
            copy@.len() == i,
            forall|j: int| 0 <= j < i ==> (#[trigger] copy@[j])@ == labels@[j]@,
        decreases labels.len() - i,
    {
        copy.push(labels[i].duplicate());
        i += 1;
    }
    assert(copy.deep_view() =~= labels.deep_view());
    copy
}

/// Compares two label sets, label by label.
pub fn compare_label_sets(a: &Vec<Label>, b: &Vec<Label>) -> (r: Sign)
    ensures
        r == label_set_sign(a.deep_view(), b.deep_view()),
{
    let ghost x = a.deep_view();
    let ghost y = b.deep_view();
    proof {
        lemma_label_order_total();
    }
    let mut i: usize = 0;
    while i < a.len() && i < b.len()
        invariant
            i <= a.len(),
            i <= b.len(),
            x == a.deep_view(),
            y == b.deep_view(),
            forall|j: int| 0 <= j < i ==> x[j] == y[j],
            strict_total_ordering(label_order()),
        decreases a.len() - i,
    {
        let sign = a[i].compare(&b[i]);
        assert(x[i as int] == a@[i as int]@ && y[i as int] == b@[i as int]@);
        match sign {
            Sign::Equal => {},
            Sign::Less => {
                proof {
                    lemma_lex_skip_common(x, y, i as int, label_order());
                    assert(label_order()(x[i as int], y[i as int]));
                    assert(label_order()(x[i as int], x[i as int]) == false);
                    lemma_lex_asymmetric(x, y, label_order());
                }
                return Sign::Less;
            },
            Sign::Greater => {
                proof {
                    lemma_lex_skip_common(y, x, i as int, label_order());
                    assert(label_order()(y[i as int], x[i as int]));
                    assert(label_order()(x[i as int], x[i as int]) == false);
                    lemma_lex_asymmetric(y, x, label_order());
                }
                return Sign::Greater;
            },
        }
        i += 1;
    }
    proof {
        lemma_lex_skip_common(x, y, i as int, label_order());
        lemma_lex_skip_common(y, x, i as int, label_order());
        if x.len() == y.len() {
            assert(x =~= y);
        } else if x.len() < y.len() {
            lemma_lex_asymmetric(x, y, label_order());
        } else {
            lemma_lex_asymmetric(y, x, label_order());
        }
    }
    if a.len() == b.len() {
        Sign::Equal
    } else if a.len() < b.len() {
        Sign::Less
    } else {
        Sign::Greater
    }
}

/// The canonical form of a label set: its labels in increasing order.
pub fn canonical_labels(labels: &Vec<Label>) -> (r: Vec<Label>)
    ensures
        r.deep_view() == canonical(labels.deep_view()),
{
    let ghost input = labels.deep_view();
    let mut sorted: Vec<Label> = Vec::new();
    let mut i: usize = 0;
    proof {
        lemma_label_order_total();
        assert(sorted.deep_view() =~= input.take(0));
    }
    while i < labels.len()
        invariant
            i <= labels.len(),
            input == labels.deep_view(),
            sorted@.len() == i,
            sorted_by(sorted.deep_view(), label_leq()),
            sorted.deep_view().to_multiset() == input.take(i as int).to_multiset(),
            strict_total_ordering(label_order()),
            total_ordering(label_leq()),
        decreases labels.len() - i,
    {
        let ghost before = sorted.deep_view();
        let mut p: usize = 0;
        let mut scanning = true;
        while scanning && p < sorted.len()
            invariant
                p <= sorted.len(),
                i < labels.len(),
                before == sorted.deep_view(),
                forall|j: int| 0 <= j < p ==> label_less(#[trigger] before[j], labels@[i as int]@),
                !scanning ==> p < sorted.len() && !label_less(before[p as int], labels@[i as int]@),
            decreases sorted.len() - p + if scanning { 1int } else { 0int },
        {
            assert(before[p as int] == sorted@[p as int]@);
            match sorted[p].compare(&labels[i]) {
                Sign::Less => {
                    p += 1;
                },
                _ => {
                    scanning = false;
                },
            }
        }
        sorted.insert(p, labels[i].duplicate());
        proof {
            let label = labels@[i as int]@;
            let after = sorted.deep_view();
            assert(after =~= before.insert(p as int, label));
            assert(input.take(i + 1) =~= input.take(i as int).push(label));
            to_multiset_insert(before, p as int, label);
            to_multiset_build(input.take(i as int), label);
            assert forall|a: int, b: int| 0 <= a < b < after.len() implies (#[trigger] label_leq()(
                after[a],
                after[b],
            )) by {
                if b < p {
                    assert(label_leq()(before[a], before[b]));
                } else if b == p {
                    assert(label_less(before[a], label));
                } else if a < p {
                    assert(label_leq()(before[a], before[b - 1]));
                } else if a == p {
                    // the scan stopped at `p`: the label there does not come before the new one
                    assert(!label_less(before[p as int], label));
                    assert(label_order()(before[p as int], label) || label_order()(
                        label,
                        before[p as int],
                    ) || before[p as int] == label);
                    if b - 1 > p {
                        assert(label_leq()(before[p as int], before[b - 1]));
                        assert(label_leq()(label, before[p as int]));
                    }
                } else {
                    assert(label_leq()(before[a - 1], before[b - 1]));
                }
            }
        }
        i += 1;
    }
    proof {
        assert(input.take(labels@.len() as int) =~= input);
        lemma_canonical_unique(sorted.deep_view(), input);
    }
    sorted
}

} // verus!
