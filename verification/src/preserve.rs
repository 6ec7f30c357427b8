//! The operations on a collector keep its invariant.

use crate::emf::Unit;
use crate::labels::{canonical, label_order, label_set_less, lemma_label_order_total};
use crate::model::{
    group_rank, groups_sorted, indexed, CollectorModel, GroupModel, MetricKind, MetricModel,
};
use crate::name_map::{
    holds, lemma_put_sorted, lemma_rank_bounds, lemma_without_sorted, names_sorted, put, rank,
};
use crate::order::{
    lemma_lex_asymmetric, lemma_lex_connected, lemma_lex_irreflexive, lemma_lex_transitive,
};
use crate::value::ValueModel;
use vstd::prelude::*;

verus! {

/// No label set comes before itself.
pub proof fn lemma_label_set_irreflexive(a: Seq<(Seq<char>, Seq<char>)>)
    ensures
        !label_set_less(a, a),
{
    lemma_lex_irreflexive(a, label_order());
}

/// What comes before a label set comes before all that comes after it.
pub proof fn lemma_label_set_transitive(
    a: Seq<(Seq<char>, Seq<char>)>,
    b: Seq<(Seq<char>, Seq<char>)>,
    c: Seq<(Seq<char>, Seq<char>)>,
)
    requires
        label_set_less(a, b),
        label_set_less(b, c),
    ensures
        label_set_less(a, c),
{
    lemma_label_order_total();
    lemma_lex_transitive(a, b, c, label_order());
}

/// Of two different label sets one comes before the other.
pub proof fn lemma_label_set_connected(a: Seq<(Seq<char>, Seq<char>)>, b: Seq<(Seq<char>, Seq<char>)>)
    requires
        a != b,
    ensures
        label_set_less(a, b) || label_set_less(b, a),
{
    lemma_label_order_total();
    lemma_lex_connected(a, b, label_order());
}

/// Of two label sets only one comes before the other, and then they differ.
pub proof fn lemma_label_set_asymmetric(a: Seq<(Seq<char>, Seq<char>)>, b: Seq<(Seq<char>, Seq<char>)>)
    requires
        label_set_less(a, b),
    ensures
        !label_set_less(b, a),
        a != b,
{
    lemma_label_order_total();
    lemma_lex_asymmetric(a, b, label_order());
}

/// The rank of a key is the first position whose key does not come before it.
pub proof fn lemma_group_rank_at(groups: Seq<GroupModel>, key: Seq<(Seq<char>, Seq<char>)>, i: int)
    requires
        0 <= i <= groups.len(),
        forall|j: int| 0 <= j < i ==> label_set_less((#[trigger] groups[j]).key, key),
        i < groups.len() ==> !label_set_less(groups[i].key, key),
    ensures
        group_rank(groups, key) == i,
    decreases i,
{
    if i > 0 {
        let t = groups.drop_first();
        assert forall|j: int| 0 <= j < i - 1 implies label_set_less((#[trigger] t[j]).key, key) by {
            assert(t[j] == groups[j + 1]);
        }
        if i < groups.len() {
            assert(t[i - 1] == groups[i]);
        }
        lemma_group_rank_at(t, key, i - 1);
    }
}

/// What the rank of a key says of the groups before and at it.
pub proof fn lemma_group_rank_bounds(groups: Seq<GroupModel>, key: Seq<(Seq<char>, Seq<char>)>)
    ensures
        group_rank(groups, key) <= groups.len(),
        forall|j: int| 0 <= j < group_rank(groups, key) ==> label_set_less((#[trigger] groups[j]).key, key),
        group_rank(groups, key) < groups.len() ==> !label_set_less(
            groups[group_rank(groups, key) as int].key,
            key,
        ),
    decreases groups.len(),
{
    if groups.len() == 0 || !label_set_less(groups[0].key, key) {
    } else {
        let t = groups.drop_first();
        lemma_group_rank_bounds(t, key);
        assert forall|j: int| 0 <= j < group_rank(groups, key) implies label_set_less(
            (#[trigger] groups[j]).key,
            key,
        ) by {
            if j > 0 {
                assert(groups[j] == t[j - 1]);
            }
        }
        if group_rank(groups, key) < groups.len() {
            assert(groups[group_rank(groups, key) as int] == t[group_rank(t, key) as int]);
        }
    }
}

/// A new group, put at the rank of its key, keeps the groups sorted.
pub proof fn lemma_group_insert_sorted(groups: Seq<GroupModel>, group: GroupModel)
    requires
        groups_sorted(groups),
        group_rank(groups, group.key) < groups.len() ==> groups[group_rank(
            groups,
            group.key,
        ) as int].key != group.key,
    ensures
        groups_sorted(groups.insert(group_rank(groups, group.key) as int, group)),
{
    let r = group_rank(groups, group.key) as int;
    let t = groups.insert(r, group);
    lemma_group_rank_bounds(groups, group.key);
    assert forall|i: int, j: int| 0 <= i < j < t.len() implies label_set_less(
        (#[trigger] t[i]).key,
        (#[trigger] t[j]).key,
    ) by {
        if r < groups.len() {
            lemma_label_set_connected(groups[r].key, group.key);
        }
        if j < r {
            assert(t[i] == groups[i] && t[j] == groups[j]);
        } else if j == r {
            assert(t[i] == groups[i]);
        } else if i < r {
            assert(t[i] == groups[i] && t[j] == groups[j - 1]);
        } else if i == r {
            assert(t[j] == groups[j - 1]);
            if j - 1 > r {
                assert(label_set_less(groups[r].key, groups[j - 1].key));
                lemma_label_set_transitive(group.key, groups[r].key, groups[j - 1].key);
            }
        } else {
            assert(t[i] == groups[i - 1] && t[j] == groups[j - 1]);
        }
    }
}

/// Registering a metric keeps the invariant.
pub proof fn lemma_register_wf(
    m: CollectorModel,
    name: Seq<char>,
    labels: Seq<(Seq<char>, Seq<char>)>,
    kind: MetricKind,
)
    requires
        m.wf(),
        m.has_room(),
    ensures
        m.register(name, labels, kind).wf(),
{
    let n = m.register(name, labels, kind);
    if m.over_budget(labels) || m.find_slot(name, labels) is Some {
    } else {
        let key = canonical(labels);
        let g = group_rank(m.groups, key) as int;
        let slot = m.slots.len() as usize;
        lemma_group_rank_bounds(m.groups, key);
        assert(n.slots.len() == m.slots.len() + 1);
        assert(n.slots_bounded()) by {
            assert forall|s: int| 0 <= s < n.slots.len() implies (#[trigger] n.slots[s]).bounded() by {
                if s < m.slots.len() {
                    assert(n.slots[s] == m.slots[s]);
                }
            }
        }
        if m.find_group(labels) is Some {
            let old_group = m.groups[g];
            let r = rank(old_group.metrics, name) as int;
            let new_group = n.groups[g];
            lemma_rank_bounds(old_group.metrics, name);
            assert(!holds(old_group.metrics, name));
            assert(new_group.metrics == old_group.metrics.insert(r, (name, slot)));
            lemma_put_sorted(old_group.metrics, name, slot);
            assert(groups_sorted(n.groups)) by {
                assert forall|i: int, j: int| 0 <= i < j < n.groups.len() implies label_set_less(
                    (#[trigger] n.groups[i]).key,
                    (#[trigger] n.groups[j]).key,
                ) by {
                    assert(n.groups[i].key == m.groups[i].key);
                    assert(n.groups[j].key == m.groups[j].key);
                }
            }
            assert(n.groups_wf()) by {
                assert forall|h: int| 0 <= h < n.groups.len() implies {
                    &&& (#[trigger] n.groups[h]).key == canonical(n.groups[h].labels)
                    &&& names_sorted(n.groups[h].metrics)
                    &&& n.config.default_dimensions.len() + n.groups[h].labels.len()
                        <= crate::model::MAX_DIMENSIONS
                } by {
                    if h != g {
                        assert(n.groups[h] == m.groups[h]);
                    } else {
                        assert(m.groups[g].key == canonical(m.groups[g].labels));
                    }
                }
            }
            // every entry of the new index is the new one or an old one
            assert forall|h: int, f: int|
                0 <= h < n.groups.len() && 0 <= f < n.groups[h].metrics.len() implies {
                let e = if h == g && f > r {
                    f - 1
                } else {
                    f
                };
                if h == g && f == r {
                    (#[trigger] n.groups[h].metrics[f]) == (name, slot)
                } else {
                    0 <= e < m.groups[h].metrics.len() && n.groups[h].metrics[f] == m.groups[h].metrics[e]
                }
            } by {
                if h != g {
                    assert(n.groups[h] == m.groups[h]);
                }
            }
            assert(n.slots_valid()) by {
                assert forall|h: int, f: int|
                    0 <= h < n.groups.len() && 0 <= f < n.groups[h].metrics.len() implies (
                #[trigger] n.groups[h].metrics[f]).1 < n.slots.len() by {
                    let e = if h == g && f > r {
                        f - 1
                    } else {
                        f
                    };
                    if !(h == g && f == r) {
                        assert(m.groups[h].metrics[e].1 < m.slots.len());
                    }
                }
            }
            assert(n.slots_distinct()) by {
                assert forall|h1: int, f1: int, h2: int, f2: int|
                    0 <= h1 < n.groups.len() && 0 <= f1 < n.groups[h1].metrics.len() && 0 <= h2
                        < n.groups.len() && 0 <= f2 < n.groups[h2].metrics.len() && (
                    #[trigger] n.groups[h1].metrics[f1]).1 == (
                    #[trigger] n.groups[h2].metrics[f2]).1 implies h1 == h2 && f1 == f2 by {
                    let e1 = if h1 == g && f1 > r {
                        f1 - 1
                    } else {
                        f1
                    };
                    let e2 = if h2 == g && f2 > r {
                        f2 - 1
                    } else {
                        f2
                    };
                    if !(h1 == g && f1 == r) {
                        assert(m.groups[h1].metrics[e1].1 < m.slots.len());
                    }
                    if !(h2 == g && f2 == r) {
                        assert(m.groups[h2].metrics[e2].1 < m.slots.len());
                    }
                    if !(h1 == g && f1 == r) && !(h2 == g && f2 == r) {
                        assert(m.groups[h1].metrics[e1].1 == m.groups[h2].metrics[e2].1);
                    }
                }
            }
            assert(n.slots_covered()) by {
                assert forall|s: int| 0 <= s < n.slots.len() implies #[trigger] indexed(n.groups, s) by {
                    if s < m.slots.len() {
                        assert(indexed(m.groups, s));
                        let (h, e) = choose|h: int, e: int|
                            0 <= h < m.groups.len() && 0 <= e < m.groups[h].metrics.len() && (
                            #[trigger] m.groups[h].metrics[e]).1 == s;
                        let f = if h == g && e >= r {
                            e + 1
                        } else {
                            e
                        };
                        if h != g {
                            assert(n.groups[h] == m.groups[h]);
                        }
                        assert(n.groups[h].metrics[f].1 == s);
                    } else {
                        assert(n.groups[g].metrics[r].1 == s);
                    }
                }
            }
        } else {
            let new_group = GroupModel { key, labels, metrics: seq![(name, slot)] };
            assert(n.groups == m.groups.insert(g, new_group));
            lemma_group_insert_sorted(m.groups, new_group);
            assert forall|h: int| 0 <= h < n.groups.len() implies {
                let e = if h > g {
                    h - 1
                } else {
                    h
                };
                if h == g {
                    (#[trigger] n.groups[h]) == new_group
                } else {
                    0 <= e < m.groups.len() && n.groups[h] == m.groups[e]
                }
            } by {}
            assert(n.groups_wf()) by {
                assert forall|h: int| 0 <= h < n.groups.len() implies {
                    &&& (#[trigger] n.groups[h]).key == canonical(n.groups[h].labels)
                    &&& names_sorted(n.groups[h].metrics)
                    &&& n.config.default_dimensions.len() + n.groups[h].labels.len()
                        <= crate::model::MAX_DIMENSIONS
                } by {
                    let e = if h > g {
                        h - 1
                    } else {
                        h
                    };
                    if h != g {
                        assert(m.groups[e].key == canonical(m.groups[e].labels));
                    }
                }
            }
            assert(n.slots_valid()) by {
                assert forall|h: int, f: int|
                    0 <= h < n.groups.len() && 0 <= f < n.groups[h].metrics.len() implies (
                #[trigger] n.groups[h].metrics[f]).1 < n.slots.len() by {
                    let e = if h > g {
                        h - 1
                    } else {
                        h
                    };
                    if h != g {
                        assert(m.groups[e].metrics[f].1 < m.slots.len());
                    }
                }
            }
            assert(n.slots_distinct()) by {
                assert forall|h1: int, f1: int, h2: int, f2: int|
                    0 <= h1 < n.groups.len() && 0 <= f1 < n.groups[h1].metrics.len() && 0 <= h2
                        < n.groups.len() && 0 <= f2 < n.groups[h2].metrics.len() && (
                    #[trigger] n.groups[h1].metrics[f1]).1 == (
                    #[trigger] n.groups[h2].metrics[f2]).1 implies h1 == h2 && f1 == f2 by {
                    let e1 = if h1 > g {
                        h1 - 1
                    } else {
                        h1
                    };
                    let e2 = if h2 > g {
                        h2 - 1
                    } else {
                        h2
                    };
                    if h1 != g {
                        assert(m.groups[e1].metrics[f1].1 < m.slots.len());
                    }
                    if h2 != g {
                        assert(m.groups[e2].metrics[f2].1 < m.slots.len());
                    }
                    if h1 != g && h2 != g {
                        assert(m.groups[e1].metrics[f1].1 == m.groups[e2].metrics[f2].1);
                    }
                }
            }
            assert(n.slots_covered()) by {
                assert forall|s: int| 0 <= s < n.slots.len() implies #[trigger] indexed(n.groups, s) by {
                    if s < m.slots.len() {
                        assert(indexed(m.groups, s));
                        let (h, e) = choose|h: int, e: int|
                            0 <= h < m.groups.len() && 0 <= e < m.groups[h].metrics.len() && (
                            #[trigger] m.groups[h].metrics[e]).1 == s;
                        let h2 = if h >= g {
                            h + 1
                        } else {
                            h
                        };
                        assert(n.groups[h2] == m.groups[h]);
                        assert(n.groups[h2].metrics[e].1 == s);
                    } else {
                        assert(n.groups[g].metrics[0].1 == s);
                    }
                }
            }
        }
    }
}

/// A change of the state of one metric keeps the invariant, if a histogram
/// stays within its bound.
pub proof fn lemma_update_slot_wf(m: CollectorModel, s: int, state: MetricModel)
    requires
        m.wf(),
        0 <= s < m.slots.len(),
        state.bounded(),
    ensures
        (CollectorModel { slots: m.slots.update(s, state), ..m }).wf(),
{
    let n = CollectorModel { slots: m.slots.update(s, state), ..m };
    assert(n.groups == m.groups);
    assert(n.slots.len() == m.slots.len());
    assert(n.slots_valid());
    assert(n.slots_distinct());
    assert(n.slots_covered());
    assert(n.groups_wf());
}

/// Adding to a counter keeps the invariant.
pub proof fn lemma_counter_add_wf(m: CollectorModel, slot: Option<usize>, delta: u64)
    requires
        m.wf(),
    ensures
        m.counter_add(slot, delta).wf(),
{
    if m.holds_kind(slot, MetricKind::Counter) {
        lemma_update_slot_wf(
            m,
            slot->0 as int,
            m.counter_add(slot, delta).slots[slot->0 as int],
        );
        assert(m.counter_add(slot, delta).slots =~= m.slots.update(
            slot->0 as int,
            m.counter_add(slot, delta).slots[slot->0 as int],
        ));
    }
}

/// Setting a gauge keeps the invariant.
pub proof fn lemma_gauge_set_wf(m: CollectorModel, slot: Option<usize>, bits: u64)
    requires
        m.wf(),
    ensures
        m.gauge_set(slot, bits).wf(),
{
    if m.holds_kind(slot, MetricKind::Gauge) {
        lemma_update_slot_wf(m, slot->0 as int, MetricModel::Gauge(bits));
    }
}

/// Handing a sample to a histogram keeps the invariant.
pub proof fn lemma_histogram_record_wf(m: CollectorModel, slot: Option<usize>, bits: u64)
    requires
        m.wf(),
    ensures
        m.histogram_record(slot, bits).wf(),
{
    if m.histogram_recorded(slot) == crate::model::Recorded::Kept {
        let s = slot->0 as int;
        lemma_update_slot_wf(m, s, MetricModel::Histogram(m.slots[s]->Histogram_0.push(bits)));
    }
}

/// Setting or clearing a unit keeps the invariant.
pub proof fn lemma_describe_wf(m: CollectorModel, name: Seq<char>, unit: Option<Unit>)
    requires
        m.wf(),
    ensures
        m.describe(name, unit).wf(),
{
    let n = m.describe(name, unit);
    match unit {
        Some(u) => lemma_put_sorted(m.units, name, u),
        None => lemma_without_sorted(m.units, name),
    }
    assert(n.groups == m.groups && n.slots == m.slots);
    assert(n.slots_valid());
    assert(n.slots_distinct());
    assert(n.slots_covered());
    assert(n.groups_wf());
}

/// Setting a property keeps the invariant.
pub proof fn lemma_set_property_wf(m: CollectorModel, name: Seq<char>, value: ValueModel)
    requires
        m.wf(),
    ensures
        m.set_property(name, value).wf(),
{
    let n = m.set_property(name, value);
    lemma_put_sorted(m.properties, name, value);
    assert(n.groups == m.groups && n.slots == m.slots);
    assert(n.slots_valid());
    assert(n.slots_distinct());
    assert(n.slots_covered());
    assert(n.groups_wf());
}

/// Taking a property away keeps the invariant.
pub proof fn lemma_remove_property_wf(m: CollectorModel, name: Seq<char>)
    requires
        m.wf(),
    ensures
        m.remove_property(name).wf(),
{
    let n = m.remove_property(name);
    lemma_without_sorted(m.properties, name);
    assert(n.groups == m.groups && n.slots == m.slots);
    assert(n.slots_valid());
    assert(n.slots_distinct());
    assert(n.slots_covered());
    assert(n.groups_wf());
}

/// A change of all states that keeps their number and the bound of the
/// histograms keeps the invariant.
pub proof fn lemma_new_slots_wf(m: CollectorModel, slots: Seq<MetricModel>)
    requires
        m.wf(),
        slots.len() == m.slots.len(),
        forall|s: int| 0 <= s < slots.len() ==> (#[trigger] slots[s]).bounded(),
    ensures
        (CollectorModel { slots, ..m }).wf(),
{
    let n = CollectorModel { slots, ..m };
    assert(n.groups == m.groups);
    assert(n.slots_valid());
    assert(n.slots_distinct());
    assert(n.slots_covered());
    assert(n.groups_wf());
}

/// Flushing one group keeps the invariant.
pub proof fn lemma_flush_group_wf(m: CollectorModel, g: int)
    requires
        m.wf(),
        0 <= g < m.groups.len(),
    ensures
        m.flush_group(g).wf(),
{
    lemma_new_slots_wf(m, m.flush_group(g).slots);
}

/// A flush keeps the invariant.
pub proof fn lemma_flushed_wf(m: CollectorModel)
    requires
        m.wf(),
    ensures
        m.flushed().wf(),
{
    lemma_new_slots_wf(m, m.flushed().slots);
}

} // verus!
