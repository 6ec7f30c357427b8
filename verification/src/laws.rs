//! What holds of a collector, whatever is done with it.

use crate::emf::Unit;
use crate::flush::lemma_listing_names;
use crate::json::Atom;
use crate::labels::{canonical, lemma_canonical_identifies};
use crate::model::{
    group_rank, listing, owns, CollectorModel, MetricKind, MetricModel, Recorded, RegisterError,
    MAX_DIMENSIONS, MAX_HISTOGRAM_VALUES,
};
use crate::name_map::{
    law_lookup_without_other, law_lookup_without_same, lemma_lookup_put_other,
    lemma_lookup_put_same, lemma_put_last, lemma_rank_at, lookup, names_sorted,
};
use crate::order::{lemma_text_irreflexive, text_less};
use crate::preserve::{
    lemma_group_rank_at, lemma_group_rank_bounds, lemma_label_set_irreflexive, lemma_register_wf,
};
use crate::value::{float_models, ScalarModel, ValueModel};
use vstd::arithmetic::div_mod::{lemma_add_mod_noop_right, lemma_small_mod};
use vstd::prelude::*;

verus! {

/// A metric that was just made is found under its name and its labels, in the
/// slot that it was given.
pub proof fn lemma_new_metric_is_found(
    m: CollectorModel,
    name: Seq<char>,
    labels: Seq<(Seq<char>, Seq<char>)>,
    kind: MetricKind,
)
    requires
        m.wf(),
        m.has_room(),
        m.find_slot(name, labels) is None,
    ensures
        m.with_new_metric(name, labels, kind).find_slot(name, labels) == Some(
            m.slots.len() as usize,
        ),
{
    let n = m.with_new_metric(name, labels, kind);
    let key = canonical(labels);
    let g = group_rank(m.groups, key) as int;
    let slot = m.slots.len() as usize;
    lemma_group_rank_bounds(m.groups, key);
    lemma_label_set_irreflexive(key);
    if m.find_group(labels) is Some {
        assert forall|j: int| 0 <= j < g implies crate::labels::label_set_less(
            (#[trigger] n.groups[j]).key,
            key,
        ) by {
            assert(n.groups[j] == m.groups[j]);
        }
        assert(n.groups[g].key == key);
        lemma_group_rank_at(n.groups, key, g);
        lemma_lookup_put_same(m.groups[g].metrics, name, slot);
    } else {
        assert forall|j: int| 0 <= j < g implies crate::labels::label_set_less(
            (#[trigger] n.groups[j]).key,
            key,
        ) by {
            assert(n.groups[j] == m.groups[j]);
        }
        assert(n.groups[g].key == key);
        lemma_group_rank_at(n.groups, key, g);
        lemma_text_irreflexive(name);
        lemma_rank_at(n.groups[g].metrics, name, 0);
    }
}

/// After a registration that did not fail, the metric is registered with the
/// kind asked for, in the slot that the registration gave.
pub proof fn lemma_registered(
    m: CollectorModel,
    name: Seq<char>,
    labels: Seq<(Seq<char>, Seq<char>)>,
    kind: MetricKind,
)
    requires
        m.wf(),
        m.has_room(),
        m.register_error(name, labels, kind) is None,
    ensures
        m.register(name, labels, kind).wf(),
        m.register_slot(name, labels, kind) is Some,
        m.register(name, labels, kind).find_slot(name, labels) == m.register_slot(name, labels, kind),
        m.register(name, labels, kind).holds_kind(m.register_slot(name, labels, kind), kind),
{
    lemma_register_wf(m, name, labels, kind);
    let n = m.register(name, labels, kind);
    match m.find_slot(name, labels) {
        Some(slot) => {
            let g = m.find_group(labels)->0;
            crate::name_map::lemma_rank_bounds(m.groups[g].metrics, name);
            let e = crate::name_map::rank(m.groups[g].metrics, name) as int;
            assert(m.groups[g].metrics[e].1 == slot);
        },
        None => {
            lemma_new_metric_is_found(m, name, labels, kind);
        },
    }
}

/// Idempotent identity. After a metric was registered, every registration of
/// the same name with the same kind, under labels that are the same up to
/// their order, gives the slot of the first one, reports no error and changes
/// nothing: all the handles refer to one state.
pub proof fn law_register_idempotent(
    m: CollectorModel,
    name: Seq<char>,
    labels: Seq<(Seq<char>, Seq<char>)>,
    again: Seq<(Seq<char>, Seq<char>)>,
    kind: MetricKind,
)
    requires
        m.wf(),
        m.has_room(),
        m.register_error(name, labels, kind) is None,
        again.to_multiset() == labels.to_multiset(),
    ensures
        m.register(name, labels, kind).register(name, again, kind) == m.register(name, labels, kind),
        m.register(name, labels, kind).register_slot(name, again, kind) == m.register_slot(
            name,
            labels,
            kind,
        ),
        m.register(name, labels, kind).register_error(name, again, kind) is None,
{
    lemma_registered(m, name, labels, kind);
    lemma_canonical_identifies(labels, again);
    labels.to_multiset_ensures();
    again.to_multiset_ensures();
    let n = m.register(name, labels, kind);
    assert(n.config == m.config);
    assert(n.find_slot(name, again) == n.find_slot(name, labels));
    assert(n.over_budget(again) == m.over_budget(labels));
}

/// Kind exclusivity. After a metric was registered with one kind, a
/// registration of the same name under the same labels with another kind
/// gives no slot, reports the kind that is there and changes nothing; the
/// slot of the first registration still holds a metric of the first kind.
pub proof fn law_kind_exclusive(
    m: CollectorModel,
    name: Seq<char>,
    labels: Seq<(Seq<char>, Seq<char>)>,
    first: MetricKind,
    second: MetricKind,
)
    requires
        m.wf(),
        m.has_room(),
        m.register_error(name, labels, first) is None,
        first != second,
    ensures
        m.register(name, labels, first).register(name, labels, second) == m.register(
            name,
            labels,
            first,
        ),
        m.register(name, labels, first).register_slot(name, labels, second) is None,
        m.register(name, labels, first).register_error(name, labels, second) == Some(
            RegisterError::KindMismatch { existing: first },
        ),
        m.register(name, labels, first).holds_kind(m.register_slot(name, labels, first), first),
{
    lemma_registered(m, name, labels, first);
    let n = m.register(name, labels, first);
    assert(n.config == m.config);
}

/// Dimension budget. A registration under labels that, together with the
/// configured dimensions, are more than a document can hold gives no slot and
/// changes nothing; and no document of a collector has more dimensions than
/// a document can hold.
pub proof fn law_dimension_budget(
    m: CollectorModel,
    name: Seq<char>,
    labels: Seq<(Seq<char>, Seq<char>)>,
    kind: MetricKind,
    g: int,
    timestamp: u64,
)
    requires
        m.wf(),
    ensures
        m.over_budget(labels) ==> {
            &&& m.register(name, labels, kind) == m
            &&& m.register_slot(name, labels, kind) is None
            &&& m.register_error(name, labels, kind) == Some(RegisterError::TooManyDimensions)
        },
        m.register_error(name, labels, kind) == Some(RegisterError::TooManyDimensions)
            ==> m.over_budget(labels),
        0 <= g < m.groups.len() ==> m.group_document(
            g,
            timestamp,
        ).aws.cloudwatch_metrics.dimensions.len() <= MAX_DIMENSIONS,
{
    if 0 <= g < m.groups.len() {
        assert(m.config.default_dimensions.len() + m.groups[g].labels.len() <= MAX_DIMENSIONS);
    }
}

/// The sum of `deltas`.
pub open spec fn total(deltas: Seq<u64>) -> nat
    decreases deltas.len(),
{
    if deltas.len() == 0 {
        0
    } else {
        total(deltas.drop_last()) + deltas.last() as nat
    }
}

impl CollectorModel {
    /// The collector after each of `deltas` was added to the counter at
    /// `slot`, one after the other.
    pub open spec fn counter_add_all(self, slot: Option<usize>, deltas: Seq<u64>) -> CollectorModel
        decreases deltas.len(),
    {
        if deltas.len() == 0 {
            self
        } else {
            self.counter_add_all(slot, deltas.drop_last()).counter_add(slot, deltas.last())
        }
    }

    /// The collector after each of `samples` was handed to the histogram at
    /// `slot`, one after the other.
    pub open spec fn histogram_record_all(self, slot: Option<usize>, samples: Seq<u64>) -> CollectorModel
        decreases samples.len(),
    {
        if samples.len() == 0 {
            self
        } else {
            self.histogram_record_all(slot, samples.drop_last()).histogram_record(
                slot,
                samples.last(),
            )
        }
    }

    /// How many of `samples` the histogram at `slot` dropped when they were
    /// handed to it one after the other.
    pub open spec fn histogram_dropped(self, slot: Option<usize>, samples: Seq<u64>) -> nat
        decreases samples.len(),
    {
        if samples.len() == 0 {
            0
        } else {
            let before = self.histogram_record_all(slot, samples.drop_last());
            self.histogram_dropped(slot, samples.drop_last()) + if before.histogram_recorded(slot)
                == Recorded::Dropped {
                1nat
            } else {
                0nat
            }
        }
    }

    /// The collector after `n` flushes.
    pub open spec fn flushed_times(self, n: nat) -> CollectorModel
        decreases n,
    {
        if n == 0 {
            self
        } else {
            self.flushed_times((n - 1) as nat).flushed()
        }
    }

    /// The collector after the first `n` groups were flushed one after the other.
    pub open spec fn flushed_groups(self, n: int) -> CollectorModel
        decreases n,
    {
        if n <= 0 {
            self
        } else {
            self.flushed_groups(n - 1).flush_group(n - 1)
        }
    }

    /// What is written when the first `n` groups are flushed one after the other.
    pub open spec fn flushed_groups_text(self, n: int, timestamp: u64) -> Seq<Atom>
        decreases n,
    {
        if n <= 0 {
            Seq::empty()
        } else {
            self.flushed_groups_text(n - 1, timestamp) + self.flushed_groups(n - 1).group_text(
                n - 1,
                timestamp,
            )
        }
    }
}

/// The first `n` of `samples`, or all of them if they are fewer.
pub open spec fn first(samples: Seq<u64>, n: nat) -> Seq<u64> {
    if samples.len() <= n {
        samples
    } else {
        samples.take(n as int)
    }
}

/// What is listed under a name is the reading of the metric of that name: a
/// document binds a name exactly if the label set has a metric of that name
/// and a flush lists it.
pub proof fn lemma_listing_lookup(
    entries: Seq<(Seq<char>, usize)>,
    slots: Seq<MetricModel>,
    emit_zeros: bool,
    name: Seq<char>,
)
    requires
        names_sorted(entries),
    ensures
        lookup(listing(entries, slots, emit_zeros), name) == match lookup(entries, name) {
            Some(slot) => slots[slot as int].reading(emit_zeros),
            None => None,
        },
    decreases entries.len(),
{
    if entries.len() == 0 {
    } else {
        let front = entries.drop_last();
        let last = entries.last();
        let rest = listing(front, slots, emit_zeros);
        assert(names_sorted(front)) by {
            assert forall|i: int, j: int| 0 <= i < j < front.len() implies text_less(
                (#[trigger] front[i]).0,
                (#[trigger] front[j]).0,
            ) by {
                assert(front[i] == entries[i] && front[j] == entries[j]);
            }
        }
        lemma_listing_names(front, slots, emit_zeros);
        lemma_listing_lookup(front, slots, emit_zeros, name);
        if front.len() > 0 {
            assert(front.last() == entries[entries.len() - 2]);
            assert(text_less(front.last().0, last.0));
        }
        lemma_put_last(front, last.0, last.1);
        assert(front.push(last) =~= entries);
        if rest.len() > 0 {
            let e = choose|e: int| 0 <= e < front.len() && (#[trigger] front[e]).0 == rest[rest.len() - 1].0;
            assert(front[e] == entries[e]);
            assert(text_less(entries[e].0, entries[entries.len() - 1].0));
        }
        // the last name is not among the names before it
        assert(lookup(front, last.0) is None) by {
            assert forall|j: int| 0 <= j < front.len() implies text_less(
                (#[trigger] front[j]).0,
                last.0,
            ) by {
                assert(front[j] == entries[j]);
            }
            lemma_rank_at(front, last.0, front.len() as int);
        }
        lemma_listing_lookup(front, slots, emit_zeros, last.0);
        if name == last.0 {
            lemma_lookup_put_same(front, last.0, last.1);
        } else {
            lemma_lookup_put_other(front, last.0, last.1, name);
        }
        match slots[last.1 as int].reading(emit_zeros) {
            Some(value) => {
                lemma_put_last(rest, last.0, value);
                if name == last.0 {
                    lemma_lookup_put_same(rest, last.0, value);
                } else {
                    lemma_lookup_put_other(rest, last.0, value, name);
                }
            },
            None => {},
        }
    }
}

/// What a document holds for a name: the reading of the metric of that name
/// under the label set of the document.
pub proof fn law_document_values(m: CollectorModel, g: int, name: Seq<char>, timestamp: u64)
    requires
        m.wf(),
        0 <= g < m.groups.len(),
    ensures
        lookup(m.group_document(g, timestamp).values, name) == match lookup(
            m.groups[g].metrics,
            name,
        ) {
            Some(slot) => m.slots[slot as int].reading(m.config.emit_zeros),
            None => None,
        },
{
    assert(names_sorted(m.groups[g].metrics));
    lemma_listing_lookup(m.groups[g].metrics, m.slots, m.config.emit_zeros, name);
}

/// Adding to a counter changes the counter alone; what it holds afterwards is
/// what it held and all that was added, modulo 2^64.
pub proof fn lemma_counter_add_all(m: CollectorModel, slot: Option<usize>, deltas: Seq<u64>)
    requires
        m.wf(),
        m.holds_kind(slot, MetricKind::Counter),
    ensures
        m.counter_add_all(slot, deltas).wf(),
        m.counter_add_all(slot, deltas) == (CollectorModel {
            slots: m.slots.update(
                slot->0 as int,
                MetricModel::Counter(
                    ((m.slots[slot->0 as int]->Counter_0 + total(deltas)) % 0x1_0000_0000_0000_0000) as u64,
                ),
            ),
            ..m
        }),
    decreases deltas.len(),
{
    let s = slot->0 as int;
    let v = m.slots[s]->Counter_0;
    let modulus = 0x1_0000_0000_0000_0000int;
    if deltas.len() == 0 {
        lemma_small_mod(v as nat, modulus as nat);
        assert(m.slots.update(s, MetricModel::Counter(v)) =~= m.slots);
    } else {
        let front = deltas.drop_last();
        let before = m.counter_add_all(slot, front);
        lemma_counter_add_all(m, slot, front);
        crate::preserve::lemma_counter_add_wf(before, slot, deltas.last());
        let held = ((v + total(front)) % modulus) as u64;
        assert(before.slots[s] == MetricModel::Counter(held));
        let sum = crate::model::wrapped_sum(held, deltas.last());
        assert(sum == (held + deltas.last()) % modulus) by {
            if held + deltas.last() >= modulus {
                lemma_small_mod((held + deltas.last() - modulus) as nat, modulus as nat);
                assert((held + deltas.last() - modulus) % modulus == (held + deltas.last())
                    % modulus) by (nonlinear_arith)
                    requires
                        modulus > 0,
                ;
            } else {
                lemma_small_mod((held + deltas.last()) as nat, modulus as nat);
            }
        }
        lemma_add_mod_noop_right(deltas.last() as int, v + total(front), modulus);
        assert((held + deltas.last()) % modulus == (v + total(deltas)) % modulus);
        assert(m.counter_add_all(slot, deltas).slots =~= m.slots.update(
            s,
            MetricModel::Counter(((v + total(deltas)) % modulus) as u64),
        ));
    }
}

/// Counter delta. What a counter reports at a flush is the sum of what was
/// added to it since the flush before, modulo 2^64, and so the sum itself
/// where that is below 2^64. The flush sets it back to zero: at a next flush
/// with nothing added in between it is left out, or listed with zero where
/// zeros are asked for.
pub proof fn law_counter_delta(m: CollectorModel, slot: Option<usize>, deltas: Seq<u64>)
    requires
        m.wf(),
        m.holds_kind(slot, MetricKind::Counter),
    ensures
        ({
            let s = slot->0 as int;
            let after = m.flushed().counter_add_all(slot, deltas);
            &&& after.wf()
            &&& after.slots[s] == MetricModel::Counter((total(deltas) % 0x1_0000_0000_0000_0000) as u64)
            &&& total(deltas) <= u64::MAX ==> after.slots[s] == MetricModel::Counter(
                total(deltas) as u64,
            )
            &&& 0 < total(deltas) <= u64::MAX ==> forall|emit_zeros: bool|
                #[trigger] after.slots[s].reading(emit_zeros) == Some(
                    ValueModel::Scalar(ScalarModel::Unsigned(total(deltas) as u64)),
                )
            &&& after.flushed().slots[s] == MetricModel::Counter(0)
            &&& after.flushed().slots[s].reading(false) is None
            &&& after.flushed().slots[s].reading(true) == Some(
                ValueModel::Scalar(ScalarModel::Unsigned(0)),
            )
        }),
{
    let s = slot->0 as int;
    crate::preserve::lemma_flushed_wf(m);
    let start = m.flushed();
    assert(start.slots[s] == MetricModel::Counter(0));
    lemma_counter_add_all(start, slot, deltas);
    if total(deltas) <= u64::MAX {
        lemma_small_mod(total(deltas), 0x1_0000_0000_0000_0000nat);
    }
}

/// Gauge retention. A flush leaves a gauge as it is, however often it comes,
/// and every flush lists the gauge with the value that was set last.
pub proof fn law_gauge_retention(m: CollectorModel, slot: Option<usize>, bits: u64, flushes: nat)
    requires
        m.wf(),
        m.holds_kind(slot, MetricKind::Gauge),
    ensures
        ({
            let s = slot->0 as int;
            let after = m.gauge_set(slot, bits).flushed_times(flushes);
            &&& after.wf()
            &&& after.slots.len() == m.slots.len()
            &&& after.slots[s] == MetricModel::Gauge(bits)
            &&& forall|emit_zeros: bool|
                #[trigger] after.slots[s].reading(emit_zeros) == Some(
                    ValueModel::Scalar(ScalarModel::Float(bits)),
                )
        }),
    decreases flushes,
{
    let s = slot->0 as int;
    crate::preserve::lemma_gauge_set_wf(m, slot, bits);
    if flushes > 0 {
        law_gauge_retention(m, slot, bits, (flushes - 1) as nat);
        let before = m.gauge_set(slot, bits).flushed_times((flushes - 1) as nat);
        crate::preserve::lemma_flushed_wf(before);
        assert(before.flushed().slots[s] == before.slots[s].reset());
    } else {
        assert(m.gauge_set(slot, bits).slots[s] == MetricModel::Gauge(bits));
    }
}

/// Handing samples to a histogram changes the histogram alone: it holds what
/// it held and the samples that came while it was not full, in their order.
pub proof fn lemma_histogram_record_all(m: CollectorModel, slot: Option<usize>, samples: Seq<u64>)
    requires
        m.wf(),
        m.holds_kind(slot, MetricKind::Histogram),
    ensures
        m.histogram_record_all(slot, samples).wf(),
        m.histogram_record_all(slot, samples) == (CollectorModel {
            slots: m.slots.update(
                slot->0 as int,
                MetricModel::Histogram(
                    first(
                        m.slots[slot->0 as int]->Histogram_0 + samples,
                        MAX_HISTOGRAM_VALUES as nat,
                    ),
                ),
            ),
            ..m
        }),
        m.histogram_dropped(slot, samples) == (m.slots[slot->0 as int]->Histogram_0 + samples).len()
            - first(
            m.slots[slot->0 as int]->Histogram_0 + samples,
            MAX_HISTOGRAM_VALUES as nat,
        ).len(),
    decreases samples.len(),
{
    let s = slot->0 as int;
    let held = m.slots[s]->Histogram_0;
    let cap = MAX_HISTOGRAM_VALUES as nat;
    assert(held.len() <= cap) by {
        assert(m.slots[s].bounded());
    }
    if samples.len() == 0 {
        assert(held + samples =~= held);
        assert(m.slots.update(s, MetricModel::Histogram(held)) =~= m.slots);
    } else {
        let front = samples.drop_last();
        let before = m.histogram_record_all(slot, front);
        lemma_histogram_record_all(m, slot, front);
        crate::preserve::lemma_histogram_record_wf(before, slot, samples.last());
        assert(held + samples =~= (held + front).push(samples.last()));
        let kept = first(held + front, cap);
        assert(before.slots[s] == MetricModel::Histogram(kept));
        if kept.len() < cap {
            assert(kept == held + front);
            assert(first(held + samples, cap) =~= kept.push(samples.last()));
        } else {
            assert(first(held + samples, cap) =~= kept);
        }
        assert(m.histogram_record_all(slot, samples).slots =~= m.slots.update(
            s,
            MetricModel::Histogram(first(held + samples, cap)),
        ));
    }
}

/// Histogram drain. Samples that are handed to a histogram after a flush, no
/// more than it can hold, are what the next flush lists, in the order in
/// which they came; the flush empties the histogram, and a flush right after
/// it does not list it.
pub proof fn law_histogram_drain(m: CollectorModel, slot: Option<usize>, samples: Seq<u64>)
    requires
        m.wf(),
        m.holds_kind(slot, MetricKind::Histogram),
        samples.len() <= MAX_HISTOGRAM_VALUES,
    ensures
        ({
            let s = slot->0 as int;
            let after = m.flushed().histogram_record_all(slot, samples);
            &&& after.wf()
            &&& after.slots[s] == MetricModel::Histogram(samples)
            &&& m.flushed().histogram_dropped(slot, samples) == 0
            &&& samples.len() > 0 ==> forall|emit_zeros: bool|
                #[trigger] after.slots[s].reading(emit_zeros) == Some(
                    ValueModel::Array(float_models(samples)),
                )
            &&& after.flushed().slots[s] == MetricModel::Histogram(Seq::empty())
            &&& forall|emit_zeros: bool| #[trigger]
                after.flushed().slots[s].reading(emit_zeros) is None
        }),
{
    let s = slot->0 as int;
    crate::preserve::lemma_flushed_wf(m);
    let start = m.flushed();
    assert(start.slots[s] == MetricModel::Histogram(Seq::empty()));
    lemma_histogram_record_all(start, slot, samples);
    assert(Seq::<u64>::empty() + samples =~= samples);
}

/// Histogram overflow. Of samples that are handed to a histogram after a
/// flush, the histogram keeps the first hundred and drops every one that
/// comes after them; the next flush lists the hundred.
pub proof fn law_histogram_overflow(m: CollectorModel, slot: Option<usize>, samples: Seq<u64>)
    requires
        m.wf(),
        m.holds_kind(slot, MetricKind::Histogram),
        samples.len() > MAX_HISTOGRAM_VALUES,
    ensures
        ({
            let s = slot->0 as int;
            let after = m.flushed().histogram_record_all(slot, samples);
            &&& after.wf()
            &&& after.slots[s] == MetricModel::Histogram(samples.take(MAX_HISTOGRAM_VALUES as int))
            &&& after.slots[s]->Histogram_0.len() == MAX_HISTOGRAM_VALUES
            &&& m.flushed().histogram_dropped(slot, samples) == samples.len() - MAX_HISTOGRAM_VALUES
            &&& after.histogram_recorded(slot) == Recorded::Dropped
            &&& forall|emit_zeros: bool|
                #[trigger] after.slots[s].reading(emit_zeros) == Some(
                    ValueModel::Array(float_models(samples.take(MAX_HISTOGRAM_VALUES as int))),
                )
        }),
{
    let s = slot->0 as int;
    crate::preserve::lemma_flushed_wf(m);
    let start = m.flushed();
    assert(start.slots[s] == MetricModel::Histogram(Seq::empty()));
    lemma_histogram_record_all(start, slot, samples);
    assert(Seq::<u64>::empty() + samples =~= samples);
}

/// What is listed of entries depends on the states of their metrics alone.
pub proof fn lemma_listing_agrees(
    entries: Seq<(Seq<char>, usize)>,
    one: Seq<MetricModel>,
    other: Seq<MetricModel>,
    emit_zeros: bool,
)
    requires
        forall|e: int| 0 <= e < entries.len() ==> one[(#[trigger] entries[e]).1 as int] == other[entries[e].1 as int],
    ensures
        listing(entries, one, emit_zeros) == listing(entries, other, emit_zeros),
    decreases entries.len(),
{
    if entries.len() > 0 {
        let front = entries.drop_last();
        assert forall|e: int| 0 <= e < front.len() implies one[(#[trigger] front[e]).1 as int]
            == other[front[e].1 as int] by {
            assert(front[e] == entries[e]);
        }
        lemma_listing_agrees(front, one, other, emit_zeros);
        assert(one[entries[entries.len() - 1].1 as int] == other[entries[entries.len() - 1].1 as int]);
    }
}

/// After the first `n` groups were flushed one after the other, the metrics
/// of these groups are reset and nothing else has changed.
pub proof fn lemma_flushed_groups(m: CollectorModel, n: int)
    requires
        m.wf(),
        0 <= n <= m.groups.len(),
    ensures
        m.flushed_groups(n).wf(),
        m.flushed_groups(n) == (CollectorModel { slots: m.flushed_groups(n).slots, ..m }),
        m.flushed_groups(n).slots.len() == m.slots.len(),
        forall|s: int|
            0 <= s < m.slots.len() ==> #[trigger] m.flushed_groups(n).slots[s] == if exists|g: int|
                0 <= g < n && owns(#[trigger] m.groups[g].metrics, s) {
                m.slots[s].reset()
            } else {
                m.slots[s]
            },
    decreases n,
{
    if n > 0 {
        lemma_flushed_groups(m, n - 1);
        let before = m.flushed_groups(n - 1);
        crate::preserve::lemma_flush_group_wf(before, n - 1);
        let after = m.flushed_groups(n);
        assert forall|s: int| 0 <= s < m.slots.len() implies #[trigger] after.slots[s] == if exists|
            g: int,
        |
            0 <= g < n && owns(#[trigger] m.groups[g].metrics, s) {
            m.slots[s].reset()
        } else {
            m.slots[s]
        } by {
            let earlier = exists|g: int| 0 <= g < n - 1 && owns(#[trigger] m.groups[g].metrics, s);
            let now = owns(m.groups[n - 1].metrics, s);
            if now {
                assert(0 <= n - 1 < n && owns(m.groups[n - 1].metrics, s));
                assert(m.slots[s].reset().reset() == m.slots[s].reset());
            } else if earlier {
                let g = choose|g: int| 0 <= g < n - 1 && owns(#[trigger] m.groups[g].metrics, s);
                assert(0 <= g < n && owns(m.groups[g].metrics, s));
            } else {
                if exists|g: int| 0 <= g < n && owns(#[trigger] m.groups[g].metrics, s) {
                    let g = choose|g: int| 0 <= g < n && owns(#[trigger] m.groups[g].metrics, s);
                    if g < n - 1 {
                        assert(0 <= g < n - 1 && owns(m.groups[g].metrics, s));
                    }
                }
            }
        }
    }
}

/// Flushing the label sets one after the other, in their order, writes what
/// a flush of all of them writes, and leaves the collector as that flush
/// leaves it.
pub proof fn law_flush_by_label_sets(m: CollectorModel, timestamp: u64)
    requires
        m.wf(),
    ensures
        m.flushed_groups_text(m.groups.len() as int, timestamp) == m.flush_text(timestamp),
        m.flushed_groups(m.groups.len() as int) == m.flushed(),
{
    let all = m.groups.len() as int;
    lemma_flushed_groups_text(m, all, timestamp);
    lemma_flushed_groups(m, all);
    assert(m.flushed_groups(all).slots =~= m.flushed().slots) by {
        assert forall|s: int| 0 <= s < m.slots.len() implies m.flushed_groups(all).slots[s]
            == m.flushed().slots[s] by {
            assert(crate::model::indexed(m.groups, s));
            let (g, e) = choose|g: int, e: int|
                0 <= g < m.groups.len() && 0 <= e < m.groups[g].metrics.len() && (
                #[trigger] m.groups[g].metrics[e]).1 == s;
            assert(owns(m.groups[g].metrics, s));
            assert(0 <= g < all && owns(m.groups[g].metrics, s));
        }
    }
}

/// What is written when the first `n` groups are flushed one after the other
/// is what a flush writes for them.
pub proof fn lemma_flushed_groups_text(m: CollectorModel, n: int, timestamp: u64)
    requires
        m.wf(),
        0 <= n <= m.groups.len(),
    ensures
        m.flushed_groups_text(n, timestamp) == m.groups_text(n, timestamp),
    decreases n,
{
    if n > 0 {
        lemma_flushed_groups_text(m, n - 1, timestamp);
        lemma_flushed_groups(m, n - 1);
        let before = m.flushed_groups(n - 1);
        let entries = m.groups[n - 1].metrics;
        assert forall|e: int| 0 <= e < entries.len() implies before.slots[(#[trigger] entries[e]).1 as int]
            == m.slots[entries[e].1 as int] by {
            let s = entries[e].1 as int;
            assert(0 <= s < m.slots.len());
            if exists|g: int| 0 <= g < n - 1 && owns(#[trigger] m.groups[g].metrics, s) {
                let g = choose|g: int| 0 <= g < n - 1 && owns(#[trigger] m.groups[g].metrics, s);
                let f = choose|f: int|
                    0 <= f < m.groups[g].metrics.len() && (#[trigger] m.groups[g].metrics[f]).1 == s;
                assert(m.groups[g].metrics[f].1 == m.groups[n - 1].metrics[e].1);
                assert(g == n - 1);
            }
        }
        lemma_listing_agrees(entries, before.slots, m.slots, m.config.emit_zeros);
        assert(before.group_listing(n - 1) == m.group_listing(n - 1));
        assert(before.group_text(n - 1, timestamp) == m.group_text(n - 1, timestamp));
    }
}

/// Units. After the unit of a name was set, it is the unit of that name; after
/// it was taken away, the name has none. The units of the other names stay,
/// and so do the metrics: a unit belongs to a name, whatever the label set and
/// the kind.
pub proof fn law_describe(m: CollectorModel, name: Seq<char>, unit: Option<Unit>, other: Seq<char>)
    requires
        m.wf(),
    ensures
        m.describe(name, unit).wf(),
        lookup(m.describe(name, unit).units, name) == unit,
        other != name ==> lookup(m.describe(name, unit).units, other) == lookup(m.units, other),
        m.describe(name, unit).groups == m.groups,
        m.describe(name, unit).slots == m.slots,
{
    crate::preserve::lemma_describe_wf(m, name, unit);
    match unit {
        Some(u) => {
            lemma_lookup_put_same(m.units, name, u);
            if other != name {
                lemma_lookup_put_other(m.units, name, u, other);
            }
        },
        None => {
            law_lookup_without_same(m.units, name);
            if other != name {
                law_lookup_without_other(m.units, name, other);
            }
        },
    }
}

/// Properties. A property that was set is held with the value that was set
/// last, until it is taken away; setting or taking away one property leaves
/// the others, and a flush leaves them all.
pub proof fn law_properties(m: CollectorModel, name: Seq<char>, value: ValueModel, other: Seq<char>)
    requires
        m.wf(),
    ensures
        lookup(m.set_property(name, value).properties, name) == Some(value),
        lookup(m.remove_property(name).properties, name) is None,
        other != name ==> lookup(m.set_property(name, value).properties, other) == lookup(
            m.properties,
            other,
        ),
        other != name ==> lookup(m.remove_property(name).properties, other) == lookup(
            m.properties,
            other,
        ),
        m.flushed().properties == m.properties,
{
    lemma_lookup_put_same(m.properties, name, value);
    law_lookup_without_same(m.properties, name);
    if other != name {
        lemma_lookup_put_other(m.properties, name, value, other);
        law_lookup_without_other(m.properties, name, other);
    }
}

} // verus!
