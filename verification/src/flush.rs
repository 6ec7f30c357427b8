//! Flushing: reading the metrics into documents, and resetting them.

use crate::collector::{Collector, MetricState};
use crate::emf::{
    metric_models, unit_to_str, EmbeddedMetric, EmbeddedMetrics, EmbeddedMetricsAws,
    EmbeddedNamespace, Unit,
};
use crate::json::{Atom, JsonText};
use crate::labels::Label;
use crate::model::{bindings, definition, definitions, firsts, listing, owns, MetricModel};
use crate::name_map::{names_sorted, NameMap};
use crate::order::text_less;
use crate::preserve::{lemma_flush_group_wf, lemma_flushed_wf};
use crate::value::{JsonScalar, JsonValue};
use vstd::prelude::*;

verus! {

/// Every listed name is the name of an entry, so one that comes after all the
/// entries comes after all that is listed; and what is listed of entries in
/// the order of their names is in the order of its names.
pub proof fn lemma_listing_names(
    entries: Seq<(Seq<char>, usize)>,
    slots: Seq<MetricModel>,
    emit_zeros: bool,
)
    requires
        names_sorted(entries),
    ensures
        names_sorted(listing(entries, slots, emit_zeros)),
        listing(entries, slots, emit_zeros).len() <= entries.len(),
        forall|j: int|
            0 <= j < listing(entries, slots, emit_zeros).len() ==> exists|e: int|
                0 <= e < entries.len() && (#[trigger] entries[e]).0 == (#[trigger] listing(
                    entries,
                    slots,
                    emit_zeros,
                )[j]).0,
    decreases entries.len(),
{
    if entries.len() > 0 {
        let front = entries.drop_last();
        let rest = listing(front, slots, emit_zeros);
        let all = listing(entries, slots, emit_zeros);
        assert(names_sorted(front)) by {
            assert forall|i: int, j: int| 0 <= i < j < front.len() implies text_less(
                (#[trigger] front[i]).0,
                (#[trigger] front[j]).0,
            ) by {
                assert(front[i] == entries[i] && front[j] == entries[j]);
            }
        }
        lemma_listing_names(front, slots, emit_zeros);
        assert forall|j: int| 0 <= j < all.len() implies exists|e: int|
            0 <= e < entries.len() && (#[trigger] entries[e]).0 == (#[trigger] all[j]).0 by {
            if j < rest.len() {
                assert(all[j] == rest[j]);
                let e = choose|e: int| 0 <= e < front.len() && (#[trigger] front[e]).0 == rest[j].0;
                assert(entries[e] == front[e]);
            } else {
                assert(entries[entries.len() - 1].0 == all[j].0);
            }
        }
        assert forall|i: int, j: int| 0 <= i < j < all.len() implies text_less(
            (#[trigger] all[i]).0,
            (#[trigger] all[j]).0,
        ) by {
            if j < rest.len() {
                assert(all[i] == rest[i] && all[j] == rest[j]);
            } else {
                assert(all[i] == rest[i]);
                let e = choose|e: int| 0 <= e < front.len() && (#[trigger] front[e]).0 == rest[i].0;
                assert(entries[e] == front[e]);
                assert(text_less(entries[e].0, entries[entries.len() - 1].0));
            }
        }
    }
}

/// An entry owns a slot among the first `e + 1` entries if it does among the
/// first `e`, or if the entry at `e` holds it.
pub proof fn lemma_owns_take(entries: Seq<(Seq<char>, usize)>, e: int, s: int)
    requires
        0 <= e < entries.len(),
    ensures
        owns(entries.take(e + 1), s) <==> owns(entries.take(e), s) || entries[e].1 == s,
{
    let more = entries.take(e + 1);
    let less = entries.take(e);
    if owns(less, s) {
        let f = choose|f: int| 0 <= f < less.len() && (#[trigger] less[f]).1 == s;
        assert(more[f] == less[f]);
    }
    if entries[e].1 == s {
        assert(more[e].1 == s);
    }
    if owns(more, s) {
        let f = choose|f: int| 0 <= f < more.len() && (#[trigger] more[f]).1 == s;
        if f < e {
            assert(less[f] == more[f]);
        }
    }
}

/// What a flush lists for a metric, if it lists it.
pub(crate) fn read_state(state: &MetricState, emit_zeros: bool) -> (r: Option<JsonValue>)
    ensures
        match r {
            Some(value) => state@.reading(emit_zeros) == Some(value@),
            None => state@.reading(emit_zeros) is None,
        },
{
    match state {
        MetricState::Counter(v) => {
            if *v != 0 || emit_zeros {
                Some(JsonValue::Scalar(JsonScalar::Unsigned(*v)))
            } else {
                None
            }
        },
        MetricState::Gauge(bits) => Some(JsonValue::Scalar(JsonScalar::Float(*bits))),
        MetricState::Histogram(samples) => {
            if samples.len() > 0 {
                Some(JsonValue::floats(samples))
            } else {
                None
            }
        },
    }
}

/// The state of a metric after a flush.
pub(crate) fn reset_state(state: &MetricState) -> (r: MetricState)
    ensures
        r@ == state@.reset(),
{
    match state {
        MetricState::Counter(_) => MetricState::Counter(0),
        MetricState::Gauge(bits) => MetricState::Gauge(*bits),
        MetricState::Histogram(_) => MetricState::Histogram(Vec::new()),
    }
}

/// A copy of a map of values.
pub fn duplicate_values(map: &NameMap<JsonValue>) -> (r: NameMap<JsonValue>)
    requires
        map.wf(),
    ensures
        r@ == map@,
        r.wf(),
{
    let mut copy: NameMap<JsonValue> = NameMap::new();
    let mut i: usize = 0;
    while i < map.len()
        invariant
            i <= map@.len(),
            map.wf(),
            copy.wf(),
            copy@ == map@.take(i as int),
        decreases map@.len() - i,
    {
        proof {
            if i > 0 {
                assert(copy@.last() == map@[i - 1]);
                assert(text_less(map@[i - 1].0, map@[i as int].0));
            }
        }
        copy.push_back(map.name_at(i), map.value_at(i).duplicate());
        proof {
            assert(copy@ =~= map@.take(i + 1));
        }
        i += 1;
    }
    proof {
        assert(map@.take(map@.len() as int) =~= map@);
    }
    copy
}

impl Collector {
    /// The names of the dimensions of a document: the configured ones, then
    /// the keys of the labels.
    fn dimension_names(&self, labels: &Vec<Label>) -> (r: Vec<String>)
        ensures
            r.deep_view() == firsts(self@.config.default_dimensions + labels.deep_view()),
    {
        let ghost dims = self@.config.default_dimensions;
        let ghost all = dims + labels.deep_view();
        let mut names: Vec<String> = Vec::new();
        let mut i: usize = 0;
        while i < self.config.default_dimensions.len()
            invariant
                i <= self.config.default_dimensions.len(),
                dims == self@.config.default_dimensions,
                names@.len() == i,
                forall|j: int| 0 <= j < i ==> (#[trigger] names@[j])@ == dims[j].0,
            decreases self.config.default_dimensions.len() - i,
        {
            names.push(self.config.default_dimensions[i].0.clone());
            i += 1;
        }
        let mut k: usize = 0;
        while k < labels.len()
            invariant
                k <= labels.len(),
                dims == self@.config.default_dimensions,
                names@.len() == dims.len() + k,
                forall|j: int| 0 <= j < dims.len() ==> (#[trigger] names@[j])@ == dims[j].0,
                forall|j: int| 0 <= j < k ==> (#[trigger] names@[dims.len() + j])@ == labels@[j]@.0,
            decreases labels.len() - k,
        {
            names.push(labels[k].key.clone());
            k += 1;
        }
        proof {
            assert(names.deep_view() =~= firsts(all)) by {
                assert(names.deep_view().len() == all.len());
                assert forall|j: int| 0 <= j < all.len() implies names.deep_view()[j] == firsts(
                    all,
                )[j] by {
                    if j >= dims.len() {
                        assert(names@[dims.len() + (j - dims.len())]@ == labels@[j - dims.len()]@.0);
                    }
                }
            }
        }
        names
    }

    /// The values of the dimensions of a document: those of the configured
    /// ones and those of the labels, by name.
    fn dimension_values(&self, labels: &Vec<Label>) -> (r: NameMap<String>)
        ensures
            r@ == bindings(self@.config.default_dimensions + labels.deep_view()),
            r.wf(),
    {
        let ghost dims = self@.config.default_dimensions;
        let ghost all = dims + labels.deep_view();
        let mut map: NameMap<String> = NameMap::new();
        let mut i: usize = 0;
        assert(all.take(0) =~= Seq::<(Seq<char>, Seq<char>)>::empty());
        while i < self.config.default_dimensions.len()
            invariant
                i <= self.config.default_dimensions.len(),
                dims == self@.config.default_dimensions,
                all == dims + labels.deep_view(),
                map.wf(),
                map@ == bindings(all.take(i as int)),
            decreases self.config.default_dimensions.len() - i,
        {
            let pair = &self.config.default_dimensions[i];
            map.insert(pair.0.as_str(), pair.1.clone());
            proof {
                assert(all.take(i + 1).drop_last() =~= all.take(i as int));
                assert(all.take(i + 1).last() == dims[i as int]);
            }
            i += 1;
        }
        let mut k: usize = 0;
        while k < labels.len()
            invariant
                k <= labels.len(),
                dims == self@.config.default_dimensions,
                all == dims + labels.deep_view(),
                map.wf(),
                map@ == bindings(all.take(dims.len() + k)),
            decreases labels.len() - k,
        {
            map.insert(labels[k].key.as_str(), labels[k].value.clone());
            proof {
                assert(all.take(dims.len() + k + 1).drop_last() =~= all.take(dims.len() + k));
                assert(all.take(dims.len() + k + 1).last() == labels@[k as int]@);
            }
            k += 1;
        }
        proof {
            assert(all.take(all.len() as int) =~= all);
        }
        map
    }

    /// The document with the given dimensions after the configured ones, and
    /// with the given metrics.
    fn build_document(
        &self,
        labels: &Vec<Label>,
        metrics: Vec<EmbeddedMetric>,
        values: NameMap<JsonValue>,
        timestamp: u64,
    ) -> (doc: EmbeddedMetrics)
        requires
            self.wf(),
        ensures
            doc@ == self@.document(labels.deep_view(), metric_models(metrics@), values@, timestamp),
    {
        let names = self.dimension_names(labels);
        let dimensions = self.dimension_values(labels);
        let properties = duplicate_values(&self.properties);
        EmbeddedMetrics {
            aws: EmbeddedMetricsAws {
                timestamp,
                cloudwatch_metrics: [
                    EmbeddedNamespace {
                        namespace: self.config.cloudwatch_namespace.clone(),
                        dimensions: [names],
                        metrics,
                    },
                ],
            },
            dimensions,
            properties,
            values,
        }
    }

    /// The definition of a metric, with its unit if it has one.
    fn define(&self, name: &str) -> (r: EmbeddedMetric)
        ensures
            r@ == definition(name@, self@.units),
    {
        let unit = match self.units.get(name) {
            Some(unit) => Some(unit_to_str(unit)),
            None => None,
        };
        EmbeddedMetric { name: String::from_str(name), unit }
    }

    /// What a flush lists of the group at `g`: the definitions and the values.
    fn read_group(&self, g: usize) -> (r: (Vec<EmbeddedMetric>, NameMap<JsonValue>))
        requires
            self.wf(),
            g < self@.groups.len(),
        ensures
            r.1@ == self@.group_listing(g as int),
            r.1.wf(),
            metric_models(r.0@) == definitions(self@.group_listing(g as int), self@.units),
    {
        let ghost entries = self@.groups[g as int].metrics;
        let ghost slots = self@.slots;
        let ghost emit = self@.config.emit_zeros;
        let mut metrics: Vec<EmbeddedMetric> = Vec::new();
        let mut values: NameMap<JsonValue> = NameMap::new();
        let mut e: usize = 0;
        assert(entries == self.groups@[g as int].metrics@);
        assert(entries.take(0) =~= Seq::<(Seq<char>, usize)>::empty());
        assert(metric_models(metrics@) =~= definitions(values@, self@.units));
        while e < self.groups[g].metrics.len()
            invariant
                self.wf(),
                g < self.groups@.len(),
                entries == self@.groups[g as int].metrics,
                entries == self.groups@[g as int].metrics@,
                slots == self@.slots,
                emit == self@.config.emit_zeros,
                e <= entries.len(),
                values.wf(),
                values@ == listing(entries.take(e as int), slots, emit),
                metrics@.len() == values@.len(),
                metric_models(metrics@) == definitions(values@, self@.units),
            decreases entries.len() - e,
        {
            let name = self.groups[g].metrics.name_at(e);
            let slot = *self.groups[g].metrics.value_at(e);
            proof {
                assert(entries[e as int].1 == slot);
                assert(entries.take(e + 1).drop_last() =~= entries.take(e as int));
                assert(entries.take(e + 1).last() == entries[e as int]);
            }
            assert(slot < self.slots@.len());
            match read_state(&self.slots[slot], self.config.emit_zeros) {
                Some(value) => {
                    proof {
                        let front = entries.take(e as int);
                        assert(names_sorted(front)) by {
                            assert forall|i: int, j: int| 0 <= i < j < front.len() implies text_less(
                                (#[trigger] front[i]).0,
                                (#[trigger] front[j]).0,
                            ) by {
                                assert(front[i] == entries[i] && front[j] == entries[j]);
                            }
                        }
                        lemma_listing_names(front, slots, emit);
                        if values@.len() > 0 {
                            let last = values@.len() - 1;
                            let f = choose|f: int|
                                0 <= f < front.len() && (#[trigger] front[f]).0 == values@[last].0;
                            assert(front[f] == entries[f]);
                            assert(text_less(entries[f].0, entries[e as int].0));
                        }
                    }
                    let ghost before = values@;
                    let ghost defs = metric_models(metrics@);
                    let ghost held = metrics@;
                    values.push_back(name, value);
                    metrics.push(self.define(name));
                    proof {
                        assert(metric_models(metrics@) =~= definitions(values@, self@.units)) by {
                            assert forall|j: int| 0 <= j < values@.len() implies metric_models(
                                metrics@,
                            )[j] == definitions(values@, self@.units)[j] by {
                                if j < before.len() {
                                    assert(metrics@[j] == held[j]);
                                    assert(defs[j] == held[j]@);
                                    assert(defs[j] == definitions(before, self@.units)[j]);
                                    assert(values@[j] == before[j]);
                                }
                            }
                        }
                    }
                },
                None => {},
            }
            e += 1;
        }
        proof {
            assert(entries.take(entries.len() as int) =~= entries);
        }
        (metrics, values)
    }

    /// Appends to `out` what a flush writes for the group at `g`.
    fn render_group(&self, g: usize, timestamp: u64, out: &mut JsonText)
        requires
            self.wf(),
            g < self@.groups.len(),
        ensures
            final(out)@ == old(out)@ + self@.group_text(g as int, timestamp),
    {
        let (metrics, values) = self.read_group(g);
        if values.len() > 0 {
            let doc = self.build_document(&self.groups[g].labels, metrics, values, timestamp);
            assert(doc@ == self@.group_document(g as int, timestamp));
            doc.render(out);
            out.push_str("\n");
            assert(out@ =~= old(out)@ + self@.group_text(g as int, timestamp));
        } else {
            assert(out@ =~= old(out)@ + self@.group_text(g as int, timestamp));
        }
    }

    /// Resets the metrics of the group at `g`.
    fn reset_group(&mut self, g: usize)
        requires
            old(self).wf(),
            g < old(self)@.groups.len(),
        ensures
            final(self).wf(),
            final(self)@ == old(self)@.flush_group(g as int),
    {
        let ghost m = self@;
        let ghost entries = m.groups[g as int].metrics;
        let mut e: usize = 0;
        assert(entries == self.groups@[g as int].metrics@);
        assert(self@.slots =~= Seq::new(
            m.slots.len(),
            |s: int|
                if owns(entries.take(0), s) {
                    m.slots[s].reset()
                } else {
                    m.slots[s]
                },
        ));
        while e < self.groups[g].metrics.len()
            invariant
                m.wf(),
                m == old(self)@,
                g < self.groups@.len(),
                entries == m.groups[g as int].metrics,
                entries == self.groups@[g as int].metrics@,
                e <= entries.len(),
                self.slots@.len() == m.slots.len(),
                self@.groups == m.groups,
                self@.config == m.config,
                self@.units == m.units,
                self@.properties == m.properties,
                self@.cold_start_pending == m.cold_start_pending,
                self@.cold_start_active == m.cold_start_active,
                self@.slots == Seq::new(
                    m.slots.len(),
                    |s: int|
                        if owns(entries.take(e as int), s) {
                            m.slots[s].reset()
                        } else {
                            m.slots[s]
                        },
                ),
            decreases entries.len() - e,
        {
            let slot = *self.groups[g].metrics.value_at(e);
            assert(entries[e as int].1 == slot);
            assert(slot < m.slots.len());
            let ghost before = self@.slots;
            let ghost old_slots = self.slots@;
            let fresh = reset_state(&self.slots[slot]);
            self.slots.set(slot, fresh);
            proof {
                let after = Seq::new(
                    m.slots.len(),
                    |s: int|
                        if owns(entries.take(e + 1), s) {
                            m.slots[s].reset()
                        } else {
                            m.slots[s]
                        },
                );
                assert(self@.slots =~= after) by {
                    assert forall|s: int| 0 <= s < m.slots.len() implies self@.slots[s]
                        == after[s] by {
                        lemma_owns_take(entries, e as int, s);
                        assert(before[s] == if owns(entries.take(e as int), s) {
                            m.slots[s].reset()
                        } else {
                            m.slots[s]
                        });
                        if s != slot {
                            assert(self.slots@[s] == old_slots[s]);
                            assert(self@.slots[s] == before[s]);
                        } else {
                            assert(self@.slots[s] == before[s].reset());
                            assert(m.slots[s].reset().reset() == m.slots[s].reset());
                        }
                    }
                }
                assert(self@.groups =~= m.groups);
            }
            e += 1;
        }
        proof {
            assert(entries.take(entries.len() as int) =~= entries);
            assert(self@.slots =~= m.flush_group(g as int).slots);
            lemma_flush_group_wf(m, g as int);
        }
    }

    /// Flushes the label set at `index`: gives its document, followed by a
    /// newline, and resets its metrics. Where none of its metrics is listed,
    /// or there is no such label set, nothing is written.
    pub fn flush_label_set(&mut self, index: usize, now: u64) -> (out: JsonText)
        requires
            old(self).wf(),
        ensures
            final(self).wf(),
            index < old(self)@.groups.len() ==> out@ == old(self)@.group_text(
                index as int,
                old(self)@.timestamp(now),
            ) && final(self)@ == old(self)@.flush_group(index as int),
            index >= old(self)@.groups.len() ==> out@ == Seq::<Atom>::empty() && final(self)@ == old(
                self,
            )@,
    {
        let mut out = JsonText::new();
        if index < self.groups.len() {
            let timestamp = self.timestamp(now);
            self.render_group(index, timestamp, &mut out);
            self.reset_group(index);
            assert(out@ =~= old(self)@.group_text(index as int, old(self)@.timestamp(now)));
        }
        out
    }

    /// Flushes every label set: gives the documents, one for each label set
    /// of which a metric is listed, each followed by a newline, in the order
    /// of the label sets; and resets every metric.
    pub fn flush(&mut self, now: u64) -> (out: JsonText)
        requires
            old(self).wf(),
        ensures
            final(self).wf(),
            out@ == old(self)@.flush_text(old(self)@.timestamp(now)),
            final(self)@ == old(self)@.flushed(),
    {
        let ghost m = self@;
        let timestamp = self.timestamp(now);
        let mut out = JsonText::new();
        let mut g: usize = 0;
        while g < self.groups.len()
            invariant
                self.wf(),
                self@ == m,
                g <= self.groups@.len(),
                out@ == m.groups_text(g as int, timestamp),
            decreases self.groups@.len() - g,
        {
            self.render_group(g, timestamp, &mut out);
            g += 1;
        }
        let mut s: usize = 0;
        while s < self.slots.len()
            invariant
                m.wf(),
                s <= self.slots@.len(),
                self.slots@.len() == m.slots.len(),
                self@.groups == m.groups,
                self@.config == m.config,
                self@.units == m.units,
                self@.properties == m.properties,
                self@.cold_start_pending == m.cold_start_pending,
                self@.cold_start_active == m.cold_start_active,
                forall|j: int| 0 <= j < s ==> (#[trigger] self@.slots[j]) == m.slots[j].reset(),
                forall|j: int| s <= j < m.slots.len() ==> (#[trigger] self@.slots[j]) == m.slots[j],
            decreases self.slots@.len() - s,
        {
            let ghost before = self@.slots;
            let ghost held = self.slots@;
            let fresh = reset_state(&self.slots[s]);
            self.slots.set(s, fresh);
            proof {
                assert(before[s as int] == m.slots[s as int]);
                assert forall|j: int| 0 <= j < s + 1 implies (#[trigger] self@.slots[j])
                    == m.slots[j].reset() by {
                    if j < s {
                        assert(self.slots@[j] == held[j]);
                        assert(self@.slots[j] == before[j]);
                    } else {
                        assert(self@.slots[j] == before[j].reset());
                    }
                }
                assert forall|j: int| s + 1 <= j < m.slots.len() implies (#[trigger] self@.slots[j])
                    == m.slots[j] by {
                    assert(self.slots@[j] == held[j]);
                    assert(self@.slots[j] == before[j]);
                }
                assert(self@.groups =~= m.groups);
            }
            s += 1;
        }
        proof {
            assert(self@.slots =~= m.flushed().slots);
            lemma_flushed_wf(m);
        }
        out
    }

    /// The document of a single metric, which is in no registry, followed by
    /// a newline: with the configured dimensions and the properties.
    pub fn write_single(&self, name: &str, unit: Option<Unit>, value: JsonValue, now: u64) -> (out:
        JsonText)
        requires
            self.wf(),
        ensures
            out@ == self@.single_document(name@, unit, value@, self@.timestamp(now)).atoms()
                + crate::json::text_atoms("\n"@),
    {
        let timestamp = self.timestamp(now);
        let text = match unit {
            Some(u) => Some(unit_to_str(&u)),
            None => None,
        };
        let mut metrics: Vec<EmbeddedMetric> = Vec::new();
        metrics.push(EmbeddedMetric { name: String::from_str(name), unit: text });
        let mut values: NameMap<JsonValue> = NameMap::new();
        values.push_back(name, value);
        let labels: Vec<Label> = Vec::new();
        proof {
            assert(labels.deep_view() =~= Seq::<(Seq<char>, Seq<char>)>::empty());
            assert(values@ =~= seq![(name@, value@)]);
            assert(metric_models(metrics@) =~= self@.single_document(
                name@,
                unit,
                value@,
                timestamp,
            ).aws.cloudwatch_metrics.metrics);
        }
        let doc = self.build_document(&labels, metrics, values, timestamp);
        let mut out = JsonText::new();
        doc.render(&mut out);
        out.push_str("\n");
        proof {
            assert(doc@ == self@.single_document(name@, unit, value@, timestamp));
            assert(out@ =~= doc@.atoms() + crate::json::text_atoms("\n"@));
        }
        out
    }
}

} // verus!
