//! Registration: finding the metric of a name and a label set, or making it.

use crate::collector::{Collector, CounterHandle, GaugeHandle, Group, HistogramHandle, MetricState};
use crate::labels::{canonical_labels, compare_label_sets, duplicate_labels, Label};
use crate::model::{group_rank, MetricKind, RegisterError, MAX_DIMENSIONS};
use crate::name_map::{put, NameMap};
use crate::order::Sign;
use crate::preserve::{
    lemma_group_rank_at, lemma_label_set_asymmetric, lemma_label_set_connected,
    lemma_label_set_irreflexive, lemma_register_wf,
};
use vstd::prelude::*;

verus! {

impl Collector {
    /// Where the group with the key `key` stands or would stand, and whether
    /// it is there.
    fn find_group(&self, key: &Vec<Label>) -> (r: (usize, bool))
        ensures
            r.0 == group_rank(self@.groups, key.deep_view()),
            r.0 <= self@.groups.len(),
            r.1 == (r.0 < self@.groups.len() && self@.groups[r.0 as int].key == key.deep_view()),
    {
        let mut i: usize = 0;
        while i < self.groups.len()
            invariant
                i <= self.groups.len(),
                forall|j: int|
                    0 <= j < i ==> crate::labels::label_set_less(
                        (#[trigger] self@.groups[j]).key,
                        key.deep_view(),
                    ),
            decreases self.groups.len() - i,
        {
            let sign = compare_label_sets(&self.groups[i].key, key);
            assert(self@.groups[i as int].key == self.groups@[i as int].key.deep_view());
            match sign {
                Sign::Less => {},
                Sign::Equal => {
                    proof {
                        lemma_label_set_irreflexive(key.deep_view());
                        lemma_group_rank_at(self@.groups, key.deep_view(), i as int);
                    }
                    return (i, true);
                },
                Sign::Greater => {
                    proof {
                        lemma_label_set_connected(self@.groups[i as int].key, key.deep_view());
                        if crate::labels::label_set_less(self@.groups[i as int].key, key.deep_view()) {
                            lemma_label_set_asymmetric(self@.groups[i as int].key, key.deep_view());
                        }
                        lemma_group_rank_at(self@.groups, key.deep_view(), i as int);
                    }
                    return (i, false);
                },
            }
            i += 1;
        }
        proof {
            lemma_group_rank_at(self@.groups, key.deep_view(), i as int);
        }
        (i, false)
    }

    /// Registers the metric `name` under `labels` as one of `kind`, and gives
    /// its slot. Where it is registered with this kind, nothing changes and
    /// the slot is the one it has; where it is not registered, it gets a new
    /// slot. Where it is registered with another kind, or the labels are too
    /// many, nothing changes and there is no slot.
    pub fn register(&mut self, name: &str, labels: &Vec<Label>, kind: MetricKind) -> (r: (
        Option<usize>,
        Option<RegisterError>,
    ))
        requires
            old(self).wf(),
        ensures
            final(self).wf(),
            final(self)@ == old(self)@.register(name@, labels.deep_view(), kind),
            r.0 == old(self)@.register_slot(name@, labels.deep_view(), kind),
            r.1 == old(self)@.register_error(name@, labels.deep_view(), kind),
    {
        if labels.len() > MAX_DIMENSIONS || self.config.default_dimensions.len() > MAX_DIMENSIONS
            - labels.len() {
            return (None, Some(RegisterError::TooManyDimensions));
        }
        let key = canonical_labels(labels);
        let (g, found) = self.find_group(&key);
        if found {
            let held = match self.groups[g].metrics.get(name) {
                Some(slot) => Some(*slot),
                None => None,
            };
            match held {
                Some(slot) => {
                    assert(self@.groups[g as int].metrics == self.groups@[g as int].metrics@);
                    assert(self@.find_slot(name@, labels.deep_view()) == Some(slot));
                    assert(slot < self.slots@.len()) by {
                        crate::name_map::lemma_rank_bounds(self@.groups[g as int].metrics, name@);
                        let e = crate::name_map::rank(self@.groups[g as int].metrics, name@) as int;
                        assert(self@.groups[g as int].metrics[e].1 == slot);
                    }
                    let existing = self.slots[slot].kind();
                    if existing == kind {
                        (Some(slot), None)
                    } else {
                        (None, Some(RegisterError::KindMismatch { existing }))
                    }
                },
                None => {
                    let slot = self.slots.len();
                    self.slots.push(MetricState::initial(kind));
                    self.groups[g].metrics.insert(name, slot);
                    proof {
                        let m = old(self)@;
                        assert(m.slots.len() < usize::MAX) by {
                            assert(self.slots@.len() == self.slots.len());
                        }
                        assert(m.groups[g as int].metrics == old(self).groups@[g as int].metrics@);
                        assert(m.find_slot(name@, labels.deep_view()) is None);
                        let n = m.register(name@, labels.deep_view(), kind);
                        assert(self@.slots =~= n.slots);
                        assert(self@.groups =~= n.groups) by {
                            assert(self@.groups.len() == n.groups.len());
                            assert forall|h: int| 0 <= h < n.groups.len() implies self@.groups[h]
                                == n.groups[h] by {
                                if h != g {
                                    assert(self.groups@[h] == old(self).groups@[h]);
                                }
                            }
                        }
                        lemma_register_wf(m, name@, labels.deep_view(), kind);
                    }
                    (Some(slot), None)
                },
            }
        } else {
            let slot = self.slots.len();
            self.slots.push(MetricState::initial(kind));
            let mut metrics: NameMap<usize> = NameMap::new();
            metrics.insert(name, slot);
            let group = Group { key, labels: duplicate_labels(labels), metrics };
            self.groups.insert(g, group);
            proof {
                let m = old(self)@;
                assert(m.slots.len() < usize::MAX) by {
                    assert(self.slots@.len() == self.slots.len());
                }
                assert(m.find_slot(name@, labels.deep_view()) is None);
                let n = m.register(name@, labels.deep_view(), kind);
                assert(put(Seq::<(Seq<char>, usize)>::empty(), name@, slot) =~= seq![(name@, slot)]);
                assert(self@.slots =~= n.slots);
                assert(self@.groups =~= n.groups) by {
                    assert(self@.groups.len() == n.groups.len());
                    assert forall|h: int| 0 <= h < n.groups.len() implies self@.groups[h]
                        == n.groups[h] by {
                        if h < g {
                            assert(self.groups@[h] == old(self).groups@[h]);
                        } else if h > g {
                            assert(self.groups@[h] == old(self).groups@[h - 1]);
                        }
                    }
                }
                lemma_register_wf(m, name@, labels.deep_view(), kind);
            }
            (Some(slot), None)
        }
    }

    /// Registers a counter and gives its handle. Where the registration
    /// fails, the handle does nothing and the reason comes with it.
    pub fn register_counter(&mut self, name: &str, labels: &Vec<Label>) -> (r: (
        CounterHandle,
        Option<RegisterError>,
    ))
        requires
            old(self).wf(),
        ensures
            final(self).wf(),
            final(self)@ == old(self)@.register(name@, labels.deep_view(), MetricKind::Counter),
            r.0@ == old(self)@.register_slot(name@, labels.deep_view(), MetricKind::Counter),
            r.1 == old(self)@.register_error(name@, labels.deep_view(), MetricKind::Counter),
    {
        let (slot, error) = self.register(name, labels, MetricKind::Counter);
        (CounterHandle { slot }, error)
    }

    /// Registers a gauge and gives its handle. Where the registration fails,
    /// the handle does nothing and the reason comes with it.
    pub fn register_gauge(&mut self, name: &str, labels: &Vec<Label>) -> (r: (
        GaugeHandle,
        Option<RegisterError>,
    ))
        requires
            old(self).wf(),
        ensures
            final(self).wf(),
            final(self)@ == old(self)@.register(name@, labels.deep_view(), MetricKind::Gauge),
            r.0@ == old(self)@.register_slot(name@, labels.deep_view(), MetricKind::Gauge),
            r.1 == old(self)@.register_error(name@, labels.deep_view(), MetricKind::Gauge),
    {
        let (slot, error) = self.register(name, labels, MetricKind::Gauge);
        (GaugeHandle { slot }, error)
    }

    /// Registers a histogram and gives its handle. Where the registration
    /// fails, the handle does nothing and the reason comes with it.
    pub fn register_histogram(&mut self, name: &str, labels: &Vec<Label>) -> (r: (
        HistogramHandle,
        Option<RegisterError>,
    ))
        requires
            old(self).wf(),
        ensures
            final(self).wf(),
            final(self)@ == old(self)@.register(name@, labels.deep_view(), MetricKind::Histogram),
            r.0@ == old(self)@.register_slot(name@, labels.deep_view(), MetricKind::Histogram),
            r.1 == old(self)@.register_error(name@, labels.deep_view(), MetricKind::Histogram),
    {
        let (slot, error) = self.register(name, labels, MetricKind::Histogram);
        (HistogramHandle { slot }, error)
    }
}

} // verus!
