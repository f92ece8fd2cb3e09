//! Collection of metrics, instance by instance.

use dashmap::DashMap;

use vstd::prelude::*;

use crate::batching::batch;
use crate::controller::metrics_buffer::{
    MetricFlushSnapshot, MetricInstanceBuffer, MetricsLoggerError, NormalizedMetricRow, SourceKind,
};
use crate::controller::metrics_csv::csv_file_name;
use crate::controller::metrics_identity::{
    agent_identity_from_parts, prometheus_identity_from_metric,
};
use crate::sorted_map::SortedMap;
use crate::sorting::sort_texts;
use crate::string_map::StringMap;
use crate::surroundings::join_path;
use crate::text::{join, same};

verus! {

/// The concurrent map of the `dashmap` crate.
#[verifier::external_type_specification]
#[verifier::external_body]
#[verifier::reject_recursive_types(K)]
#[verifier::reject_recursive_types(V)]
#[verifier::reject_recursive_types(S)]
pub struct ExDashMap<K, V, S>(DashMap<K, V, S>);

/// What a concurrent map from names to numbers holds.
pub uninterp spec fn numbers(m: DashMap<String, u64>) -> Map<Seq<char>, u64>;

/// No numbers.
pub open spec fn unnumbered() -> Map<Seq<char>, u64> {
    Map::empty()
}

/// Calls [`DashMap::new`]: the map is empty.
#[verifier::external_body]
fn no_numbers() -> (r: DashMap<String, u64>)
    ensures
        numbers(r) == unnumbered(),
{
    DashMap::new()
}

/// Calls [`DashMap::get`]: the number of a name, where it has one.
#[verifier::external_body]
fn number_of(m: &DashMap<String, u64>, name: &str) -> (r: Option<u64>)
    ensures
        match r {
            Some(n) => numbers(*m).dom().contains(name@) && n == numbers(*m)[name@],
            None => !numbers(*m).dom().contains(name@),
        },
{
    m.get(name).map(|entry| *entry)
}

/// Calls [`DashMap::insert`]: the name has the number, and the others keep theirs.
#[verifier::external_body]
fn set_number(m: &mut DashMap<String, u64>, name: String, number: u64)
    ensures
        numbers(*final(m)) == numbers(*old(m)).insert(name@, number),
{
    m.insert(name, number);
}

/// Calls [`DashMap::remove`]: the name has no number, and the others keep theirs.
#[verifier::external_body]
fn drop_number(m: &mut DashMap<String, u64>, name: &str)
    ensures
        numbers(*final(m)) == numbers(*old(m)).remove(name@),
{
    m.remove(name);
}

/// Calls [`DashMap::iter`]: every name once, with its number; in which order is left open.
#[verifier::external_body]
fn all_numbers(m: &DashMap<String, u64>) -> (r: Vec<(String, u64)>)
    ensures
        crate::string_map::distinct_keys(r@),
        crate::string_map::entries_map(r@) == numbers(*m),
{
    m.iter().map(|entry| (entry.key().clone(), *entry.value())).collect()
}

/// The revisions of instances after a change of one of them.
pub open spec fn marked(revisions: Map<Seq<char>, u64>, identity: Seq<char>) -> Map<Seq<char>, u64> {
    revisions.insert(
        identity,
        if revisions.dom().contains(identity) {
            if revisions[identity] == u64::MAX {
                u64::MAX
            } else {
                (revisions[identity] + 1) as u64
            }
        } else {
            1
        },
    )
}

/// Notes that an instance has changed.
fn mark_identity_dirty(dirty: &mut DashMap<String, u64>, identity: &str)
    ensures
        numbers(*final(dirty)) == marked(numbers(*old(dirty)), identity@),
{
    let revision: u64 = match number_of(dirty, identity) {
        Some(n) => n.saturating_add(1),
        None => 1,
    };
    set_number(dirty, identity.to_owned(), revision);
}

/// The buffer of an instance, or an empty one.
pub open spec fn buffer_of<V>(
    buffers: Map<Seq<char>, crate::controller::metrics_buffer::BufferView<V>>,
    identity: Seq<char>,
) -> crate::controller::metrics_buffer::BufferView<V> {
    if buffers.dom().contains(identity) {
        buffers[identity]
    } else {
        crate::controller::metrics_buffer::empty_buffer()
    }
}

/// What a row of an instance says.
#[verifier::ext_equal]
#[verifier::reject_recursive_types(V)]
pub struct InstanceRow<V> {
    pub identity: Seq<char>,
    pub row: crate::controller::metrics_buffer::RowView<V>,
}

impl<V> View for NormalizedMetricRow<V> {
    type V = InstanceRow<V>;

    open spec fn view(&self) -> InstanceRow<V> {
        InstanceRow {
            identity: self.identity@,
            row: crate::controller::metrics_buffer::RowView {
                timestamp: self.timestamp_ms as int,
                source: self.source_kind,
                values: self.values@,
            },
        }
    }
}

/// What rows of instances say.
pub open spec fn instance_rows<V>(v: Seq<NormalizedMetricRow<V>>) -> Seq<InstanceRow<V>> {
    Seq::new(v.len(), |i: int| v[i]@)
}

/// The buffers after rows, one after another.
pub open spec fn stored<V>(
    buffers: Map<Seq<char>, crate::controller::metrics_buffer::BufferView<V>>,
    rows: Seq<InstanceRow<V>>,
) -> Map<Seq<char>, crate::controller::metrics_buffer::BufferView<V>>
    decreases rows.len(),
{
    if rows.len() == 0 {
        buffers
    } else {
        let before = stored(buffers, rows.drop_last());
        before.insert(
            rows.last().identity,
            crate::controller::metrics_buffer::appended(
                buffer_of(before, rows.last().identity),
                rows.last().row,
            ),
        )
    }
}

/// The revisions after rows, one after another.
pub open spec fn all_marked<V>(revisions: Map<Seq<char>, u64>, rows: Seq<InstanceRow<V>>) -> Map<
    Seq<char>,
    u64,
>
    decreases rows.len(),
{
    if rows.len() == 0 {
        revisions
    } else {
        marked(all_marked(revisions, rows.drop_last()), rows.last().identity)
    }
}

/// A file that is to be written.
#[derive(Debug)]
pub struct CsvWriteJob<V> {
    pub identity: String,
    pub revision: u64,
    pub path: String,
    pub snapshot: MetricFlushSnapshot<V>,
}

/// Samples of instances, the instances that have changed, and the metrics that are known.
pub struct MetricsLogger<V> {
    folder_path: String,
    slots: DashMap<String, u64>,
    buffers: Vec<MetricInstanceBuffer<V>>,
    dirty_instances: DashMap<String, u64>,
    all_metrics: SortedMap<()>,
    prometheus_metrics: Vec<String>,
    running: bool,
    accepting_agent_snapshots: bool,
}

impl<V: Copy> MetricsLogger<V> {
    /// Whether every instance has a buffer of its own that keeps to its limits.
    pub closed spec fn wf(self) -> bool {
        let slots = numbers(self.slots);
        &&& forall|k: Seq<char>| #[trigger]
            slots.dom().contains(k) ==> slots[k] < self.buffers@.len()
        &&& forall|a: Seq<char>, b: Seq<char>|
            slots.dom().contains(a) && slots.dom().contains(b) && #[trigger] slots[a]
                == #[trigger] slots[b] ==> a == b
        &&& forall|i: int|
            0 <= i < self.buffers@.len() ==> crate::controller::metrics_buffer::is_sound(
                (#[trigger] self.buffers@[i])@,
            )
    }

    /// The samples of the instances.
    pub closed spec fn contents(self) -> Map<
        Seq<char>,
        crate::controller::metrics_buffer::BufferView<V>,
    > {
        Map::new(
            |k: Seq<char>| numbers(self.slots).dom().contains(k),
            |k: Seq<char>| self.buffers@[numbers(self.slots)[k] as int]@,
        )
    }

    /// The instances that have changed since they were written, with a number that grows with
    /// every change.
    pub closed spec fn revisions(self) -> Map<Seq<char>, u64> {
        numbers(self.dirty_instances)
    }

    /// The names of the metrics that are known.
    pub closed spec fn known_metrics(self) -> Set<Seq<char>> {
        self.all_metrics@.dom()
    }

    /// The metrics that are asked for.
    pub closed spec fn asked_metrics(self) -> Seq<Seq<char>> {
        crate::text::texts(self.prometheus_metrics@)
    }

    /// Where files are written.
    pub closed spec fn folder(self) -> Seq<char> {
        self.folder_path@
    }

    /// Whether metrics are being collected.
    pub closed spec fn is_running(self) -> bool {
        self.running
    }

    /// Whether samples of agents are taken.
    pub closed spec fn is_accepting(self) -> bool {
        self.accepting_agent_snapshots
    }
}

impl<V: Copy> MetricsLogger<V> {
    /// Nothing was collected yet.
    pub fn new(folder_path: String, metrics: Vec<String>) -> (r: Self)
        ensures
            r.wf(),
            r.contents().dom() == Set::<Seq<char>>::empty(),
            r.revisions() == unnumbered(),
            r.asked_metrics() == crate::text::texts(metrics@),
            r.known_metrics() == crate::text::texts(metrics@).to_set(),
            r.folder() == folder_path@,
            !r.is_running(),
            !r.is_accepting(),
    {
        let mut all_metrics: SortedMap<()> = SortedMap::new();
        learn(&mut all_metrics, &metrics);
        assert(all_metrics@.dom() =~= crate::text::texts(metrics@).to_set());
        let r = MetricsLogger {
            folder_path,
            slots: no_numbers(),
            buffers: Vec::new(),
            dirty_instances: no_numbers(),
            all_metrics,
            prometheus_metrics: metrics,
            running: false,
            accepting_agent_snapshots: false,
        };
        assert(r.contents().dom() =~= Set::<Seq<char>>::empty());
        r
    }

    /// The slot of an instance. One that is not known yet gets an empty buffer.
    fn get_or_create_buffer(&mut self, identity: &str) -> (r: usize)
        requires
            old(self).wf(),
        ensures
            final(self).wf(),
            r < final(self).buffers@.len(),
            numbers(final(self).slots).dom().contains(identity@),
            numbers(final(self).slots)[identity@] == r,
            final(self).contents() == old(self).contents().insert(
                identity@,
                buffer_of(old(self).contents(), identity@),
            ),
            final(self).keeps_the_rest(*old(self)),
            final(self).dirty_instances == old(self).dirty_instances,
    {
        let ghost before = *self;
        if let Some(slot) = number_of(&self.slots, identity) {
            assert(self.buffers.len() == self.buffers@.len());
            assert(numbers(self.slots).dom().contains(identity@));
            assert(before.contents().insert(identity@, before.contents()[identity@])
                =~= before.contents());
            return slot as usize;
        }
        let slot: usize = self.buffers.len();
        self.buffers.push(MetricInstanceBuffer::new());
        set_number(&mut self.slots, identity.to_owned(), slot as u64);
        proof {
            let slots = numbers(before.slots);
            assert forall|k: Seq<char>| #[trigger]
                numbers(self.slots).dom().contains(k) implies numbers(self.slots)[k]
                < self.buffers@.len() by {
                if k != identity@ {
                    assert(slots.dom().contains(k));
                }
            }
            assert forall|a: Seq<char>, b: Seq<char>|
                numbers(self.slots).dom().contains(a) && numbers(self.slots).dom().contains(b)
                    && #[trigger] numbers(self.slots)[a] == #[trigger] numbers(
                    self.slots,
                )[b] implies a == b by {
                if a != identity@ {
                    assert(slots.dom().contains(a));
                    assert(slots[a] < before.buffers@.len());
                }
                if b != identity@ {
                    assert(slots.dom().contains(b));
                    assert(slots[b] < before.buffers@.len());
                }
            }
        }
        assert(self.contents() =~= before.contents().insert(
            identity@,
            buffer_of(before.contents(), identity@),
        ));
        slot
    }

    /// Whether all but the samples and the revisions are the same.
    pub closed spec fn keeps_the_rest(self, other: Self) -> bool {
        &&& self.folder_path == other.folder_path
        &&& self.all_metrics == other.all_metrics
        &&& self.prometheus_metrics == other.prometheus_metrics
        &&& self.running == other.running
        &&& self.accepting_agent_snapshots == other.accepting_agent_snapshots
    }

    /// What is the same reads the same.
    pub proof fn the_rest_reads_the_same(self, other: Self)
        requires
            self.keeps_the_rest(other),
        ensures
            self.folder() == other.folder(),
            self.known_metrics() == other.known_metrics(),
            self.asked_metrics() == other.asked_metrics(),
            self.is_running() == other.is_running(),
            self.is_accepting() == other.is_accepting(),
    {
    }

    fn append_row(&mut self, row: NormalizedMetricRow<V>)
        requires
            old(self).wf(),
        ensures
            final(self).wf(),
            final(self).contents() == old(self).contents().insert(
                row@.identity,
                crate::controller::metrics_buffer::appended(
                    buffer_of(old(self).contents(), row@.identity),
                    row@.row,
                ),
            ),
            final(self).revisions() == marked(old(self).revisions(), row@.identity),
            final(self).keeps_the_rest(*old(self)),
    {
        let ghost before = *self;
        let ghost added = row@;
        let identity = row.identity.clone();
        let slot: usize = self.get_or_create_buffer(identity.as_str());
        let ghost found = *self;
        let mut buffer = self.buffers.remove(slot);
        assert(buffer == found.buffers@[slot as int]);
        assert(buffer@ == found.contents()[identity@]);
        buffer.append(row);
        self.buffers.insert(slot, buffer);
        assert(self.buffers@ =~= found.buffers@.update(slot as int, buffer));
        mark_identity_dirty(&mut self.dirty_instances, identity.as_str());
        proof {
            let slots = numbers(self.slots);
            assert forall|k: Seq<char>| #[trigger] slots.dom().contains(k) && k
                != identity@ implies self.buffers@[slots[k] as int]@ == before.contents()[k] by {
                assert(slots[k] != slots[identity@]);
                assert(found.contents()[k] == before.contents()[k]);
            }
        }
        assert(self.contents().dom() =~= found.contents().dom());
        assert forall|k: Seq<char>| #[trigger] self.contents().dom().contains(k) implies
            self.contents()[k] == before.contents().insert(added.identity, buffer@)[k] by {
            assert(numbers(self.slots).dom().contains(k));
            if k != identity@ {
                assert(found.contents()[k] == before.contents()[k]);
            }
        }
        assert(self.contents() =~= before.contents().insert(added.identity, buffer@));
    }

    /// Adds rows, each to the buffer of its instance.
    pub fn append_normalized_rows(&mut self, rows: Vec<NormalizedMetricRow<V>>)
        requires
            old(self).wf(),
        ensures
            final(self).wf(),
            final(self).contents() == stored(old(self).contents(), instance_rows(rows@)),
            final(self).revisions() == all_marked(old(self).revisions(), instance_rows(rows@)),
            final(self).keeps_the_rest(*old(self)),
    {
        let ghost before = *self;
        let ghost all = instance_rows(rows@);
        let ghost given = rows@;
        let mut rows = rows;
        let ghost mut n: int = 0;
        assert(given.skip(0) =~= given);
        assert(all.take(0) =~= Seq::<InstanceRow<V>>::empty());
        while rows.len() > 0
            invariant
                0 <= n <= given.len(),
                all == instance_rows(given),
                rows@ == given.skip(n),
                self.wf(),
                self.contents() == stored(before.contents(), all.take(n)),
                self.revisions() == all_marked(before.revisions(), all.take(n)),
                self.keeps_the_rest(before),
            decreases rows.len(),
        {
            let row = rows.remove(0);
            assert(rows@ =~= given.skip(n + 1));
            assert(all.take(n + 1).drop_last() =~= all.take(n));
            assert(all.take(n + 1).last() == row@);
            self.append_row(row);
            proof {
                n = n + 1;
            }
        }
        assert(all.take(n) =~= all);
    }

    /// The instances, in ascending order.
    pub fn list_instances(&self) -> (r: Vec<String>)
        ensures
            crate::sorted_map::are_sorted_keys(
                crate::text::texts(r@),
                self.contents().dom(),
            ),
    {
        let entries = all_numbers(&self.slots);
        let mut seen: SortedMap<()> = SortedMap::new();
        let mut i: usize = 0;
        assert(entries@.take(0) =~= Seq::<(String, u64)>::empty());
        assert(seen@.dom() =~= crate::string_map::entries_map(entries@.take(0)).dom());
        while i < entries.len()
            invariant
                i <= entries.len(),
                seen@.dom() == crate::string_map::entries_map(entries@.take(i as int)).dom(),
            decreases entries.len() - i,
        {
            assert(entries@.take(i + 1).drop_last() =~= entries@.take(i as int));
            seen.insert(entries[i].0.clone(), ());
            assert(seen@.dom() =~= crate::string_map::entries_map(entries@.take(i + 1)).dom());
            i += 1;
        }
        assert(entries@.take(i as int) =~= entries@);
        assert(self.contents().dom() =~= seen@.dom());
        seen.keys()
    }

    fn buffer(&self, instance: &str) -> (r: Option<&MetricInstanceBuffer<V>>)
        requires
            self.wf(),
        ensures
            match r {
                Some(b) => self.contents().dom().contains(instance@) && b@
                    == self.contents()[instance@],
                None => !self.contents().dom().contains(instance@),
            },
    {
        match number_of(&self.slots, instance) {
            Some(slot) => {
                assert(self.buffers.len() == self.buffers@.len());
                assert(numbers(self.slots).dom().contains(instance@));
                Some(&self.buffers[slot as usize])
            },
            None => None,
        }
    }

    /// The metrics of an instance, in ascending order.
    pub fn list_metrics_for_instance(&self, instance: &str) -> (r: Result<
        Vec<String>,
        MetricsLoggerError,
    >)
        requires
            self.wf(),
        ensures
            if self.contents().dom().contains(instance@) {
                r matches Ok(names) && crate::sorted_map::are_sorted_keys(
                    crate::text::texts(names@),
                    self.contents()[instance@].names,
                )
            } else {
                r matches Err(MetricsLoggerError::MissingData)
            },
    {
        match self.buffer(instance) {
            Some(b) => Ok(b.metric_names()),
            None => Err(MetricsLoggerError::MissingData),
        }
    }

    /// The last values of a metric of an instance, with their times.
    pub fn get_last_n(&self, instance: &str, metric: &str, n: usize, missing: V) -> (r: Result<
        Vec<(i64, V)>,
        MetricsLoggerError,
    >)
        requires
            self.wf(),
        ensures
            if self.contents().dom().contains(instance@)
                && self.contents()[instance@].names.contains(metric@) {
                r matches Ok(v) && crate::controller::metrics_buffer::is_series(
                    v@,
                    last_values(self.contents()[instance@], metric@, n as int, missing),
                )
            } else {
                r matches Err(MetricsLoggerError::MissingData)
            },
    {
        match self.buffer(instance) {
            Some(b) => b.last_n(metric, n, missing),
            None => Err(MetricsLoggerError::MissingData),
        }
    }

    /// The values of a metric of an instance within a duration before its latest row.
    pub fn get_window_ms(&self, instance: &str, metric: &str, window_ms: i64, missing: V) -> (r:
        Result<Vec<(i64, V)>, MetricsLoggerError>)
        requires
            self.wf(),
        ensures
            if self.contents().dom().contains(instance@)
                && self.contents()[instance@].names.contains(metric@)
                && self.contents()[instance@].rows.len() > 0 {
                r matches Ok(v) && crate::controller::metrics_buffer::is_series(
                    v@,
                    windowed_values(
                        self.contents()[instance@],
                        metric@,
                        window_ms as int,
                        missing,
                    ),
                )
            } else {
                r matches Err(MetricsLoggerError::MissingData)
            },
    {
        match self.buffer(instance) {
            Some(b) => b.window_ms(metric, window_ms, missing),
            None => Err(MetricsLoggerError::MissingData),
        }
    }

    /// The last values of a metric, instance by instance: of the given one, else of all. An
    /// instance that does not have the metric is left out.
    pub fn query_metric_series(
        &self,
        metric: &str,
        instance: Option<&str>,
        n: usize,
        missing: V,
    ) -> (r: Vec<(String, Vec<(i64, V)>)>)
        requires
            self.wf(),
        ensures
            exists|asked: Seq<Seq<char>>|
                (match instance {
                    Some(i) => asked == seq![i@],
                    None => crate::sorted_map::are_sorted_keys(asked, self.contents().dom()),
                }) && #[trigger] are_series_of(
                    r@,
                    self.contents(),
                    asked,
                    metric@,
                    n as int,
                    missing,
                ),
    {
        let asked = match instance {
            Some(i) => {
                let v: Vec<String> = vec![i.to_owned()];
                assert(crate::text::texts(v@) =~= seq![i@]);
                v
            },
            None => self.list_instances(),
        };
        let ghost all = crate::text::texts(asked@);
        let mut out: Vec<(String, Vec<(i64, V)>)> = Vec::new();
        let mut i: usize = 0;
        assert(all.take(0) =~= Seq::<Seq<char>>::empty());
        while i < asked.len()
            invariant
                i <= asked.len(),
                all == crate::text::texts(asked@),
                self.wf(),
                are_series_of(
                    out@,
                    self.contents(),
                    all.take(i as int),
                    metric@,
                    n as int,
                    missing,
                ),
            decreases asked.len() - i,
        {
            assert(all.take(i + 1).drop_last() =~= all.take(i as int));
            assert(all.take(i + 1).last() == asked@[i as int]@);
            let ghost before = out@;
            if let Ok(values) = self.get_last_n(asked[i].as_str(), metric, n, missing) {
                out.push((asked[i].clone(), values));
                assert(out@.drop_last() =~= before);
            }
            i += 1;
        }
        assert(all.take(i as int) =~= all);
        out
    }
}

/// The last values of a metric in a buffer.
pub open spec fn last_values<V>(
    b: crate::controller::metrics_buffer::BufferView<V>,
    metric: Seq<char>,
    n: int,
    missing: V,
) -> Seq<(int, V)> {
    crate::controller::metrics_buffer::series(
        crate::controller::metrics_buffer::newest(b.rows, n),
        metric,
        missing,
    )
}

/// The values of a metric in a buffer within a duration before the latest row.
pub open spec fn windowed_values<V>(
    b: crate::controller::metrics_buffer::BufferView<V>,
    metric: Seq<char>,
    window: int,
    missing: V,
) -> Seq<(int, V)> {
    crate::controller::metrics_buffer::series(
        crate::controller::metrics_buffer::not_before(
            b.rows,
            crate::controller::metrics_buffer::earlier(
                crate::controller::metrics_buffer::latest_of(b.rows),
                window,
            ),
        ),
        metric,
        missing,
    )
}

/// Whether a list holds the last values of a metric for those of the instances that have it, in
/// their order.
pub open spec fn are_series_of<V>(
    out: Seq<(String, Vec<(i64, V)>)>,
    buffers: Map<Seq<char>, crate::controller::metrics_buffer::BufferView<V>>,
    asked: Seq<Seq<char>>,
    metric: Seq<char>,
    n: int,
    missing: V,
) -> bool
    decreases asked.len(),
{
    if asked.len() == 0 {
        out.len() == 0
    } else {
        let last = asked.last();
        if buffers.dom().contains(last) && buffers[last].names.contains(metric) {
            &&& out.len() > 0
            &&& out.last().0@ == last
            &&& crate::controller::metrics_buffer::is_series(
                out.last().1@,
                last_values(buffers[last], metric, n, missing),
            )
            &&& are_series_of(out.drop_last(), buffers, asked.drop_last(), metric, n, missing)
        } else {
            are_series_of(out, buffers, asked.drop_last(), metric, n, missing)
        }
    }
}

fn learn(known: &mut SortedMap<()>, names: &Vec<String>)
    ensures
        final(known)@.dom() == old(known)@.dom().union(crate::text::texts(names@).to_set()),
{
    let ghost before = known@.dom();
    let ghost all = crate::text::texts(names@);
    let mut i: usize = 0;
    assert(before.union(all.take(0).to_set()) =~= before);
    while i < names.len()
        invariant
            i <= names.len(),
            all == crate::text::texts(names@),
            known@.dom() == before.union(all.take(i as int).to_set()),
        decreases names.len() - i,
    {
        let ghost so_far = all.take(i as int);
        let ghost next = all.take(i + 1);
        assert(next =~= so_far.push(all[i as int]));
        known.insert(names[i].clone(), ());
        assert(known@.dom() =~= before.union(next.to_set())) by {
            assert forall|k: Seq<char>| next.to_set().contains(k) <==> so_far.to_set().contains(k)
                || k == all[i as int] by {
                if so_far.contains(k) {
                    let at = so_far.index_of(k);
                    assert(next[at] == k);
                }
                assert(next[i as int] == all[i as int]);
                if next.contains(k) {
                    let at = next.index_of(k);
                    if at < i {
                        assert(so_far[at] == k);
                    }
                }
            }
        }
        i += 1;
    }
    assert(all.take(i as int) =~= all);
}

/// Whether an instance has rows that wait to be written.
pub open spec fn has_waiting<V>(
    buffers: Map<Seq<char>, crate::controller::metrics_buffer::BufferView<V>>,
    identity: Seq<char>,
) -> bool {
    buffers.dom().contains(identity) && buffers[identity].pending.len() > 0
}

/// Whether a file is to be written for an instance that has changed.
pub open spec fn is_job<V>(
    job: CsvWriteJob<V>,
    buffers: Map<Seq<char>, crate::controller::metrics_buffer::BufferView<V>>,
    revisions: Map<Seq<char>, u64>,
    folder: Seq<char>,
) -> bool {
    &&& revisions.dom().contains(job.identity@)
    &&& job.revision == revisions[job.identity@]
    &&& has_waiting(buffers, job.identity@)
    &&& crate::controller::metrics_buffer::is_snapshot(job.snapshot, buffers[job.identity@])
    &&& job.path@ == crate::surroundings::joined_path(
        folder,
        crate::controller::metrics_csv::file_name(job.identity@),
    )
}

/// Whether there is one file to be written for each instance that has changed and has rows that
/// wait.
pub open spec fn are_jobs<V>(
    jobs: Seq<CsvWriteJob<V>>,
    buffers: Map<Seq<char>, crate::controller::metrics_buffer::BufferView<V>>,
    revisions: Map<Seq<char>, u64>,
    folder: Seq<char>,
) -> bool {
    &&& forall|i: int| 0 <= i < jobs.len() ==> is_job(#[trigger] jobs[i], buffers, revisions, folder)
    &&& forall|i: int, j: int|
        0 <= i < j < jobs.len() ==> #[trigger] jobs[i].identity@ != #[trigger] jobs[j].identity@
    &&& forall|k: Seq<char>| #[trigger]
        revisions.dom().contains(k) && has_waiting(buffers, k) ==> exists|i: int|
            0 <= i < jobs.len() && #[trigger] jobs[i].identity@ == k
}

/// The buffers while what waits in instances that have changed is being written.
pub open spec fn being_written<V>(
    buffers: Map<Seq<char>, crate::controller::metrics_buffer::BufferView<V>>,
    chosen: Set<Seq<char>>,
) -> Map<Seq<char>, crate::controller::metrics_buffer::BufferView<V>> {
    Map::new(
        |k: Seq<char>| buffers.dom().contains(k),
        |k: Seq<char>|
            if chosen.contains(k) {
                crate::controller::metrics_buffer::in_writing(buffers[k])
            } else {
                buffers[k]
            },
    )
}

/// The revisions without those of chosen instances that have nothing to be written.
pub open spec fn still_changed<V>(
    revisions: Map<Seq<char>, u64>,
    buffers: Map<Seq<char>, crate::controller::metrics_buffer::BufferView<V>>,
    chosen: Set<Seq<char>>,
) -> Map<Seq<char>, u64> {
    Map::new(
        |k: Seq<char>|
            revisions.dom().contains(k) && (has_waiting(buffers, k) || !chosen.contains(k)),
        |k: Seq<char>| revisions[k],
    )
}

/// The revisions after an instance was written as of a revision.
pub open spec fn cleared(
    revisions: Map<Seq<char>, u64>,
    identity: Seq<char>,
    revision: u64,
) -> Map<Seq<char>, u64> {
    if revisions.dom().contains(identity) && revisions[identity] == revision {
        revisions.remove(identity)
    } else {
        revisions
    }
}

/// The buffers after rows of an instance were written.
pub open spec fn after_writing<V>(
    buffers: Map<Seq<char>, crate::controller::metrics_buffer::BufferView<V>>,
    identity: Seq<char>,
    count: int,
    names: Seq<Seq<char>>,
) -> Map<Seq<char>, crate::controller::metrics_buffer::BufferView<V>> {
    if buffers.dom().contains(identity) {
        buffers.insert(
            identity,
            crate::controller::metrics_buffer::flushed(buffers[identity], count, names),
        )
    } else {
        buffers
    }
}

/// An instance that changes while it is being written still counts as changed afterwards.
pub proof fn changes_while_writing_count(revisions: Map<Seq<char>, u64>, identity: Seq<char>)
    requires
        revisions.dom().contains(identity),
        revisions[identity] < u64::MAX,
    ensures
        cleared(marked(revisions, identity), identity, revisions[identity]).dom().contains(
            identity,
        ),
{
}

/// An instance that does not change while it is being written no longer counts as changed.
pub proof fn written_instances_are_clean(revisions: Map<Seq<char>, u64>, identity: Seq<char>)
    requires
        revisions.dom().contains(identity),
    ensures
        !cleared(revisions, identity, revisions[identity]).dom().contains(identity),
{
}

/// The keys of the first entries.
pub open spec fn keys_of(entries: Seq<(String, u64)>) -> Set<Seq<char>> {
    crate::string_map::entries_map(entries).dom()
}

impl<V: Copy> MetricsLogger<V> {
    fn snapshot_of(&mut self, identity: &str) -> (r: Option<MetricFlushSnapshot<V>>)
        requires
            old(self).wf(),
        ensures
            final(self).wf(),
            final(self).contents() == being_written(
                old(self).contents(),
                Set::<Seq<char>>::empty().insert(identity@),
            ),
            final(self).dirty_instances == old(self).dirty_instances,
            final(self).keeps_the_rest(*old(self)),
            match r {
                Some(s) => has_waiting(old(self).contents(), identity@)
                    && crate::controller::metrics_buffer::is_snapshot(
                    s,
                    old(self).contents()[identity@],
                ),
                None => !has_waiting(old(self).contents(), identity@),
            },
    {
        let ghost before = *self;
        let ghost chosen = Set::<Seq<char>>::empty().insert(identity@);
        let slot: usize = match number_of(&self.slots, identity) {
            Some(slot) => {
                assert(self.buffers.len() == self.buffers@.len());
                assert(numbers(self.slots).dom().contains(identity@));
                slot as usize
            },
            None => {
                assert(before.contents() =~= being_written(before.contents(), chosen));
                return None;
            },
        };
        let mut buffer = self.buffers.remove(slot);
        assert(buffer == before.buffers@[slot as int]);
        assert(buffer@ == before.contents()[identity@]);
        let ghost was = buffer@;
        let r = buffer.flush_snapshot();
        proof {
            if was.pending.len() == 0 {
                assert(was =~= crate::controller::metrics_buffer::in_writing(was));
            }
            crate::controller::metrics_buffer::flushing_is_sound(was, 0, Seq::empty());
        }
        self.buffers.insert(slot, buffer);
        assert(self.buffers@ =~= before.buffers@.update(slot as int, buffer));
        proof {
            let slots = numbers(self.slots);
            let after = being_written(before.contents(), chosen);
            assert forall|k: Seq<char>| #[trigger] slots.dom().contains(k) implies
                self.buffers@[slots[k] as int]@ == after[k] by {
                assert(before.contents().dom().contains(k));
                if k != identity@ {
                    assert(slots[k] != slots[identity@]);
                }
            }
            assert(self.contents() =~= after);
        }
        r
    }

    /// The files that are to be written: one for each instance that has changed and has rows
    /// that wait. Instances that have none no longer count as changed.
    pub fn flush_dirty_buffers(&mut self) -> (r: Vec<CsvWriteJob<V>>)
        requires
            old(self).wf(),
        ensures
            final(self).wf(),
            are_jobs(r@, old(self).contents(), old(self).revisions(), old(self).folder()),
            final(self).contents() == being_written(
                old(self).contents(),
                old(self).revisions().dom(),
            ),
            final(self).revisions() == still_changed(
                old(self).revisions(),
                old(self).contents(),
                old(self).revisions().dom(),
            ),
            final(self).keeps_the_rest(*old(self)),
    {
        let ghost before = *self;
        let ghost buffers = before.contents();
        let ghost revisions = before.revisions();
        let changed = all_numbers(&self.dirty_instances);
        let mut jobs: Vec<CsvWriteJob<V>> = Vec::new();
        let mut i: usize = 0;
        assert(changed@.take(0) =~= Seq::<(String, u64)>::empty());
        assert(being_written(buffers, keys_of(changed@.take(0))) =~= buffers);
        assert(still_changed(revisions, buffers, keys_of(changed@.take(0))) =~= revisions);
        while i < changed.len()
            invariant
                i <= changed.len(),
                crate::string_map::distinct_keys(changed@),
                crate::string_map::entries_map(changed@) == revisions,
                buffers == before.contents(),
                revisions == before.revisions(),
                self.wf(),
                self.keeps_the_rest(before),
                self.contents() == being_written(buffers, keys_of(changed@.take(i as int))),
                self.revisions() == still_changed(
                    revisions,
                    buffers,
                    keys_of(changed@.take(i as int)),
                ),
                forall|j: int|
                    0 <= j < jobs@.len() ==> is_job(
                        #[trigger] jobs@[j],
                        buffers,
                        revisions,
                        before.folder(),
                    ) && keys_of(changed@.take(i as int)).contains(jobs@[j].identity@),
                forall|a: int, b: int|
                    0 <= a < b < jobs@.len() ==> #[trigger] jobs@[a].identity@
                        != #[trigger] jobs@[b].identity@,
                forall|k: Seq<char>| #[trigger]
                    keys_of(changed@.take(i as int)).contains(k) && has_waiting(buffers, k)
                        ==> exists|j: int| 0 <= j < jobs@.len() && #[trigger] jobs@[j].identity@
                        == k,
            decreases changed.len() - i,
        {
            let ghost done = changed@.take(i as int);
            let ghost next = changed@.take(i + 1);
            let ghost id = changed@[i as int].0@;
            assert(next.drop_last() =~= done);
            assert(keys_of(next) =~= keys_of(done).insert(id));
            proof {
                crate::string_map::lookup_at(changed@, i as int);
                assert forall|j: int| 0 <= j < done.len() implies #[trigger] done[j].0@ != id by {
                    assert(changed@[j].0@ != changed@[i as int].0@);
                }
                crate::string_map::lookup_absent(done, id);
                assert(!keys_of(done).contains(id));
            }
            let identity = changed[i].0.as_str();
            let revision: u64 = changed[i].1;
            let ghost middle = *self;
            let ghost jobs_before = jobs@;
            let snapshot = self.snapshot_of(identity);
            proof {
                if buffers.dom().contains(id) {
                    assert(middle.contents()[id] == buffers[id]);
                }
                assert(self.contents() =~= being_written(buffers, keys_of(next)));
            }
            match snapshot {
                Some(snapshot) => {
                    let path = join_path(
                        self.folder_path.as_str(),
                        csv_file_name(identity).as_str(),
                    );
                    jobs.push(
                        CsvWriteJob { identity: identity.to_owned(), revision, path, snapshot },
                    );
                    assert(jobs@[jobs_before.len() as int].identity@ == id);
                    assert(is_job(
                        jobs@[jobs_before.len() as int],
                        buffers,
                        revisions,
                        before.folder(),
                    ));
                },
                None => {
                    drop_number(&mut self.dirty_instances, identity);
                },
            }
            proof {
                assert(self.revisions() =~= still_changed(revisions, buffers, keys_of(next)));
                assert(self.contents() == being_written(buffers, keys_of(next)));
                assert forall|k: Seq<char>| #[trigger] keys_of(next).contains(k) && has_waiting(
                    buffers,
                    k,
                ) implies exists|j: int| 0 <= j < jobs@.len() && #[trigger] jobs@[j].identity@
                    == k by {
                    if k == id {
                        assert(jobs@[jobs_before.len() as int].identity@ == k);
                    } else {
                        assert(keys_of(done).contains(k));
                        let j = choose|j: int|
                            0 <= j < jobs_before.len() && #[trigger] jobs_before[j].identity@ == k;
                        assert(jobs@[j].identity@ == k);
                    }
                }
            }
            i += 1;
        }
        assert(changed@.take(i as int) =~= changed@);
        jobs
    }

    /// Notes that rows of an instance were written as of a revision. If the instance has not
    /// changed since, it no longer counts as changed.
    pub fn complete_flush(
        &mut self,
        identity: &str,
        revision: u64,
        pending_row_count: usize,
        metric_names: Vec<String>,
    )
        requires
            old(self).wf(),
        ensures
            final(self).wf(),
            final(self).contents() == after_writing(
                old(self).contents(),
                identity@,
                pending_row_count as int,
                crate::text::texts(metric_names@),
            ),
            final(self).revisions() == cleared(old(self).revisions(), identity@, revision),
            final(self).keeps_the_rest(*old(self)),
    {
        let ghost before = *self;
        let ghost names = crate::text::texts(metric_names@);
        if let Some(slot) = number_of(&self.slots, identity) {
            assert(self.buffers.len() == self.buffers@.len());
            assert(numbers(self.slots).dom().contains(identity@));
            let slot: usize = slot as usize;
            let mut buffer = self.buffers.remove(slot);
            assert(buffer@ == before.contents()[identity@]);
            let ghost was = buffer@;
            buffer.mark_flush_succeeded(pending_row_count, metric_names);
            proof {
                crate::controller::metrics_buffer::flushing_is_sound(
                    was,
                    pending_row_count as int,
                    names,
                );
            }
            self.buffers.insert(slot, buffer);
            assert(self.buffers@ =~= before.buffers@.update(slot as int, buffer));
            proof {
                let slots = numbers(self.slots);
                let after = after_writing(
                    before.contents(),
                    identity@,
                    pending_row_count as int,
                    names,
                );
                assert forall|k: Seq<char>| #[trigger] slots.dom().contains(k) implies
                    self.buffers@[slots[k] as int]@ == after[k] by {
                    assert(before.contents().dom().contains(k));
                    if k != identity@ {
                        assert(slots[k] != slots[identity@]);
                    }
                }
                assert(self.contents() =~= after);
            }
        }
        let ghost written = *self;
        let unchanged = match number_of(&self.dirty_instances, identity) {
            Some(n) => n == revision,
            None => false,
        };
        if unchanged {
            drop_number(&mut self.dirty_instances, identity);
        }
        assert(self.contents() =~= written.contents());
    }
}

/// A sample of an instance.
#[derive(Debug)]
pub struct InstanceSample<V> {
    pub identity: String,
    pub metric_name: String,
    pub timestamp_ms: i64,
    pub value: V,
}

/// The position of the row of an instance.
pub open spec fn row_at<V>(rows: Seq<InstanceRow<V>>, identity: Seq<char>) -> Option<int>
    decreases rows.len(),
{
    if rows.len() == 0 {
        None
    } else {
        match row_at(rows.drop_last(), identity) {
            Some(i) => Some(i),
            None => if rows.last().identity == identity {
                Some(rows.len() - 1)
            } else {
                None
            },
        }
    }
}

/// The rows with a sample. It joins the row of its instance; the time of the row is that of its
/// first sample, or of its latest one.
pub open spec fn with_sample<V>(
    rows: Seq<InstanceRow<V>>,
    s: InstanceSample<V>,
    source: SourceKind,
    latest: bool,
) -> Seq<InstanceRow<V>> {
    match row_at(rows, s.identity@) {
        Some(i) => {
            let row = rows[i].row;
            rows.update(
                i,
                InstanceRow {
                    identity: rows[i].identity,
                    row: crate::controller::metrics_buffer::RowView {
                        timestamp: if latest && s.timestamp_ms > row.timestamp {
                            s.timestamp_ms as int
                        } else {
                            row.timestamp
                        },
                        source: row.source,
                        values: row.values.insert(s.metric_name@, s.value),
                    },
                },
            )
        },
        None => rows.push(
            InstanceRow {
                identity: s.identity@,
                row: crate::controller::metrics_buffer::RowView {
                    timestamp: s.timestamp_ms as int,
                    source,
                    values: Map::<Seq<char>, V>::empty().insert(s.metric_name@, s.value),
                },
            },
        ),
    }
}

/// The rows that samples make, one for each instance.
pub open spec fn grouped<V>(
    samples: Seq<InstanceSample<V>>,
    source: SourceKind,
    latest: bool,
) -> Seq<InstanceRow<V>>
    decreases samples.len(),
{
    if samples.len() == 0 {
        Seq::empty()
    } else {
        with_sample(
            grouped(samples.drop_last(), source, latest),
            samples.last(),
            source,
            latest,
        )
    }
}

proof fn row_at_is_first<V>(rows: Seq<InstanceRow<V>>, identity: Seq<char>)
    ensures
        match row_at(rows, identity) {
            Some(i) => 0 <= i < rows.len() && rows[i].identity == identity,
            None => forall|i: int| 0 <= i < rows.len() ==> #[trigger] rows[i].identity != identity,
        },
    decreases rows.len(),
{
    if rows.len() > 0 {
        let front = rows.drop_last();
        row_at_is_first(front, identity);
        match row_at(front, identity) {
            Some(i) => {
                assert(rows[i] == front[i]);
            },
            None => {
                assert forall|i: int| 0 <= i < rows.len() && rows.last().identity
                    != identity implies #[trigger] rows[i].identity != identity by {
                    if i < front.len() {
                        assert(front[i].identity != identity);
                    }
                }
            },
        }
    }
}

/// Samples make one row for each instance.
pub proof fn one_row_for_an_instance<V>(
    samples: Seq<InstanceSample<V>>,
    source: SourceKind,
    latest: bool,
)
    ensures
        forall|i: int, j: int|
            0 <= i < j < grouped(samples, source, latest).len() ==> #[trigger] grouped(
                samples,
                source,
                latest,
            )[i].identity != #[trigger] grouped(samples, source, latest)[j].identity,
    decreases samples.len(),
{
    if samples.len() > 0 {
        let before = grouped(samples.drop_last(), source, latest);
        one_row_for_an_instance(samples.drop_last(), source, latest);
        row_at_is_first(before, samples.last().identity@);
    }
}

proof fn row_at_prefix<V>(rows: Seq<InstanceRow<V>>, identity: Seq<char>, n: int)
    requires
        0 <= n < rows.len(),
        rows[n].identity == identity,
        forall|i: int| 0 <= i < n ==> #[trigger] rows[i].identity != identity,
    ensures
        row_at(rows, identity) == Some(n),
    decreases rows.len(),
{
    let front = rows.drop_last();
    if n < front.len() {
        assert(front[n] == rows[n]);
        assert forall|i: int| 0 <= i < n implies #[trigger] front[i].identity != identity by {
            assert(rows[i].identity != identity);
        }
        row_at_prefix(front, identity, n);
    } else {
        row_at_is_first(front, identity);
        match row_at(front, identity) {
            Some(i) => {
                assert(rows[i].identity != identity);
            },
            None => {},
        }
    }
}

fn add_sample<V: Copy>(
    rows: &mut Vec<NormalizedMetricRow<V>>,
    s: &InstanceSample<V>,
    source: SourceKind,
    latest: bool,
)
    ensures
        instance_rows(final(rows)@) == with_sample(instance_rows(old(rows)@), *s, source, latest),
{
    let ghost before = instance_rows(rows@);
    let ghost given = rows@;
    let mut i: usize = 0;
    while i < rows.len() && !same(rows[i].identity.as_str(), s.identity.as_str())
        invariant
            i <= rows.len(),
            rows@ == given,
            before == instance_rows(given),
            forall|j: int| 0 <= j < i ==> #[trigger] before[j].identity != s.identity@,
        decreases rows.len() - i,
    {
        assert(before[i as int].identity == given[i as int].identity@);
        i += 1;
    }
    if i < rows.len() {
        assert(before[i as int] == given[i as int]@);
        proof {
            row_at_prefix(before, s.identity@, i as int);
        }
        let mut row = rows.remove(i);
        if latest && s.timestamp_ms > row.timestamp_ms {
            row.timestamp_ms = s.timestamp_ms;
        }
        row.values.insert(s.metric_name.clone(), s.value);
        let ghost made = row@;
        rows.insert(i, row);
        assert(rows@ =~= given.update(i as int, row));
        assert(instance_rows(rows@) =~= before.update(i as int, made));
    } else {
        proof {
            row_at_is_first(before, s.identity@);
        }
        let mut values: StringMap<V> = StringMap::new();
        values.insert(s.metric_name.clone(), s.value);
        let row = NormalizedMetricRow {
            timestamp_ms: s.timestamp_ms,
            source_kind: source,
            identity: s.identity.clone(),
            values,
        };
        let ghost made = row@;
        rows.push(row);
        assert(instance_rows(rows@) =~= before.push(made));
    }
}

/// The rows that samples make, one for each instance.
pub fn group_samples<V: Copy>(samples: &Vec<InstanceSample<V>>, source: SourceKind, latest: bool) -> (r:
    Vec<NormalizedMetricRow<V>>)
    ensures
        instance_rows(r@) == grouped(samples@, source, latest),
{
    let mut rows: Vec<NormalizedMetricRow<V>> = Vec::new();
    let mut i: usize = 0;
    assert(samples@.take(0) =~= Seq::<InstanceSample<V>>::empty());
    assert(instance_rows(rows@) =~= Seq::<InstanceRow<V>>::empty());
    while i < samples.len()
        invariant
            i <= samples.len(),
            instance_rows(rows@) == grouped(samples@.take(i as int), source, latest),
        decreases samples.len() - i,
    {
        assert(samples@.take(i + 1).drop_last() =~= samples@.take(i as int));
        add_sample(&mut rows, &samples[i], source, latest);
        i += 1;
    }
    assert(samples@.take(i as int) =~= samples@);
    rows
}

/// The names of the metrics of samples.
pub open spec fn sampled_names<V>(samples: Seq<InstanceSample<V>>) -> Set<Seq<char>> {
    Set::new(
        |k: Seq<char>|
            exists|i: int| 0 <= i < samples.len() && #[trigger] samples[i].metric_name@ == k,
    )
}

/// What an agent has read.
#[derive(Debug)]
pub struct AgentMetricsSnapshot<V> {
    pub node_id: String,
    pub last_scan_completed_at_ms: Option<u64>,
    pub last_scan_duration_ms: Option<u64>,
    pub scan_rounds_completed: u64,
    pub targets: Vec<AgentTargetMetricsSnapshot<V>>,
}

/// What an agent has read from a target.
#[derive(Debug)]
pub struct AgentTargetMetricsSnapshot<V> {
    pub port: u16,
    pub source_ip: String,
    pub agent_node_id: String,
    pub source_instance: String,
    pub scraped_at_ms: Option<u64>,
    pub scrape_duration_ms: u64,
    pub scrape_ok: bool,
    pub error: Option<String>,
    pub malformed_lines: usize,
    pub sample_count: usize,
    pub samples: Vec<AgentPrometheusSample<V>>,
}

/// A sample that an agent has read.
#[derive(Debug)]
pub struct AgentPrometheusSample<V> {
    pub metric_name: String,
    pub labels: SortedMap<String>,
    pub value: V,
    pub timestamp_ms: Option<i64>,
}

/// When a target was read; now, where that is not known or too far away.
pub open spec fn read_at(scraped_at_ms: Option<u64>, now_ms: i64) -> i64 {
    match scraped_at_ms {
        Some(t) if t <= i64::MAX => t as i64,
        _ => now_ms,
    }
}

/// Whether a sample of an instance is one that an agent has read.
pub open spec fn is_agent_sample<V>(
    s: InstanceSample<V>,
    from: AgentPrometheusSample<V>,
    source_instance: Seq<char>,
    read_at_ms: i64,
) -> bool {
    &&& s.identity@ == crate::controller::metrics_identity::agent_identity(
        source_instance,
        from.labels,
    )
    &&& s.metric_name@ == from.metric_name@
    &&& s.timestamp_ms == (match from.timestamp_ms {
        Some(t) => t,
        None => read_at_ms,
    })
    &&& s.value == from.value
}

/// Whether samples are those that an agent has read from a target.
pub open spec fn are_target_samples<V>(
    out: Seq<InstanceSample<V>>,
    target: AgentTargetMetricsSnapshot<V>,
    now_ms: i64,
) -> bool {
    if target.scrape_ok {
        &&& out.len() == target.samples@.len()
        &&& forall|i: int|
            0 <= i < out.len() ==> is_agent_sample(
                #[trigger] out[i],
                target.samples@[i],
                target.source_instance@,
                read_at(target.scraped_at_ms, now_ms),
            )
    } else {
        out.len() == 0
    }
}

/// Whether samples are those that an agent has read, target by target. Targets that could not be
/// read are left out.
pub open spec fn are_agent_samples<V>(
    out: Seq<InstanceSample<V>>,
    targets: Seq<AgentTargetMetricsSnapshot<V>>,
    now_ms: i64,
) -> bool
    decreases targets.len(),
{
    if targets.len() == 0 {
        out.len() == 0
    } else {
        let n = if targets.last().scrape_ok {
            out.len() - targets.last().samples@.len()
        } else {
            out.len() as int
        };
        &&& 0 <= n
        &&& are_agent_samples(out.take(n), targets.drop_last(), now_ms)
        &&& are_target_samples(out.skip(n), targets.last(), now_ms)
    }
}

fn target_samples<V: Copy>(target: &AgentTargetMetricsSnapshot<V>, now_ms: i64) -> (r: Vec<
    InstanceSample<V>,
>)
    ensures
        are_target_samples(r@, *target, now_ms),
{
    let mut out: Vec<InstanceSample<V>> = Vec::new();
    if !target.scrape_ok {
        return out;
    }
    let at: i64 = match target.scraped_at_ms {
        Some(t) => if t <= i64::MAX as u64 {
            t as i64
        } else {
            now_ms
        },
        None => now_ms,
    };
    let mut i: usize = 0;
    while i < target.samples.len()
        invariant
            i <= target.samples.len(),
            at == read_at(target.scraped_at_ms, now_ms),
            out@.len() == i,
            forall|j: int|
                0 <= j < i ==> is_agent_sample(
                    #[trigger] out@[j],
                    target.samples@[j],
                    target.source_instance@,
                    at,
                ),
        decreases target.samples.len() - i,
    {
        let sample = &target.samples[i];
        out.push(
            InstanceSample {
                identity: agent_identity_from_parts(
                    target.source_instance.as_str(),
                    &sample.labels,
                ),
                metric_name: sample.metric_name.clone(),
                timestamp_ms: match sample.timestamp_ms {
                    Some(t) => t,
                    None => at,
                },
                value: sample.value,
            },
        );
        i += 1;
    }
    out
}

/// The samples that an agent has read.
pub fn agent_samples<V: Copy>(targets: &Vec<AgentTargetMetricsSnapshot<V>>, now_ms: i64) -> (r: Vec<
    InstanceSample<V>,
>)
    ensures
        are_agent_samples(r@, targets@, now_ms),
{
    let mut out: Vec<InstanceSample<V>> = Vec::new();
    let mut i: usize = 0;
    assert(targets@.take(0) =~= Seq::<AgentTargetMetricsSnapshot<V>>::empty());
    while i < targets.len()
        invariant
            i <= targets.len(),
            are_agent_samples(out@, targets@.take(i as int), now_ms),
        decreases targets.len() - i,
    {
        assert(targets@.take(i + 1).drop_last() =~= targets@.take(i as int));
        let ghost before = out@;
        let mut more = target_samples(&targets[i], now_ms);
        let ghost added = more@;
        out.append(&mut more);
        assert(out@ =~= before + added);
        assert(out@.take(before.len() as int) =~= before);
        assert(out@.skip(before.len() as int) =~= added);
        i += 1;
    }
    assert(targets@.take(i as int) =~= targets@);
    out
}

/// A sample that was asked for: all its labels, among them the name of the metric.
#[derive(Debug)]
pub struct PrometheusSample<V> {
    pub labels: SortedMap<String>,
    pub timestamp_ms: i64,
    pub value: V,
}

/// Whether a sample of an instance is one that was asked for.
pub open spec fn is_asked_sample<V>(s: InstanceSample<V>, from: PrometheusSample<V>) -> bool {
    &&& s.identity@ == crate::controller::metrics_identity::prometheus_identity(from.labels)
    &&& s.metric_name@ == crate::controller::metrics_identity::or_unknown(
        crate::controller::metrics_identity::label_value(from.labels@, "__name__"@),
    )
    &&& s.timestamp_ms == from.timestamp_ms
    &&& s.value == from.value
}

/// Whether samples are those that were asked for.
pub open spec fn are_asked_samples<V>(
    out: Seq<InstanceSample<V>>,
    from: Seq<PrometheusSample<V>>,
) -> bool {
    &&& out.len() == from.len()
    &&& forall|i: int| 0 <= i < out.len() ==> is_asked_sample(#[trigger] out[i], from[i])
}

/// The samples that were asked for.
pub fn asked_samples<V: Copy>(from: &Vec<PrometheusSample<V>>) -> (r: Vec<InstanceSample<V>>)
    ensures
        are_asked_samples(r@, from@),
{
    let mut out: Vec<InstanceSample<V>> = Vec::new();
    let mut i: usize = 0;
    while i < from.len()
        invariant
            i <= from.len(),
            out@.len() == i,
            forall|j: int| 0 <= j < i ==> is_asked_sample(#[trigger] out@[j], from@[j]),
        decreases from.len() - i,
    {
        let sample = &from[i];
        let metric_name = match sample.labels.get("__name__") {
            Some(n) => n.clone(),
            None => "unknown".to_owned(),
        };
        out.push(
            InstanceSample {
                identity: prometheus_identity_from_metric(&sample.labels),
                metric_name,
                timestamp_ms: sample.timestamp_ms,
                value: sample.value,
            },
        );
        i += 1;
    }
    out
}

fn names_in<V>(samples: &Vec<InstanceSample<V>>) -> (r: Vec<String>)
    ensures
        crate::text::texts(r@).to_set() == sampled_names(samples@),
{
    let mut out: Vec<String> = Vec::new();
    let mut i: usize = 0;
    while i < samples.len()
        invariant
            i <= samples.len(),
            out@.len() == i,
            forall|j: int| 0 <= j < i ==> (#[trigger] out@[j])@ == samples@[j].metric_name@,
        decreases samples.len() - i,
    {
        out.push(samples[i].metric_name.clone());
        i += 1;
    }
    proof {
        let names = crate::text::texts(out@);
        assert forall|k: Seq<char>| names.to_set().contains(k) <==> sampled_names(
            samples@,
        ).contains(k) by {
            if names.contains(k) {
                let j = names.index_of(k);
                assert(samples@[j].metric_name@ == k);
            }
            if sampled_names(samples@).contains(k) {
                let j = choose|j: int|
                    0 <= j < samples@.len() && #[trigger] samples@[j].metric_name@ == k;
                assert(names[j] == k);
            }
        }
        assert(names.to_set() =~= sampled_names(samples@));
    }
    out
}

/// A number of metrics that are asked for at once.
pub const QUERY_CHUNK: usize = 200;

/// The queries that ask for metrics by name.
pub open spec fn batch_queries(names: Seq<Seq<char>>) -> Seq<Seq<char>> {
    let groups = crate::batching::batches(names, QUERY_CHUNK as int);
    Seq::new(
        groups.len(),
        |i: int| "{__name__=~\""@ + crate::text::joined(groups[i], "|"@) + "\"}"@,
    )
}

impl<V: Copy> MetricsLogger<V> {
    /// Notes metrics that are known from now on.
    pub fn ensure_known_metrics(&mut self, metric_names: &Vec<String>)
        requires
            old(self).wf(),
        ensures
            final(self).wf(),
            final(self).known_metrics() == old(self).known_metrics().union(
                crate::text::texts(metric_names@).to_set(),
            ),
            final(self).contents() == old(self).contents(),
            final(self).revisions() == old(self).revisions(),
            final(self).asked_metrics() == old(self).asked_metrics(),
            final(self).folder() == old(self).folder(),
            final(self).is_running() == old(self).is_running(),
            final(self).is_accepting() == old(self).is_accepting(),
    {
        let ghost before = *self;
        learn(&mut self.all_metrics, metric_names);
        assert(self.contents() =~= before.contents());
    }

    /// Sets the metrics that are asked for, in ascending order.
    pub fn refresh_metrics(&mut self, metrics: &Vec<String>)
        requires
            old(self).wf(),
        ensures
            final(self).wf(),
            crate::sorting::is_sorted_copy(
                final(self).asked_metrics(),
                crate::text::texts(metrics@),
            ),
            final(self).known_metrics() == old(self).known_metrics().union(
                crate::text::texts(metrics@).to_set(),
            ),
            final(self).contents() == old(self).contents(),
            final(self).revisions() == old(self).revisions(),
            final(self).folder() == old(self).folder(),
            final(self).is_running() == old(self).is_running(),
            final(self).is_accepting() == old(self).is_accepting(),
    {
        let ghost before = *self;
        self.prometheus_metrics = sort_texts(metrics);
        assert(self.contents() =~= before.contents());
        self.ensure_known_metrics(metrics);
    }

    /// Forgets the metrics that are asked for, because there is nobody to ask.
    pub fn forget_asked_metrics(&mut self)
        requires
            old(self).wf(),
        ensures
            final(self).wf(),
            final(self).asked_metrics().len() == 0,
            final(self).known_metrics() == old(self).known_metrics(),
            final(self).contents() == old(self).contents(),
            final(self).revisions() == old(self).revisions(),
            final(self).folder() == old(self).folder(),
            final(self).is_running() == old(self).is_running(),
            final(self).is_accepting() == old(self).is_accepting(),
    {
        let ghost before = *self;
        self.prometheus_metrics = Vec::new();
        assert(self.contents() =~= before.contents());
    }

    /// The queries that ask for the metrics.
    pub fn query_metrics_batch(&self) -> (r: Vec<String>)
        ensures
            crate::text::texts(r@) == batch_queries(self.asked_metrics()),
    {
        let groups = batch(&self.prometheus_metrics, QUERY_CHUNK);
        let ghost wanted = batch_queries(self.asked_metrics());
        let mut out: Vec<String> = Vec::new();
        let mut i: usize = 0;
        while i < groups.len()
            invariant
                i <= groups.len(),
                wanted == batch_queries(self.asked_metrics()),
                crate::batching::group_texts(groups@) == crate::batching::batches(
                    self.asked_metrics(),
                    QUERY_CHUNK as int,
                ),
                out@.len() == i,
                forall|j: int| 0 <= j < i ==> (#[trigger] out@[j])@ == wanted[j],
            decreases groups.len() - i,
        {
            assert(crate::batching::group_texts(groups@)[i as int] == crate::text::texts(
                groups@[i as int]@,
            ));
            out.push(
                "{__name__=~\"".to_owned().concat(join(&groups[i], "|").as_str()).concat("\"}"),
            );
            i += 1;
        }
        assert(crate::text::texts(out@) =~= wanted);
        out
    }

    /// Begins to collect metrics; it is an error if that has begun already.
    pub fn start(&mut self) -> (r: Result<(), MetricsLoggerError>)
        requires
            old(self).wf(),
        ensures
            final(self).wf(),
            if old(self).is_running() {
                r matches Err(MetricsLoggerError::AlreadyRunning) && *final(self) == *old(self)
            } else {
                r is Ok && final(self).is_running() && final(self).is_accepting()
            },
            final(self).contents() == old(self).contents(),
            final(self).revisions() == old(self).revisions(),
            final(self).known_metrics() == old(self).known_metrics(),
            final(self).asked_metrics() == old(self).asked_metrics(),
            final(self).folder() == old(self).folder(),
    {
        let ghost before = *self;
        if self.running {
            return Err(MetricsLoggerError::AlreadyRunning);
        }
        self.running = true;
        self.accepting_agent_snapshots = true;
        assert(self.contents() =~= before.contents());
        Ok(())
    }

    /// Ends collecting metrics; it is an error if that has not begun.
    pub fn stop(&mut self) -> (r: Result<(), MetricsLoggerError>)
        requires
            old(self).wf(),
        ensures
            final(self).wf(),
            !final(self).is_accepting(),
            !final(self).is_running(),
            match r {
                Ok(_) => old(self).is_running(),
                Err(MetricsLoggerError::NotRunning) => !old(self).is_running(),
                Err(_) => false,
            },
            final(self).contents() == old(self).contents(),
            final(self).revisions() == old(self).revisions(),
            final(self).known_metrics() == old(self).known_metrics(),
            final(self).asked_metrics() == old(self).asked_metrics(),
            final(self).folder() == old(self).folder(),
    {
        let ghost before = *self;
        self.accepting_agent_snapshots = false;
        let was_running = self.running;
        self.running = false;
        assert(self.contents() =~= before.contents());
        if was_running {
            Ok(())
        } else {
            Err(MetricsLoggerError::NotRunning)
        }
    }

    fn take_samples(&mut self, samples: &Vec<InstanceSample<V>>, source: SourceKind, latest: bool)
        requires
            old(self).wf(),
        ensures
            final(self).wf(),
            final(self).contents() == stored(
                old(self).contents(),
                grouped(samples@, source, latest),
            ),
            final(self).revisions() == all_marked(
                old(self).revisions(),
                grouped(samples@, source, latest),
            ),
            final(self).known_metrics() == old(self).known_metrics().union(
                sampled_names(samples@),
            ),
            final(self).asked_metrics() == old(self).asked_metrics(),
            final(self).folder() == old(self).folder(),
            final(self).is_running() == old(self).is_running(),
            final(self).is_accepting() == old(self).is_accepting(),
    {
        let rows = group_samples(samples, source, latest);
        self.ensure_known_metrics(&names_in(samples));
        let ghost known = *self;
        self.append_normalized_rows(rows);
        proof {
            self.the_rest_reads_the_same(known);
        }
    }

    /// Takes the samples that an agent has read; it is an error if none are taken.
    pub fn ingest_agent_snapshot(&mut self, snapshot: &AgentMetricsSnapshot<V>, now_ms: i64) -> (r:
        Result<(), MetricsLoggerError>)
        requires
            old(self).wf(),
        ensures
            final(self).wf(),
            if old(self).is_accepting() {
                r is Ok && exists|samples: Seq<InstanceSample<V>>| #[trigger]
                    are_agent_samples(samples, snapshot.targets@, now_ms) && final(self).contents() == stored(
                        old(self).contents(),
                        grouped(samples, SourceKind::AgentWebsocket, false),
                    ) && final(self).revisions() == all_marked(
                        old(self).revisions(),
                        grouped(samples, SourceKind::AgentWebsocket, false),
                    ) && final(self).known_metrics() == old(self).known_metrics().union(
                        sampled_names(samples),
                    )
            } else {
                r matches Err(MetricsLoggerError::NotRunning) && *final(self) == *old(self)
            },
            final(self).asked_metrics() == old(self).asked_metrics(),
            final(self).folder() == old(self).folder(),
            final(self).is_running() == old(self).is_running(),
            final(self).is_accepting() == old(self).is_accepting(),
    {
        if !self.accepting_agent_snapshots {
            return Err(MetricsLoggerError::NotRunning);
        }
        let samples = agent_samples(&snapshot.targets, now_ms);
        self.take_samples(&samples, SourceKind::AgentWebsocket, false);
        Ok(())
    }

    /// Takes the samples that were asked for.
    pub fn collect_prometheus_rows(&mut self, asked: &Vec<PrometheusSample<V>>)
        requires
            old(self).wf(),
        ensures
            final(self).wf(),
            exists|samples: Seq<InstanceSample<V>>| #[trigger]
                are_asked_samples(samples, asked@) && final(self).contents() == stored(
                    old(self).contents(),
                    grouped(samples, SourceKind::PrometheusPull, true),
                ) && final(self).revisions() == all_marked(
                    old(self).revisions(),
                    grouped(samples, SourceKind::PrometheusPull, true),
                ) && final(self).known_metrics() == old(self).known_metrics().union(
                    sampled_names(samples),
                ),
            final(self).asked_metrics() == old(self).asked_metrics(),
            final(self).folder() == old(self).folder(),
            final(self).is_running() == old(self).is_running(),
            final(self).is_accepting() == old(self).is_accepting(),
    {
        let samples = asked_samples(asked);
        self.take_samples(&samples, SourceKind::PrometheusPull, true);
    }

    /// The names of the metrics that are known, in ascending order.
    pub fn list_metric_names(&self) -> (r: Vec<String>)
        ensures
            crate::sorted_map::are_sorted_keys(
                crate::text::texts(r@),
                self.known_metrics(),
            ),
    {
        self.all_metrics.keys()
    }
}

/// When a periodic task runs again.
#[derive(Debug, Clone, Copy, PartialEq, Eq, Structural)]
pub struct Tick {
    /// How long to wait, in nanoseconds.
    pub wait_ns: u64,
    /// The number of the next run.
    pub next: u64,
}

/// The time of a run after the start, in nanoseconds.
pub open spec fn due_at(index: u64, period_ns: u64) -> nat {
    let n = period_ns * (index % 0x1_0000_0000);
    if n > u64::MAX {
        u64::MAX as nat
    } else {
        n as nat
    }
}

/// The number of the next run.
pub open spec fn next_index(index: u64) -> u64 {
    if index == u64::MAX {
        u64::MAX
    } else {
        (index + 1) as u64
    }
}

/// When a task runs again: at its time; where it is a little late, after a period that is shorter
/// by as much, up to a limit; where it is too late, at once, and the runs that were missed are
/// left out.
pub open spec fn tick_of(
    elapsed_ns: u64,
    index: u64,
    period_ns: u64,
    skip_ns: u64,
    catchup_ns: u64,
) -> Tick {
    let due = due_at(index, period_ns);
    if elapsed_ns < due {
        Tick { wait_ns: (due - elapsed_ns) as u64, next: next_index(index) }
    } else if elapsed_ns - due < skip_ns {
        let late = elapsed_ns - due;
        let shave = if late > catchup_ns {
            catchup_ns as int
        } else {
            late
        };
        Tick {
            wait_ns: if period_ns > shave {
                (period_ns - shave) as u64
            } else {
                0
            },
            next: next_index(index),
        }
    } else {
        Tick { wait_ns: 0, next: (elapsed_ns / period_ns + 1) as u64 }
    }
}

/// When a task runs again.
pub fn wait_for_next_tick(
    elapsed_ns: u64,
    tick_idx: u64,
    period_ns: u64,
    skip_ns: u64,
    catchup_ns: u64,
) -> (r: Tick)
    requires
        period_ns > 0,
        elapsed_ns < u64::MAX,
    ensures
        r == tick_of(elapsed_ns, tick_idx, period_ns, skip_ns, catchup_ns),
{
    let index: u64 = tick_idx % 0x1_0000_0000;
    let due: u64 = match period_ns.checked_mul(index) {
        Some(n) => n,
        None => u64::MAX,
    };
    let next: u64 = tick_idx.saturating_add(1);
    if elapsed_ns < due {
        return Tick { wait_ns: due - elapsed_ns, next };
    }
    let late: u64 = elapsed_ns - due;
    if late < skip_ns {
        let shave: u64 = if late > catchup_ns {
            catchup_ns
        } else {
            late
        };
        return Tick { wait_ns: period_ns.saturating_sub(shave), next };
    }
    let full: u64 = elapsed_ns / period_ns;
    proof {
        assert(full <= elapsed_ns) by (nonlinear_arith)
            requires
                full == elapsed_ns / period_ns,
                period_ns > 0,
        ;
    }
    Tick { wait_ns: 0, next: full + 1 }
}

/// Whether a sample is the last of its instance and metric in a batch.
pub open spec fn is_last_of_its_kind<V>(samples: Seq<InstanceSample<V>>, k: int) -> bool {
    &&& 0 <= k < samples.len()
    &&& forall|j: int|
        k < j < samples.len() ==> !((#[trigger] samples[j]).identity@ == samples[k].identity@
            && samples[j].metric_name@ == samples[k].metric_name@)
}

/// Every sample of a batch is in the row of its instance, under the name of its metric, whatever
/// the source; where an instance gives a metric more than once, the last sample counts.
pub proof fn samples_are_in_their_rows<V>(
    samples: Seq<InstanceSample<V>>,
    source: SourceKind,
    latest: bool,
    k: int,
)
    requires
        is_last_of_its_kind(samples, k),
    ensures
        exists|i: int|
            0 <= i < grouped(samples, source, latest).len() && ({
                let row = #[trigger] grouped(samples, source, latest)[i];
                &&& row.identity == samples[k].identity@
                &&& row.row.source == source
                &&& row.row.values.dom().contains(samples[k].metric_name@)
                &&& row.row.values[samples[k].metric_name@] == samples[k].value
            }),
    decreases samples.len(),
{
    let front = samples.drop_last();
    let before = grouped(front, source, latest);
    let after = grouped(samples, source, latest);
    let s = samples.last();
    rows_have_their_source(front, source, latest);
    row_at_is_first(before, s.identity@);
    if k == samples.len() - 1 {
        match row_at(before, s.identity@) {
            Some(i) => {
                assert(after[i].identity == s.identity@);
            },
            None => {
                assert(after[after.len() - 1].identity == s.identity@);
            },
        }
    } else {
        assert(front[k] == samples[k]);
        assert(samples[samples.len() - 1] == s);
        assert forall|j: int| k < j < front.len() implies !((#[trigger] front[j]).identity@
            == front[k].identity@ && front[j].metric_name@ == front[k].metric_name@) by {
            assert(front[j] == samples[j]);
        }
        samples_are_in_their_rows(front, source, latest, k);
        one_row_for_an_instance(front, source, latest);
        let i = choose|i: int|
            0 <= i < before.len() && ({
                let row = #[trigger] before[i];
                &&& row.identity == samples[k].identity@
                &&& row.row.source == source
                &&& row.row.values.dom().contains(samples[k].metric_name@)
                &&& row.row.values[samples[k].metric_name@] == samples[k].value
            });
        match row_at(before, s.identity@) {
            Some(at) => {
                if at != i {
                    assert(after[i] == before[i]);
                } else {
                    assert(after[i].identity == before[i].identity);
                }
            },
            None => {
                assert(after[i] == before[i]);
            },
        }
        assert(after[i].identity == samples[k].identity@);
    }
}

/// Rows carry the source that their samples came from.
pub proof fn rows_have_their_source<V>(
    samples: Seq<InstanceSample<V>>,
    source: SourceKind,
    latest: bool,
)
    ensures
        forall|i: int|
            0 <= i < grouped(samples, source, latest).len() ==> (#[trigger] grouped(
                samples,
                source,
                latest,
            )[i]).row.source == source,
    decreases samples.len(),
{
    if samples.len() > 0 {
        let before = grouped(samples.drop_last(), source, latest);
        rows_have_their_source(samples.drop_last(), source, latest);
        row_at_is_first(before, samples.last().identity@);
    }
}

/// Nothing stands in a row but what a sample of its instance said.
pub proof fn rows_hold_nothing_else<V>(
    samples: Seq<InstanceSample<V>>,
    source: SourceKind,
    latest: bool,
    i: int,
    name: Seq<char>,
)
    requires
        0 <= i < grouped(samples, source, latest).len(),
        grouped(samples, source, latest)[i].row.values.dom().contains(name),
    ensures
        exists|k: int|
            0 <= k < samples.len() && (#[trigger] samples[k]).identity@ == grouped(
                samples,
                source,
                latest,
            )[i].identity && samples[k].metric_name@ == name && samples[k].value == grouped(
                samples,
                source,
                latest,
            )[i].row.values[name],
    decreases samples.len(),
{
    let front = samples.drop_last();
    let before = grouped(front, source, latest);
    let after = grouped(samples, source, latest);
    let s = samples.last();
    let n = samples.len() - 1;
    assert(samples[n] == s);
    row_at_is_first(before, s.identity@);
    let here = row_at(before, s.identity@) == Some(i) || (row_at(before, s.identity@) is None && i
        == before.len());
    if here && name == s.metric_name@ {
        assert(samples[n].value == after[i].row.values[name]);
    } else {
        rows_hold_nothing_else(front, source, latest, i, name);
        let k = choose|k: int|
            0 <= k < front.len() && (#[trigger] front[k]).identity@ == before[i].identity
                && front[k].metric_name@ == name && front[k].value == before[i].row.values[name];
        assert(samples[k] == front[k]);
    }
}

/// The row of an instance has the time of the first of its samples, or of the latest where that is
/// asked for.
pub proof fn rows_have_the_time_of_a_sample<V>(
    samples: Seq<InstanceSample<V>>,
    source: SourceKind,
    latest: bool,
    i: int,
)
    requires
        0 <= i < grouped(samples, source, latest).len(),
    ensures
        exists|k: int|
            0 <= k < samples.len() && (#[trigger] samples[k]).identity@ == grouped(
                samples,
                source,
                latest,
            )[i].identity && samples[k].timestamp_ms == grouped(samples, source, latest)[i].row.timestamp
                && (!latest ==> forall|j: int|
                0 <= j < k ==> (#[trigger] samples[j]).identity@ != samples[k].identity@),
        latest ==> forall|k: int|
            0 <= k < samples.len() && (#[trigger] samples[k]).identity@ == grouped(
                samples,
                source,
                latest,
            )[i].identity ==> samples[k].timestamp_ms <= grouped(samples, source, latest)[i].row.timestamp,
    decreases samples.len(),
{
    let front = samples.drop_last();
    let before = grouped(front, source, latest);
    let after = grouped(samples, source, latest);
    let s = samples.last();
    let n = samples.len() - 1;
    assert(samples[n] == s);
    row_at_is_first(before, s.identity@);
    one_row_for_an_instance(front, source, latest);
    if i < before.len() {
        rows_have_the_time_of_a_sample(front, source, latest, i);
        let k = choose|k: int|
            0 <= k < front.len() && (#[trigger] front[k]).identity@ == before[i].identity
                && front[k].timestamp_ms == before[i].row.timestamp && (!latest ==> forall|j: int|
                0 <= j < k ==> (#[trigger] front[j]).identity@ != front[k].identity@);
        assert(samples[k] == front[k]);
        assert(after[i].identity == before[i].identity);
        if !latest {
            assert forall|j: int| 0 <= j < k implies (#[trigger] samples[j]).identity@
                != samples[k].identity@ by {
                assert(front[j].identity@ != front[k].identity@);
            }
            assert(after[i].row.timestamp == before[i].row.timestamp);
        } else {
            assert forall|j: int|
                0 <= j < samples.len() && (#[trigger] samples[j]).identity@
                    == after[i].identity implies samples[j].timestamp_ms
                <= after[i].row.timestamp by {
                if j < n {
                    assert(front[j] == samples[j]);
                }
            }
            if after[i].row.timestamp != before[i].row.timestamp {
                assert(samples[n].timestamp_ms == after[i].row.timestamp);
            }
        }
    } else {
        samples_have_rows(front, source, latest);
        assert forall|j: int| 0 <= j < n implies (#[trigger] samples[j]).identity@
            != s.identity@ by {
            assert(front[j] == samples[j]);
        }
    }
}

proof fn samples_have_rows<V>(
    samples: Seq<InstanceSample<V>>,
    source: SourceKind,
    latest: bool,
)
    ensures
        forall|k: int|
            0 <= k < samples.len() ==> row_at(
                grouped(samples, source, latest),
                (#[trigger] samples[k]).identity@,
            ) is Some,
    decreases samples.len(),
{
    if samples.len() > 0 {
        let front = samples.drop_last();
        let before = grouped(front, source, latest);
        let after = grouped(samples, source, latest);
        let s = samples.last();
        samples_have_rows(front, source, latest);
        row_at_is_first(before, s.identity@);
        assert forall|k: int| 0 <= k < samples.len() implies row_at(
            after,
            (#[trigger] samples[k]).identity@,
        ) is Some by {
            row_at_is_first(after, samples[k].identity@);
            if k < front.len() {
                assert(front[k] == samples[k]);
                row_at_is_first(before, samples[k].identity@);
                let i = row_at(before, samples[k].identity@)->0;
                assert(after[i].identity == before[i].identity);
            } else {
                match row_at(before, s.identity@) {
                    Some(i) => assert(after[i].identity == s.identity@),
                    None => assert(after[after.len() - 1].identity == s.identity@),
                }
            }
        }
    }
}

/// What an agent says of its targets is all taken: every sample of a target that could be scraped
/// makes one of the same metric and value, at its own time or else when the target was scraped.
pub proof fn agents_are_heard_in_full<V>(
    out: Seq<InstanceSample<V>>,
    targets: Seq<AgentTargetMetricsSnapshot<V>>,
    now_ms: i64,
    t: int,
    j: int,
)
    requires
        are_agent_samples(out, targets, now_ms),
        0 <= t < targets.len(),
        targets[t].scrape_ok,
        0 <= j < targets[t].samples@.len(),
    ensures
        exists|k: int|
            0 <= k < out.len() && ({
                let s = #[trigger] out[k];
                let from = targets[t].samples@[j];
                &&& s.metric_name@ == from.metric_name@
                &&& s.value == from.value
                &&& s.identity@ == crate::controller::metrics_identity::agent_identity(
                    targets[t].source_instance@,
                    from.labels,
                )
                &&& from.timestamp_ms is Some ==> s.timestamp_ms == from.timestamp_ms->0
                &&& from.timestamp_ms is None && targets[t].scraped_at_ms is Some
                    && targets[t].scraped_at_ms->0 <= i64::MAX ==> s.timestamp_ms
                    == targets[t].scraped_at_ms->0
                &&& from.timestamp_ms is None && targets[t].scraped_at_ms is None
                    ==> s.timestamp_ms == now_ms
            }),
    decreases targets.len(),
{
    let n = if targets.last().scrape_ok {
        out.len() - targets.last().samples@.len()
    } else {
        out.len() as int
    };
    if t == targets.len() - 1 {
        let rest = out.skip(n);
        assert(is_agent_sample(
            rest[j],
            targets[t].samples@[j],
            targets[t].source_instance@,
            read_at(targets[t].scraped_at_ms, now_ms),
        ));
        assert(out[n + j] == rest[j]);
    } else {
        let front = targets.drop_last();
        assert(front[t] == targets[t]);
        agents_are_heard_in_full(out.take(n), front, now_ms, t, j);
        let k = choose|k: int|
            0 <= k < out.take(n).len() && ({
                let s = #[trigger] out.take(n)[k];
                let from = targets[t].samples@[j];
                &&& s.metric_name@ == from.metric_name@
                &&& s.value == from.value
                &&& s.identity@ == crate::controller::metrics_identity::agent_identity(
                    targets[t].source_instance@,
                    from.labels,
                )
                &&& from.timestamp_ms is Some ==> s.timestamp_ms == from.timestamp_ms->0
                &&& from.timestamp_ms is None && targets[t].scraped_at_ms is Some
                    && targets[t].scraped_at_ms->0 <= i64::MAX ==> s.timestamp_ms
                    == targets[t].scraped_at_ms->0
                &&& from.timestamp_ms is None && targets[t].scraped_at_ms is None
                    ==> s.timestamp_ms == now_ms
            });
        assert(out[k] == out.take(n)[k]);
    }
}

/// How many samples targets give: those of the ones that could be scraped.
pub open spec fn scraped_count<V>(targets: Seq<AgentTargetMetricsSnapshot<V>>) -> nat
    decreases targets.len(),
{
    if targets.len() == 0 {
        0
    } else {
        scraped_count(targets.drop_last()) + if targets.last().scrape_ok {
            targets.last().samples@.len()
        } else {
            0
        }
    }
}

/// Nothing is taken from a target that could not be scraped.
pub proof fn failed_scrapes_give_nothing<V>(
    out: Seq<InstanceSample<V>>,
    targets: Seq<AgentTargetMetricsSnapshot<V>>,
    now_ms: i64,
)
    requires
        are_agent_samples(out, targets, now_ms),
    ensures
        out.len() == scraped_count(targets),
    decreases targets.len(),
{
    if targets.len() > 0 {
        let n = if targets.last().scrape_ok {
            out.len() - targets.last().samples@.len()
        } else {
            out.len() as int
        };
        failed_scrapes_give_nothing(out.take(n), targets.drop_last(), now_ms);
    }
}

/// What Prometheus answers is all taken, in its order: each sample with its time and value, and
/// under the name that its labels give.
pub proof fn answers_are_taken_in_full<V>(
    out: Seq<InstanceSample<V>>,
    from: Seq<PrometheusSample<V>>,
    i: int,
)
    requires
        are_asked_samples(out, from),
        0 <= i < from.len(),
    ensures
        out.len() == from.len(),
        out[i].timestamp_ms == from[i].timestamp_ms,
        out[i].value == from[i].value,
        from[i].labels@.dom().contains("__name__"@) ==> out[i].metric_name@
            == from[i].labels@["__name__"@]@,
{
    assert(is_asked_sample(out[i], from[i]));
}

/// Storing rows of different instances adds each to the buffer of its own instance and touches no
/// other.
pub proof fn rows_go_to_their_own_buffers<V>(
    buffers: Map<Seq<char>, crate::controller::metrics_buffer::BufferView<V>>,
    rows: Seq<InstanceRow<V>>,
    k: Seq<char>,
)
    requires
        forall|i: int, j: int|
            0 <= i < j < rows.len() ==> #[trigger] rows[i].identity != #[trigger] rows[j].identity,
    ensures
        forall|i: int|
            0 <= i < rows.len() && #[trigger] rows[i].identity == k ==> stored(
                buffers,
                rows,
            ).dom().contains(k) && stored(buffers, rows)[k]
                == crate::controller::metrics_buffer::appended(buffer_of(buffers, k), rows[i].row),
        (forall|i: int| 0 <= i < rows.len() ==> #[trigger] rows[i].identity != k) ==> (stored(
            buffers,
            rows,
        ).dom().contains(k) <==> buffers.dom().contains(k)) && (buffers.dom().contains(k)
            ==> stored(buffers, rows)[k] == buffers[k]),
    decreases rows.len(),
{
    if rows.len() > 0 {
        let front = rows.drop_last();
        let n = rows.len() - 1;
        assert(rows[n] == rows.last());
        assert forall|i: int, j: int| 0 <= i < j < front.len() implies #[trigger] front[i].identity
            != #[trigger] front[j].identity by {
            assert(rows[i].identity != rows[j].identity);
        }
        rows_go_to_their_own_buffers(buffers, front, k);
        assert forall|i: int| 0 <= i < rows.len() && #[trigger] rows[i].identity == k implies stored(
            buffers,
            rows,
        ).dom().contains(k) && stored(buffers, rows)[k]
            == crate::controller::metrics_buffer::appended(buffer_of(buffers, k), rows[i].row) by {
            if i < n {
                assert(front[i].identity == k);
                assert(rows[i].identity != rows[n].identity);
            } else {
                assert forall|j: int| 0 <= j < front.len() implies #[trigger] front[j].identity
                    != k by {
                    assert(rows[j].identity != rows[n].identity);
                }
            }
        }
        if forall|i: int| 0 <= i < rows.len() ==> #[trigger] rows[i].identity != k {
            assert(rows[n].identity != k);
            assert forall|i: int| 0 <= i < front.len() implies #[trigger] front[i].identity != k by {
                assert(rows[i].identity != k);
            }
        }
    }
}

/// A sample that was taken can be read at once: it is the last value of its metric for its
/// instance, at the time of the row that it stands in.
pub proof fn samples_can_be_read_back<V>(
    buffers: Map<Seq<char>, crate::controller::metrics_buffer::BufferView<V>>,
    samples: Seq<InstanceSample<V>>,
    source: SourceKind,
    latest: bool,
    k: int,
    missing: V,
)
    requires
        is_last_of_its_kind(samples, k),
        crate::controller::metrics_buffer::is_sound(buffer_of(buffers, samples[k].identity@)),
        forall|j: int|
            0 <= j < samples.len() && (#[trigger] samples[j]).identity@ == samples[k].identity@
                && buffer_of(buffers, samples[k].identity@).latest is Some
                ==> samples[j].timestamp_ms >= buffer_of(buffers, samples[k].identity@).latest->0
                - crate::controller::metrics_buffer::IN_MEMORY_WINDOW_MS,
    ensures
        ({
            let after = stored(buffers, grouped(samples, source, latest));
            let id = samples[k].identity@;
            let metric = samples[k].metric_name@;
            &&& after.dom().contains(id)
            &&& after[id].names.contains(metric)
            &&& last_values(after[id], metric, 1, missing).len() == 1
            &&& last_values(after[id], metric, 1, missing)[0].1 == samples[k].value
            &&& exists|j: int|
                0 <= j < samples.len() && (#[trigger] samples[j]).identity@ == id && last_values(
                    after[id],
                    metric,
                    1,
                    missing,
                )[0].0 == samples[j].timestamp_ms
        }),
{
    let rows = grouped(samples, source, latest);
    let id = samples[k].identity@;
    let metric = samples[k].metric_name@;
    samples_are_in_their_rows(samples, source, latest, k);
    one_row_for_an_instance(samples, source, latest);
    let i = choose|i: int|
        0 <= i < rows.len() && ({
            let row = #[trigger] rows[i];
            &&& row.identity == samples[k].identity@
            &&& row.row.source == source
            &&& row.row.values.dom().contains(samples[k].metric_name@)
            &&& row.row.values[samples[k].metric_name@] == samples[k].value
        });
    rows_have_the_time_of_a_sample(samples, source, latest, i);
    rows_go_to_their_own_buffers(buffers, rows, id);
    assert(rows[i].identity == id);
    crate::controller::metrics_buffer::appended_rows_are_kept(buffer_of(buffers, id), rows[i].row);
    let after = stored(buffers, rows)[id];
    assert(after.rows.last() == rows[i].row);
    let last = last_values(after, metric, 1, missing);
    assert(last.len() == 1);
    let j = choose|j: int|
        0 <= j < samples.len() && (#[trigger] samples[j]).identity@ == rows[i].identity
            && samples[j].timestamp_ms == rows[i].row.timestamp && (!latest ==> forall|l: int|
            0 <= l < j ==> (#[trigger] samples[l]).identity@ != samples[j].identity@);
    assert(samples[j].identity@ == id);
}

/// Every instance that has changed rows to write gets a job for the file of its own name in the
/// folder, with all of them.
pub proof fn waiting_rows_are_handed_out<V>(
    jobs: Seq<CsvWriteJob<V>>,
    buffers: Map<Seq<char>, crate::controller::metrics_buffer::BufferView<V>>,
    revisions: Map<Seq<char>, u64>,
    folder: Seq<char>,
    identity: Seq<char>,
)
    requires
        are_jobs(jobs, buffers, revisions, folder),
        revisions.dom().contains(identity),
        buffers.dom().contains(identity),
        buffers[identity].pending.len() > 0,
    ensures
        exists|i: int|
            0 <= i < jobs.len() && (#[trigger] jobs[i]).identity@ == identity && jobs[i].revision
                == revisions[identity] && crate::controller::metrics_buffer::row_views(
                jobs[i].snapshot.rows@,
            ) == buffers[identity].pending && jobs[i].path@
                == crate::surroundings::joined_path(
                folder,
                crate::controller::metrics_csv::file_name(identity),
            ),
{
    assert(has_waiting(buffers, identity));
    let i = choose|i: int| 0 <= i < jobs.len() && #[trigger] jobs[i].identity@ == identity;
    assert(is_job(jobs[i], buffers, revisions, folder));
}

/// Waiting for the next run ends when it is due, not later; a run that is late is not waited for
/// longer than a period; and the next run is one that has not been.
pub proof fn runs_come_in_time(
    elapsed_ns: u64,
    index: u64,
    period_ns: u64,
    skip_ns: u64,
    catchup_ns: u64,
)
    requires
        period_ns > 0,
        elapsed_ns < u64::MAX,
        index < 0x1_0000_0000,
        period_ns * index <= u64::MAX,
    ensures
        ({
            let tick = tick_of(elapsed_ns, index, period_ns, skip_ns, catchup_ns);
            &&& elapsed_ns < period_ns * index ==> elapsed_ns + tick.wait_ns == period_ns * index
                && tick.next == index + 1
            &&& elapsed_ns >= period_ns * index ==> tick.wait_ns <= period_ns
            &&& elapsed_ns >= period_ns * index && elapsed_ns - period_ns * index >= skip_ns
                ==> tick.wait_ns == 0 && elapsed_ns < period_ns * tick.next
            &&& elapsed_ns >= period_ns * index && elapsed_ns - period_ns * index < skip_ns
                ==> tick.next == index + 1
            &&& elapsed_ns == period_ns * index && skip_ns > 0 ==> tick.wait_ns == period_ns
        }),
{
    assert(index % 0x1_0000_0000 == index);
    let q = elapsed_ns / period_ns;
    assert(elapsed_ns < period_ns * (q + 1) && q <= elapsed_ns) by (nonlinear_arith)
        requires
            period_ns > 0,
            q == elapsed_ns / period_ns,
    ;
}

/// Every metric is asked for: its name stands in one of the queries.
pub proof fn every_metric_is_asked_for(names: Seq<Seq<char>>, i: int)
    requires
        0 <= i < names.len(),
    ensures
        exists|q: int, group: Seq<Seq<char>>|
            0 <= q < batch_queries(names).len() && #[trigger] batch_queries(names)[q]
                == "{__name__=~\""@ + #[trigger] crate::text::joined(group, "|"@) + "\"}"@
                && group.contains(names[i]),
{
    let groups = crate::batching::batches(names, QUERY_CHUNK as int);
    let g = crate::batching::everything_is_in_a_group(names, QUERY_CHUNK as int, i);
    assert(batch_queries(names)[g] == "{__name__=~\""@ + crate::text::joined(groups[g], "|"@)
        + "\"}"@);
}

/// Writing rows of an instance takes them out of what waits there, and touches no other instance.
pub proof fn writing_touches_one_instance<V>(
    buffers: Map<Seq<char>, crate::controller::metrics_buffer::BufferView<V>>,
    identity: Seq<char>,
    count: int,
    names: Seq<Seq<char>>,
    other: Seq<char>,
)
    requires
        buffers.dom().contains(identity),
        0 <= count <= buffers[identity].pending.len(),
    ensures
        ({
            let after = after_writing(buffers, identity, count, names);
            &&& after.dom().contains(identity)
            &&& after[identity].pending == buffers[identity].pending.skip(count)
            &&& after[identity].persisted == names
            &&& after[identity].rows == buffers[identity].rows
            &&& other != identity ==> after.dom().contains(other) == buffers.dom().contains(other)
            &&& other != identity && buffers.dom().contains(other) ==> after[other]
                == buffers[other]
        }),
{
    let b = buffers[identity];
    if count == b.pending.len() {
        assert(b.pending.skip(count) =~= Seq::empty());
    }
}

/// A change of an instance gives it the next revision, or the first one, and changes no other.
pub proof fn changes_count_up(
    revisions: Map<Seq<char>, u64>,
    identity: Seq<char>,
    other: Seq<char>,
)
    ensures
        ({
            let after = marked(revisions, identity);
            &&& after.dom().contains(identity)
            &&& !revisions.dom().contains(identity) ==> after[identity] == 1
            &&& revisions.dom().contains(identity) && revisions[identity] < u64::MAX
                ==> after[identity] == revisions[identity] + 1
            &&& revisions.dom().contains(identity) ==> after[identity] >= revisions[identity]
            &&& other != identity ==> after.dom().contains(other) == revisions.dom().contains(other)
            &&& other != identity && revisions.dom().contains(other) ==> after[other]
                == revisions[other]
        }),
{
}

/// While instances are being written all that waits in them is under way, and nothing is lost.
pub proof fn nothing_is_lost_in_writing<V>(
    buffers: Map<Seq<char>, crate::controller::metrics_buffer::BufferView<V>>,
    chosen: Set<Seq<char>>,
    k: Seq<char>,
)
    requires
        buffers.dom().contains(k),
    ensures
        ({
            let after = being_written(buffers, chosen);
            &&& after.dom().contains(k)
            &&& after[k].rows == buffers[k].rows && after[k].pending == buffers[k].pending
            &&& chosen.contains(k) ==> after[k].in_flight == buffers[k].pending.len()
            &&& !chosen.contains(k) ==> after[k] == buffers[k]
        }),
{
}

/// An instance stays marked as changed unless it was chosen and has nothing that waits.
pub proof fn waiting_instances_stay_changed<V>(
    revisions: Map<Seq<char>, u64>,
    buffers: Map<Seq<char>, crate::controller::metrics_buffer::BufferView<V>>,
    chosen: Set<Seq<char>>,
    k: Seq<char>,
)
    requires
        revisions.dom().contains(k),
    ensures
        buffers.dom().contains(k) && buffers[k].pending.len() > 0 ==> still_changed(
            revisions,
            buffers,
            chosen,
        ).dom().contains(k) && still_changed(revisions, buffers, chosen)[k] == revisions[k],
        !chosen.contains(k) ==> still_changed(revisions, buffers, chosen).dom().contains(k),
{
}

/// A target was read at the time that it gives, else now.
pub proof fn targets_are_read_at_their_time(scraped_at_ms: u64, now_ms: i64)
    ensures
        scraped_at_ms <= i64::MAX ==> read_at(Some(scraped_at_ms), now_ms) == scraped_at_ms,
        read_at(None, now_ms) == now_ms,
{
}

/// A sample of an agent keeps its metric and its value, and its time where it has one.
pub proof fn agent_samples_are_kept<V>(
    s: InstanceSample<V>,
    from: AgentPrometheusSample<V>,
    source_instance: Seq<char>,
    read_at_ms: i64,
)
    requires
        is_agent_sample(s, from, source_instance, read_at_ms),
    ensures
        s.metric_name@ == from.metric_name@,
        s.value == from.value,
        from.timestamp_ms matches Some(t) ==> s.timestamp_ms == t,
        from.timestamp_ms is None ==> s.timestamp_ms == read_at_ms,
{
}

} // verus!
