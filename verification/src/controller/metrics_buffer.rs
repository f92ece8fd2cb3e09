//! Samples of metrics that are kept in memory and wait to be written.

use std::collections::VecDeque;

use vstd::prelude::*;

use crate::sorted_map::SortedMap;
use crate::string_map::StringMap;
use crate::text::contains_text;

verus! {

/// The time between two writes, in milliseconds.
pub const WRITE_PERIOD_MS: u64 = 1_000;

/// How long samples are kept in memory, in milliseconds.
pub const IN_MEMORY_WINDOW_MS: u64 = 60_000;

/// The highest sample rate that is expected.
pub const MAX_EXPECTED_SAMPLE_RATE_HZ: usize = 120;

/// How many times the expected number of rows is kept in memory.
pub const IN_MEMORY_ROW_HEADROOM: usize = 2;

/// How many write periods rows may wait.
pub const PENDING_WRITE_PERIOD_HEADROOM: u64 = 8;

/// How many times the expected number of rows may wait.
pub const PENDING_ROW_HEADROOM: usize = 2;

/// How many rows are kept beyond the expected number.
pub const ROW_CAPACITY_MARGIN: usize = 16;

/// How many rows of an instance are kept in memory.
pub const MAX_ROWS_PER_INSTANCE: usize = 14_416;

/// How many rows of an instance may wait.
pub const MAX_PENDING_ROWS_PER_INSTANCE: usize = 1_936;

/// A number, or the largest one that fits where it does not.
pub open spec fn capped(n: nat) -> nat {
    if n > usize::MAX {
        usize::MAX as nat
    } else {
        n
    }
}

/// The number of rows that a duration may bring, with headroom and margin.
pub open spec fn row_capacity(duration_ms: nat, sample_rate_hz: nat, headroom: nat) -> nat {
    let nominal = capped(duration_ms * sample_rate_hz + 999) / 1_000;
    capped(capped(nominal * headroom) + ROW_CAPACITY_MARGIN as nat)
}

/// The limits on rows follow from the window and from the write period.
pub proof fn limits_follow_from_the_periods()
    ensures
        MAX_ROWS_PER_INSTANCE == row_capacity(
            IN_MEMORY_WINDOW_MS as nat,
            MAX_EXPECTED_SAMPLE_RATE_HZ as nat,
            IN_MEMORY_ROW_HEADROOM as nat,
        ),
        MAX_PENDING_ROWS_PER_INSTANCE == row_capacity(
            (WRITE_PERIOD_MS * PENDING_WRITE_PERIOD_HEADROOM) as nat,
            MAX_EXPECTED_SAMPLE_RATE_HZ as nat,
            PENDING_ROW_HEADROOM as nat,
        ),
{
}

/// The number of rows that a duration may bring, with headroom and margin; the largest number
/// that fits where it does not.
pub fn row_capacity_for_duration_ms(
    duration_ms: u64,
    sample_rate_hz: usize,
    headroom: usize,
) -> (r: usize)
    requires
        duration_ms <= usize::MAX,
        duration_ms * sample_rate_hz <= usize::MAX,
    ensures
        r == row_capacity(duration_ms as nat, sample_rate_hz as nat, headroom as nat),
{
    let samples: usize = duration_ms as usize * sample_rate_hz;
    let nominal: usize = samples.saturating_add(999) / 1_000;
    let rows: usize = match nominal.checked_mul(headroom) {
        Some(n) => n,
        None => usize::MAX,
    };
    rows.saturating_add(ROW_CAPACITY_MARGIN)
}

/// Where rows come from.
#[derive(Debug, Clone, Copy, PartialEq, Eq, Structural)]
pub enum SourceKind {
    /// Asked for.
    PrometheusPull,
    /// Sent by an agent.
    AgentWebsocket,
}

/// The name of a source.
pub open spec fn source_name(s: SourceKind) -> Seq<char> {
    match s {
        SourceKind::PrometheusPull => "prometheus_pull"@,
        SourceKind::AgentWebsocket => "agent_websocket"@,
    }
}

impl SourceKind {
    /// The name of the source.
    pub fn name(self) -> (r: &'static str)
        ensures
            r@ == source_name(self),
    {
        match self {
            SourceKind::PrometheusPull => "prometheus_pull",
            SourceKind::AgentWebsocket => "agent_websocket",
        }
    }
}

/// Samples of one instance at one time.
#[derive(Debug)]
pub struct NormalizedMetricRow<V> {
    pub timestamp_ms: i64,
    pub source_kind: SourceKind,
    pub identity: String,
    pub values: StringMap<V>,
}

/// Samples at one time.
#[derive(Debug)]
pub struct MetricRowRecord<V> {
    pub timestamp_ms: i64,
    pub source_kind: SourceKind,
    pub values: StringMap<V>,
}

/// What a [`MetricRowRecord`] says.
#[verifier::ext_equal]
#[verifier::reject_recursive_types(V)]
pub struct RowView<V> {
    pub timestamp: int,
    pub source: SourceKind,
    pub values: Map<Seq<char>, V>,
}

impl<V> View for MetricRowRecord<V> {
    type V = RowView<V>;

    open spec fn view(&self) -> RowView<V> {
        RowView {
            timestamp: self.timestamp_ms as int,
            source: self.source_kind,
            values: self.values@,
        }
    }
}

/// What rows say.
pub open spec fn row_views<V>(v: Seq<MetricRowRecord<V>>) -> Seq<RowView<V>> {
    Seq::new(v.len(), |i: int| v[i]@)
}

/// The samples of an instance.
#[derive(Debug)]
pub struct MetricInstanceBuffer<V> {
    pub metric_names: SortedMap<()>,
    pub rows: VecDeque<MetricRowRecord<V>>,
    pub pending_rows: VecDeque<MetricRowRecord<V>>,
    pub pending_rows_in_flight: usize,
    pub persisted_metric_names: Vec<String>,
    pub latest_timestamp_ms: Option<i64>,
    pub timestamps_are_ordered: bool,
    pub pending_overflow_warned: bool,
}

/// What a [`MetricInstanceBuffer`] holds.
#[verifier::ext_equal]
#[verifier::reject_recursive_types(V)]
pub struct BufferView<V> {
    pub names: Set<Seq<char>>,
    pub rows: Seq<RowView<V>>,
    pub pending: Seq<RowView<V>>,
    pub in_flight: int,
    pub persisted: Seq<Seq<char>>,
    pub latest: Option<int>,
    pub ordered: bool,
    pub warned: bool,
}

impl<V> View for MetricInstanceBuffer<V> {
    type V = BufferView<V>;

    open spec fn view(&self) -> BufferView<V> {
        BufferView {
            names: self.metric_names@.dom(),
            rows: row_views(self.rows@),
            pending: row_views(self.pending_rows@),
            in_flight: self.pending_rows_in_flight as int,
            persisted: crate::text::texts(self.persisted_metric_names@),
            latest: match self.latest_timestamp_ms {
                Some(t) => Some(t as int),
                None => None,
            },
            ordered: self.timestamps_are_ordered,
            warned: self.pending_overflow_warned,
        }
    }
}

/// Whether the times of rows do not descend.
pub open spec fn are_ordered<V>(rows: Seq<RowView<V>>) -> bool {
    forall|i: int, j: int|
        0 <= i <= j < rows.len() ==> (#[trigger] rows[i]).timestamp <= (
        #[trigger] rows[j]).timestamp
}

/// The earliest time that is kept in memory.
pub open spec fn window_start(latest: int) -> int {
    if latest - IN_MEMORY_WINDOW_MS < i64::MIN {
        i64::MIN as int
    } else {
        latest - IN_MEMORY_WINDOW_MS
    }
}

/// Whether a buffer keeps to its limits: the rows in memory are no more than allowed and lie
/// within the window, rows that wait are no more than allowed, and it is known whether times are
/// in order.
pub open spec fn is_sound<V>(b: BufferView<V>) -> bool {
    &&& b.rows.len() <= MAX_ROWS_PER_INSTANCE
    &&& b.pending.len() <= MAX_PENDING_ROWS_PER_INSTANCE
    &&& 0 <= b.in_flight <= b.pending.len()
    &&& b.ordered ==> are_ordered(b.rows)
    &&& b.rows.len() > 0 ==> b.latest is Some
    &&& forall|i: int|
        0 <= i < b.rows.len() ==> window_start(b.latest->0) <= (
        #[trigger] b.rows[i]).timestamp <= b.latest->0
}

/// A buffer without samples.
pub open spec fn empty_buffer<V>() -> BufferView<V> {
    BufferView {
        names: Set::empty(),
        rows: Seq::empty(),
        pending: Seq::empty(),
        in_flight: 0,
        persisted: Seq::empty(),
        latest: None,
        ordered: true,
        warned: false,
    }
}

/// Whether a row is at the same time and from the same source as another.
pub open spec fn repeats<V>(a: RowView<V>, b: RowView<V>) -> bool {
    a.timestamp == b.timestamp && a.source == b.source
}

/// Rows without the last one, where a row takes its place.
pub open spec fn without_repeated<V>(rows: Seq<RowView<V>>, row: RowView<V>) -> Seq<RowView<V>> {
    if rows.len() > 0 && repeats(rows.last(), row) {
        rows.drop_last()
    } else {
        rows
    }
}

/// The rows that are not before a time.
pub open spec fn not_before<V>(rows: Seq<RowView<V>>, cutoff: int) -> Seq<RowView<V>>
    decreases rows.len(),
{
    if rows.len() == 0 {
        Seq::empty()
    } else if rows.last().timestamp >= cutoff {
        not_before(rows.drop_last(), cutoff).push(rows.last())
    } else {
        not_before(rows.drop_last(), cutoff)
    }
}

/// The last rows, no more than a number.
pub open spec fn newest<T>(rows: Seq<T>, limit: int) -> Seq<T> {
    if rows.len() > limit {
        rows.skip(rows.len() - limit)
    } else {
        rows
    }
}

/// The latest time after a row.
pub open spec fn later(latest: Option<int>, timestamp: int) -> int {
    match latest {
        Some(l) if l > timestamp => l,
        _ => timestamp,
    }
}

/// The rows that wait after a row, before the limit applies. A repeated row takes the place of
/// the last one, unless that one is being written.
pub open spec fn awaiting<V>(b: BufferView<V>, row: RowView<V>) -> Seq<RowView<V>> {
    if b.pending.len() > b.in_flight {
        without_repeated(b.pending, row).push(row)
    } else {
        b.pending.push(row)
    }
}

/// The buffer after a row. In memory, a repeated row takes the place of the last one, what has
/// left the window is dropped, and so are the oldest rows over the limit.
pub open spec fn appended<V>(b: BufferView<V>, row: RowView<V>) -> BufferView<V> {
    let latest = later(b.latest, row.timestamp);
    let recent = not_before(without_repeated(b.rows, row).push(row), window_start(latest));
    let pending = awaiting(b, row);
    let dropped = pending.len() - newest(pending, MAX_PENDING_ROWS_PER_INSTANCE as int).len();
    BufferView {
        names: b.names.union(row.values.dom()),
        rows: newest(recent, MAX_ROWS_PER_INSTANCE as int),
        pending: newest(pending, MAX_PENDING_ROWS_PER_INSTANCE as int),
        in_flight: if b.in_flight > dropped {
            b.in_flight - dropped
        } else {
            0
        },
        persisted: b.persisted,
        latest: Some(latest),
        ordered: are_ordered(recent),
        warned: b.warned || dropped > 0,
    }
}

proof fn keeping_keeps_order<V>(rows: Seq<RowView<V>>, cutoff: int)
    ensures
        not_before(rows, cutoff).len() <= rows.len(),
        are_ordered(rows) ==> are_ordered(not_before(rows, cutoff)),
        forall|i: int|
            0 <= i < not_before(rows, cutoff).len() ==> (#[trigger] not_before(
                rows,
                cutoff,
            )[i]).timestamp >= cutoff,
        forall|i: int|
            0 <= i < not_before(rows, cutoff).len() ==> rows.contains(
                #[trigger] not_before(rows, cutoff)[i],
            ),
    decreases rows.len(),
{
    if rows.len() > 0 {
        let front = rows.drop_last();
        keeping_keeps_order(front, cutoff);
        let kept = not_before(front, cutoff);
        let now = not_before(rows, cutoff);
        if are_ordered(rows) {
            assert(are_ordered(front)) by {
                assert forall|i: int, j: int| 0 <= i <= j < front.len() implies (
                #[trigger] front[i]).timestamp <= (#[trigger] front[j]).timestamp by {
                    assert(rows[i].timestamp <= rows[j].timestamp);
                }
            }
        }
        assert forall|i: int| 0 <= i < now.len() implies rows.contains(#[trigger] now[i]) by {
            if i < kept.len() {
                assert(now[i] == kept[i]);
                let k = front.index_of(kept[i]);
                assert(rows[k] == now[i]);
            } else {
                assert(rows[rows.len() - 1] == now[i]);
            }
        }
        if are_ordered(rows) {
            assert forall|i: int, j: int| 0 <= i <= j < now.len() implies (
            #[trigger] now[i]).timestamp <= (#[trigger] now[j]).timestamp by {
                if j < kept.len() {
                    assert(kept[i].timestamp <= kept[j].timestamp);
                } else if i < kept.len() {
                    let k = rows.index_of(now[i]);
                    assert(rows[k].timestamp <= rows[rows.len() - 1].timestamp);
                }
            }
        }
    }
}

/// Rows in order lose a beginning only.
proof fn keeping_of_ordered<V>(rows: Seq<RowView<V>>, cutoff: int, n: int)
    requires
        0 <= n <= rows.len(),
        forall|i: int| 0 <= i < n ==> (#[trigger] rows[i]).timestamp < cutoff,
        forall|i: int| n <= i < rows.len() ==> (#[trigger] rows[i]).timestamp >= cutoff,
    ensures
        not_before(rows, cutoff) == rows.skip(n),
    decreases rows.len(),
{
    if rows.len() == 0 {
        assert(rows.skip(n) =~= Seq::<RowView<V>>::empty());
    } else if n == rows.len() {
        assert forall|i: int| 0 <= i < rows.drop_last().len() implies (
        #[trigger] rows.drop_last()[i]).timestamp < cutoff by {
            assert(rows[i].timestamp < cutoff);
        }
        keeping_of_ordered(rows.drop_last(), cutoff, n - 1);
        assert(rows[rows.len() - 1].timestamp < cutoff);
        assert(rows.skip(n) =~= rows.drop_last().skip(n - 1));
    } else {
        assert forall|i: int| 0 <= i < n implies (#[trigger] rows.drop_last()[i]).timestamp
            < cutoff by {
            assert(rows[i].timestamp < cutoff);
        }
        assert forall|i: int| n <= i < rows.drop_last().len() implies (
        #[trigger] rows.drop_last()[i]).timestamp >= cutoff by {
            assert(rows[i].timestamp >= cutoff);
        }
        keeping_of_ordered(rows.drop_last(), cutoff, n);
        assert(rows[rows.len() - 1].timestamp >= cutoff);
        assert(rows.skip(n) =~= rows.drop_last().skip(n).push(rows.last()));
    }
}

/// A buffer that keeps to its limits does so after every row.
pub proof fn appending_is_sound<V>(b: BufferView<V>, row: RowView<V>)
    requires
        is_sound(b),
        i64::MIN <= row.timestamp,
    ensures
        is_sound(appended(b, row)),
{
    let latest = later(b.latest, row.timestamp);
    let all = without_repeated(b.rows, row).push(row);
    let recent = not_before(all, window_start(latest));
    let after = appended(b, row);
    keeping_keeps_order(all, window_start(latest));
    if after.ordered {
        assert forall|i: int, j: int| 0 <= i <= j < after.rows.len() implies (
        #[trigger] after.rows[i]).timestamp <= (#[trigger] after.rows[j]).timestamp by {
            let d = recent.len() - after.rows.len();
            assert(after.rows[i] == recent[i + d]);
            assert(after.rows[j] == recent[j + d]);
        }
    }
    assert forall|i: int| 0 <= i < after.rows.len() implies window_start(after.latest->0) <= (
    #[trigger] after.rows[i]).timestamp <= after.latest->0 by {
        let d = recent.len() - after.rows.len();
        assert(after.rows[i] == recent[i + d]);
        assert(all.contains(recent[i + d]));
        let k = all.index_of(recent[i + d]);
        if k < all.len() - 1 {
            assert(all[k] == b.rows[k]);
        }
    }
}

/// As long as the limit is not reached, rows that wait stay until they were written, whatever
/// leaves the memory: a new row is added, and takes at most the place of a repeated one.
pub proof fn waiting_rows_stay<V>(b: BufferView<V>, row: RowView<V>, i: int)
    requires
        is_sound(b),
        b.pending.len() < MAX_PENDING_ROWS_PER_INSTANCE,
        0 <= i < b.pending.len(),
        i < b.pending.len() - 1 || i < b.in_flight || !repeats(b.pending[i], row),
    ensures
        i < appended(b, row).pending.len(),
        appended(b, row).pending[i] == b.pending[i],
        appended(b, row).pending.last() == row,
        appended(b, row).in_flight == b.in_flight,
{
}

/// What is wanted cannot be given.
#[derive(Debug, Clone)]
pub enum MetricsLoggerError {
    /// A request failed.
    Reqwest(String),
    /// Reading or writing failed.
    Io(String),
    /// A document could not be understood.
    Serde(String),
    /// A task was lost.
    TaskJoin(String),
    MissingData,
    AlreadyRunning,
    NotRunning,
    LoggerNotInitialized,
}

/// What waits to be written.
#[derive(Debug)]
pub struct MetricFlushSnapshot<V> {
    pub metric_names: Vec<String>,
    pub previous_metric_names: Vec<String>,
    pub rows: Vec<MetricRowRecord<V>>,
    pub pending_row_count: usize,
    pub rewrite_existing: bool,
}

/// Whether names are those that were written, followed by the other names of a set in ascending
/// order.
pub open spec fn is_schema(
    names: Seq<Seq<char>>,
    persisted: Seq<Seq<char>>,
    set: Set<Seq<char>>,
) -> bool {
    &&& persisted.len() <= names.len()
    &&& names.take(persisted.len() as int) == persisted
    &&& crate::sorted_map::are_sorted_keys(
        names.skip(persisted.len() as int),
        set.difference(persisted.to_set()),
    )
}

/// The value of a metric in a row.
pub open spec fn value_in<V>(row: RowView<V>, metric: Seq<char>, missing: V) -> V {
    if row.values.dom().contains(metric) {
        row.values[metric]
    } else {
        missing
    }
}

/// The values of a metric in rows, with their times.
pub open spec fn series<V>(rows: Seq<RowView<V>>, metric: Seq<char>, missing: V) -> Seq<(int, V)> {
    Seq::new(rows.len(), |i: int| (rows[i].timestamp, value_in(rows[i], metric, missing)))
}

/// Whether times and values are a series.
pub open spec fn is_series<V>(v: Seq<(i64, V)>, s: Seq<(int, V)>) -> bool {
    &&& v.len() == s.len()
    &&& forall|i: int| 0 <= i < v.len() ==> (#[trigger] v[i]).0 == s[i].0 && v[i].1 == s[i].1
}

/// The latest time of rows.
pub open spec fn latest_of<V>(rows: Seq<RowView<V>>) -> int
    decreases rows.len(),
{
    if rows.len() == 0 {
        i64::MIN as int
    } else {
        let before = latest_of(rows.drop_last());
        if rows.last().timestamp > before {
            rows.last().timestamp
        } else {
            before
        }
    }
}

/// A time that is earlier by a duration that is not negative.
pub open spec fn earlier(time: int, duration: int) -> int {
    let start = time - if duration > 0 {
        duration
    } else {
        0
    };
    if start < i64::MIN {
        i64::MIN as int
    } else {
        start
    }
}

/// A copy of the values of a row.
pub fn copy_values<V: Copy>(m: &StringMap<V>) -> (r: StringMap<V>)
    ensures
        r@ == m@,
{
    let mut out: StringMap<V> = StringMap::new();
    let ghost list = m.list();
    let mut i: usize = 0;
    assert(list.take(0) =~= Seq::<(String, V)>::empty());
    while i < m.len()
        invariant
            i <= list.len(),
            list == m.list(),
            out@ == crate::string_map::entries_map(list.take(i as int)),
        decreases list.len() - i,
    {
        assert(list.take(i + 1).drop_last() =~= list.take(i as int));
        let (key, value) = m.entry(i);
        out.insert(key.clone(), *value);
        i += 1;
    }
    assert(list.take(i as int) =~= list);
    proof {
        m.list_is_the_map();
    }
    out
}

impl<V: Copy> Clone for MetricRowRecord<V> {
    fn clone(&self) -> (r: Self)
        ensures
            r@ == self@,
    {
        MetricRowRecord {
            timestamp_ms: self.timestamp_ms,
            source_kind: self.source_kind,
            values: copy_values(&self.values),
        }
    }
}

/// The earliest time that is kept in memory.
pub fn in_memory_window_start_ms(latest_timestamp_ms: i64) -> (r: i64)
    ensures
        r == window_start(latest_timestamp_ms as int),
{
    if latest_timestamp_ms < i64::MIN + 60_000 {
        i64::MIN
    } else {
        latest_timestamp_ms - 60_000
    }
}

/// Whether the times of rows do not descend.
pub fn timestamps_are_ordered<V>(rows: &VecDeque<MetricRowRecord<V>>) -> (r: bool)
    ensures
        r == are_ordered(row_views(rows@)),
{
    let ghost all = row_views(rows@);
    let mut i: usize = 1;
    while i < rows.len()
        invariant
            1 <= i,
            all == row_views(rows@),
            i <= rows@.len() || rows@.len() == 0,
            forall|a: int, b: int|
                0 <= a <= b < i && b < all.len() ==> (#[trigger] all[a]).timestamp <= (
                #[trigger] all[b]).timestamp,
        decreases rows@.len() - i,
    {
        assert(all[i - 1] == rows@[i - 1]@);
        assert(all[i as int] == rows@[i as int]@);
        if rows[i].timestamp_ms < rows[i - 1].timestamp_ms {
            return false;
        }
        assert forall|a: int, b: int| 0 <= a <= b < i + 1 && b < all.len() implies (
        #[trigger] all[a]).timestamp <= (#[trigger] all[b]).timestamp by {
            if b == i && a < i {
                assert(all[a].timestamp <= all[i - 1].timestamp);
            }
        }
        i += 1;
    }
    true
}

fn keep_newest<V>(rows: &mut VecDeque<MetricRowRecord<V>>, limit: usize)
    ensures
        row_views(final(rows)@) == newest(row_views(old(rows)@), limit as int),
{
    let ghost all = row_views(rows@);
    let ghost mut n: int = 0;
    assert(all.skip(0) =~= all);
    while rows.len() > limit
        invariant
            0 <= n,
            row_views(rows@) == all.skip(n),
            rows@.len() == all.len() - n,
            n > 0 ==> all.len() - n >= limit,
        decreases rows@.len(),
    {
        let ghost before = rows@;
        let dropped = rows.pop_front();
        assert(row_views(rows@) =~= row_views(before).skip(1));
        assert(all.skip(n).skip(1) =~= all.skip(n + 1));
        proof {
            n = n + 1;
        }
    }
}

impl<V: Copy> MetricInstanceBuffer<V> {
    /// A buffer without samples.
    pub fn new() -> (r: Self)
        ensures
            r@ == empty_buffer::<V>(),
            is_sound(r@),
    {
        let r = MetricInstanceBuffer {
            metric_names: SortedMap::new(),
            rows: VecDeque::new(),
            pending_rows: VecDeque::new(),
            pending_rows_in_flight: 0,
            persisted_metric_names: Vec::new(),
            latest_timestamp_ms: None,
            timestamps_are_ordered: true,
            pending_overflow_warned: false,
        };
        assert(r@.names =~= Set::<Seq<char>>::empty());
        assert(r@ =~= empty_buffer::<V>());
        r
    }

    fn learn_names(&mut self, values: &StringMap<V>)
        ensures
            final(self)@.names == old(self)@.names.union(values@.dom()),
            final(self)@ == (BufferView { names: final(self)@.names, ..old(self)@ }),
            final(self).rows == old(self).rows,
            final(self).pending_rows == old(self).pending_rows,
            final(self).pending_rows_in_flight == old(self).pending_rows_in_flight,
            final(self).latest_timestamp_ms == old(self).latest_timestamp_ms,
    {
        let ghost before = *self;
        let ghost list = values.list();
        let mut i: usize = 0;
        assert(list.take(0) =~= Seq::<(String, V)>::empty());
        assert(before@.names.union(Set::<Seq<char>>::empty()) =~= before@.names);
        while i < values.len()
            invariant
                i <= list.len(),
                list == values.list(),
                self@.names == before@.names.union(
                    crate::string_map::entries_map(list.take(i as int)).dom(),
                ),
                self@ == (BufferView { names: self@.names, ..before@ }),
                self.rows == before.rows,
                self.pending_rows == before.pending_rows,
                self.pending_rows_in_flight == before.pending_rows_in_flight,
                self.latest_timestamp_ms == before.latest_timestamp_ms,
            decreases list.len() - i,
        {
            assert(list.take(i + 1).drop_last() =~= list.take(i as int));
            let ghost known = self@.names;
            let (key, _value) = values.entry(i);
            self.metric_names.insert(key.clone(), ());
            assert(self@.names =~= known.insert(key@));
            assert(self@.names =~= before@.names.union(
                crate::string_map::entries_map(list.take(i + 1)).dom(),
            ));
            i += 1;
        }
        assert(list.take(i as int) =~= list);
        proof {
            values.list_is_the_map();
        }
    }

    /// Takes out the last row in memory where a row takes its place, and notes whether the row
    /// comes out of order.
    fn make_way(&mut self, record: &MetricRowRecord<V>)
        requires
            old(self)@.ordered ==> are_ordered(old(self)@.rows),
        ensures
            final(self)@ == (BufferView {
                rows: without_repeated(old(self)@.rows, record@),
                ordered: final(self)@.ordered,
                ..old(self)@
            }),
            final(self)@.ordered ==> are_ordered(
                without_repeated(old(self)@.rows, record@).push(record@),
            ),
    {
        let ghost before = self@;
        let ghost given = self.rows@;
        let ghost base = without_repeated(before.rows, record@);
        let n: usize = self.rows.len();
        if n > 0 {
            let last_time: i64 = self.rows[n - 1].timestamp_ms;
            let last_source = self.rows[n - 1].source_kind;
            assert(before.rows.last() == given[n - 1]@);
            if last_time == record.timestamp_ms && last_source == record.source_kind {
                let replaced = self.rows.pop_back();
                assert(row_views(self.rows@) =~= before.rows.drop_last());
            } else if record.timestamp_ms < last_time {
                self.timestamps_are_ordered = false;
            }
        }
        assert(row_views(self.rows@) =~= base);
        proof {
            let all = base.push(record@);
            if self.timestamps_are_ordered {
                assert forall|i: int, j: int| 0 <= i <= j < all.len() implies (
                #[trigger] all[i]).timestamp <= (#[trigger] all[j]).timestamp by {
                    if j < base.len() {
                        assert(all[i] == before.rows[i]);
                        assert(all[j] == before.rows[j]);
                    } else if i < base.len() {
                        assert(all[i] == before.rows[i]);
                        assert(before.rows[i].timestamp <= before.rows[before.rows.len()
                            - 1].timestamp);
                    }
                }
            }
        }
        assert(self@ =~= (BufferView { rows: base, ordered: self@.ordered, ..before }));
    }

    /// Adds a row to those that wait.
    fn await_writing(&mut self, record: MetricRowRecord<V>)
        ensures
            ({
                let pending = awaiting(old(self)@, record@);
                let left = newest(pending, MAX_PENDING_ROWS_PER_INSTANCE as int);
                let dropped = pending.len() - left.len();
                final(self)@ == (BufferView {
                    pending: left,
                    in_flight: if old(self)@.in_flight > dropped {
                        old(self)@.in_flight - dropped
                    } else {
                        0
                    },
                    warned: old(self)@.warned || dropped > 0,
                    ..old(self)@
                })
            }),
    {
        let ghost before = self@;
        let ghost added = record@;
        let p: usize = self.pending_rows.len();
        let ghost waiting = self.pending_rows@;
        assert(before.pending.len() == p);
        if p > self.pending_rows_in_flight {
            assert(before.pending.last() == waiting[p - 1]@);
            if self.pending_rows[p - 1].timestamp_ms == record.timestamp_ms && self.pending_rows[p
                - 1].source_kind == record.source_kind {
                let replaced = self.pending_rows.pop_back();
                assert(row_views(self.pending_rows@) =~= before.pending.drop_last());
            }
        }
        let ghost kept = row_views(self.pending_rows@);
        self.pending_rows.push_back(record);
        assert(row_views(self.pending_rows@) =~= kept.push(added));
        assert(row_views(self.pending_rows@) =~= awaiting(before, added));
        assert(self@ =~= (BufferView { pending: awaiting(before, added), ..before }));
        self.trim_pending_rows_after_backlog();
    }

    /// Adds a row.
    pub fn append(&mut self, row: NormalizedMetricRow<V>)
        requires
            is_sound(old(self)@),
        ensures
            final(self)@ == appended(
                old(self)@,
                (RowView {
                    timestamp: row.timestamp_ms as int,
                    source: row.source_kind,
                    values: row.values@,
                }),
            ),
            is_sound(final(self)@),
    {
        let ghost before = self@;
        let ghost added = RowView {
            timestamp: row.timestamp_ms as int,
            source: row.source_kind,
            values: row.values@,
        };
        proof {
            appending_is_sound(before, added);
        }
        self.learn_names(&row.values);
        let record = MetricRowRecord {
            timestamp_ms: row.timestamp_ms,
            source_kind: row.source_kind,
            values: row.values,
        };
        assert(record@ =~= added);
        self.make_way(&record);
        let latest: i64 = match self.latest_timestamp_ms {
            Some(l) => if l > record.timestamp_ms {
                l
            } else {
                record.timestamp_ms
            },
            None => record.timestamp_ms,
        };
        self.latest_timestamp_ms = Some(latest);
        self.await_writing(record.clone());
        let cutoff: i64 = in_memory_window_start_ms(latest);
        let ghost base = without_repeated(before.rows, added);
        let ghost all = base.push(added);
        assert(all.drop_last() =~= base);
        assert(self@.rows =~= base);
        if record.timestamp_ms < cutoff {
            assert(not_before(all, cutoff as int) == not_before(base, cutoff as int));
            proof {
                if self@.ordered {
                    assert forall|i: int, j: int| 0 <= i <= j < base.len() implies (
                    #[trigger] base[i]).timestamp <= (#[trigger] base[j]).timestamp by {
                        assert(all[i].timestamp <= all[j].timestamp);
                    }
                }
            }
        } else {
            let ghost with_pending = self@;
            self.rows.push_back(record);
            assert(self@.rows =~= all);
            assert(self@ =~= (BufferView { rows: all, ..with_pending }));
        }
        self.trim_to_window(cutoff);
    }

    /// Drops the rows before a time, and the oldest over the limit.
    fn trim_to_window(&mut self, cutoff_timestamp_ms: i64)
        requires
            old(self)@.ordered ==> are_ordered(old(self)@.rows),
        ensures
            ({
                let recent = not_before(old(self)@.rows, cutoff_timestamp_ms as int);
                final(self)@ == (BufferView {
                    rows: newest(recent, MAX_ROWS_PER_INSTANCE as int),
                    ordered: are_ordered(recent),
                    ..old(self)@
                })
            }),
    {
        let ghost before = self@;
        let ghost cutoff = cutoff_timestamp_ms as int;
        let ghost recent = not_before(before.rows, cutoff);
        if self.timestamps_are_ordered {
            let ghost mut n: int = 0;
            assert(before.rows.skip(0) =~= before.rows);
            while self.rows.len() > 0 && self.rows[0].timestamp_ms < cutoff_timestamp_ms
                invariant
                    0 <= n <= before.rows.len(),
                    cutoff == cutoff_timestamp_ms,
                    row_views(self.rows@) == before.rows.skip(n),
                    forall|i: int| 0 <= i < n ==> (#[trigger] before.rows[i]).timestamp < cutoff,
                    self@ == (BufferView { rows: self@.rows, ..before }),
                decreases self.rows@.len(),
            {
                let ghost was = self.rows@;
                assert(row_views(was).len() == was.len());
                assert(row_views(was)[0] == was[0]@);
                assert(n < before.rows.len());
                assert(before.rows.skip(n)[0] == before.rows[n]);
                let dropped = self.rows.pop_front();
                assert(row_views(self.rows@) =~= row_views(was).skip(1));
                assert(before.rows.skip(n).skip(1) =~= before.rows.skip(n + 1));
                assert(self@ =~= (BufferView { rows: self@.rows, ..before }));
                proof {
                    n = n + 1;
                }
            }
            proof {
                assert forall|i: int| n <= i < before.rows.len() implies (
                #[trigger] before.rows[i]).timestamp >= cutoff by {
                    assert(row_views(self.rows@)[0] == self.rows@[0]@);
                    assert(before.rows.skip(n)[0] == before.rows[n]);
                    assert(before.rows[n].timestamp <= before.rows[i].timestamp);
                }
                keeping_of_ordered(before.rows, cutoff, n);
                keeping_keeps_order(before.rows, cutoff);
            }
        } else {
            let mut rows: VecDeque<MetricRowRecord<V>> = VecDeque::new();
            std::mem::swap(&mut rows, &mut self.rows);
            let ghost given = rows@;
            let mut kept: VecDeque<MetricRowRecord<V>> = VecDeque::new();
            let ghost mut n: int = 0;
            assert(given.skip(0) =~= given);
            assert(before.rows.take(0) =~= Seq::<RowView<V>>::empty());
            assert(row_views(kept@) =~= Seq::<RowView<V>>::empty());
            while rows.len() > 0
                invariant
                    0 <= n <= given.len(),
                    cutoff == cutoff_timestamp_ms,
                    before.rows == row_views(given),
                    rows@ == given.skip(n),
                    row_views(kept@) == not_before(before.rows.take(n), cutoff),
                decreases rows@.len(),
            {
                let ghost was_kept = row_views(kept@);
                let next = rows.pop_front();
                assert(rows@ =~= given.skip(n + 1));
                assert(before.rows.take(n + 1).drop_last() =~= before.rows.take(n));
                if let Some(row) = next {
                    assert(row == given[n]);
                    assert(before.rows.take(n + 1).last() == row@);
                    if row.timestamp_ms >= cutoff_timestamp_ms {
                        kept.push_back(row);
                        assert(row_views(kept@) =~= was_kept.push(row@));
                    }
                }
                proof {
                    n = n + 1;
                }
            }
            assert(before.rows.take(n) =~= before.rows);
            self.rows = kept;
            self.timestamps_are_ordered = timestamps_are_ordered(&self.rows);
        }
        assert(row_views(self.rows@) =~= recent);
        let mut rows: VecDeque<MetricRowRecord<V>> = VecDeque::new();
        std::mem::swap(&mut rows, &mut self.rows);
        keep_newest(&mut rows, MAX_ROWS_PER_INSTANCE);
        self.rows = rows;
        assert(self@ =~= (BufferView {
            rows: newest(recent, MAX_ROWS_PER_INSTANCE as int),
            ordered: are_ordered(recent),
            ..before
        }));
    }

    /// Drops the oldest rows that wait over the limit.
    fn trim_pending_rows_after_backlog(&mut self)
        ensures
            ({
                let pending = old(self)@.pending;
                let left = newest(pending, MAX_PENDING_ROWS_PER_INSTANCE as int);
                let dropped = pending.len() - left.len();
                final(self)@ == (BufferView {
                    pending: left,
                    in_flight: if old(self)@.in_flight > dropped {
                        old(self)@.in_flight - dropped
                    } else {
                        0
                    },
                    warned: old(self)@.warned || dropped > 0,
                    ..old(self)@
                })
            }),
            final(self).rows == old(self).rows,
            final(self).timestamps_are_ordered == old(self).timestamps_are_ordered,
            final(self).latest_timestamp_ms == old(self).latest_timestamp_ms,
    {
        let ghost before = self@;
        let n: usize = self.pending_rows.len();
        if n > MAX_PENDING_ROWS_PER_INSTANCE {
            let dropped: usize = n - MAX_PENDING_ROWS_PER_INSTANCE;
            let mut pending: VecDeque<MetricRowRecord<V>> = VecDeque::new();
            std::mem::swap(&mut pending, &mut self.pending_rows);
            keep_newest(&mut pending, MAX_PENDING_ROWS_PER_INSTANCE);
            self.pending_rows = pending;
            self.pending_rows_in_flight = self.pending_rows_in_flight.saturating_sub(dropped);
            self.pending_overflow_warned = true;
        }
        let ghost left = newest(before.pending, MAX_PENDING_ROWS_PER_INSTANCE as int);
        assert(row_views(self.pending_rows@) =~= left);
        let ghost dropped = before.pending.len() - left.len();
        assert(self@ =~= (BufferView {
            pending: left,
            in_flight: if before.in_flight > dropped {
                before.in_flight - dropped
            } else {
                0
            },
            warned: before.warned || dropped > 0,
            ..before
        }));
    }

    /// The names of the metrics, in ascending order.
    pub fn metric_names(&self) -> (r: Vec<String>)
        ensures
            crate::sorted_map::are_sorted_keys(crate::text::texts(r@), self@.names),
    {
        self.metric_names.keys()
    }
}

/// Whether a snapshot is what waits in a buffer.
pub open spec fn is_snapshot<V>(s: MetricFlushSnapshot<V>, b: BufferView<V>) -> bool {
    let names = crate::text::texts(s.metric_names@);
    &&& row_views(s.rows@) == b.pending
    &&& s.pending_row_count == b.pending.len()
    &&& crate::text::texts(s.previous_metric_names@) == b.persisted
    &&& is_schema(names, b.persisted, b.names)
    &&& s.rewrite_existing == (b.persisted.len() > 0 && names.len() > b.persisted.len())
}

/// The buffer after rows were written.
pub open spec fn flushed<V>(b: BufferView<V>, count: int, names: Seq<Seq<char>>) -> BufferView<V> {
    let left = if count < b.pending.len() {
        b.pending.skip(count)
    } else {
        Seq::empty()
    };
    BufferView {
        pending: left,
        in_flight: 0,
        persisted: names,
        warned: b.warned && left.len() >= MAX_PENDING_ROWS_PER_INSTANCE,
        ..b
    }
}

/// The buffer while what waits is being written.
pub open spec fn in_writing<V>(b: BufferView<V>) -> BufferView<V> {
    BufferView { in_flight: b.pending.len() as int, ..b }
}

/// The buffer after rows, one after another.
pub open spec fn appended_all<V>(b: BufferView<V>, rows: Seq<RowView<V>>) -> BufferView<V>
    decreases rows.len(),
{
    if rows.len() == 0 {
        b
    } else {
        appended(appended_all(b, rows.drop_last()), rows.last())
    }
}

/// Rows that are being written stay in front of those that wait, as long as there is room for
/// the rows that come in the meantime.
pub proof fn rows_in_writing_stay<V>(b: BufferView<V>, rows: Seq<RowView<V>>)
    requires
        is_sound(b),
        b.pending.len() + rows.len() <= MAX_PENDING_ROWS_PER_INSTANCE,
        forall|i: int| 0 <= i < rows.len() ==> i64::MIN <= (#[trigger] rows[i]).timestamp,
    ensures
        ({
            let after = appended_all(in_writing(b), rows);
            &&& is_sound(after)
            &&& after.in_flight == b.pending.len()
            &&& after.pending.len() <= b.pending.len() + rows.len()
            &&& after.pending.take(b.pending.len() as int) == b.pending
        }),
    decreases rows.len(),
{
    if rows.len() == 0 {
        assert(b.pending.take(b.pending.len() as int) =~= b.pending);
    } else {
        let front = rows.drop_last();
        assert forall|i: int| 0 <= i < front.len() implies i64::MIN <= (
        #[trigger] front[i]).timestamp by {
            assert(rows[i].timestamp >= i64::MIN);
        }
        rows_in_writing_stay(b, front);
        let before = appended_all(in_writing(b), front);
        assert(rows[rows.len() - 1].timestamp >= i64::MIN);
        appending_is_sound(before, rows.last());
        let after = appended(before, rows.last());
        assert(awaiting(before, rows.last()).len() <= before.pending.len() + 1);
        assert(after.pending == awaiting(before, rows.last()));
        assert(after.pending.take(b.pending.len() as int) =~= before.pending.take(
            b.pending.len() as int,
        ));
    }
}

/// What was written leaves the rows that wait, and nothing else does: of the rows that came in
/// the meantime none is lost, as long as there was room for them.
pub proof fn writing_takes_what_was_written<V>(
    b: BufferView<V>,
    rows: Seq<RowView<V>>,
    names: Seq<Seq<char>>,
)
    requires
        is_sound(b),
        b.pending.len() + rows.len() <= MAX_PENDING_ROWS_PER_INSTANCE,
        forall|i: int| 0 <= i < rows.len() ==> i64::MIN <= (#[trigger] rows[i]).timestamp,
    ensures
        ({
            let after = appended_all(in_writing(b), rows);
            &&& b.pending + flushed(after, b.pending.len() as int, names).pending == after.pending
            &&& flushed(after, b.pending.len() as int, names).rows == after.rows
        }),
{
    rows_in_writing_stay(b, rows);
    let after = appended_all(in_writing(b), rows);
    let n = b.pending.len() as int;
    assert(after.pending =~= after.pending.take(n) + after.pending.skip(n));
    if n == after.pending.len() {
        assert(after.pending.skip(n) =~= Seq::<RowView<V>>::empty());
    }
}

/// A flushed buffer keeps to its limits.
pub proof fn flushing_is_sound<V>(b: BufferView<V>, count: int, names: Seq<Seq<char>>)
    requires
        is_sound(b),
        0 <= count,
    ensures
        is_sound(flushed(b, count, names)),
        is_sound(in_writing(b)),
{
}

fn copy_names(v: &Vec<String>) -> (r: Vec<String>)
    ensures
        crate::text::texts(r@) == crate::text::texts(v@),
{
    let mut out: Vec<String> = Vec::new();
    let mut i: usize = 0;
    while i < v.len()
        invariant
            i <= v.len(),
            out@.len() == i,
            forall|j: int| 0 <= j < i ==> (#[trigger] out@[j])@ == v@[j]@,
        decreases v.len() - i,
    {
        out.push(v[i].clone());
        i += 1;
    }
    assert(crate::text::texts(out@) =~= crate::text::texts(v@));
    out
}

impl<V: Copy> MetricInstanceBuffer<V> {
    /// The names that are written: those that were written before, followed by the others.
    fn schema(&self) -> (r: Vec<String>)
        ensures
            is_schema(crate::text::texts(r@), self@.persisted, self@.names),
    {
        let mut names = copy_names(&self.persisted_metric_names);
        let ghost persisted = self@.persisted;
        let ghost p = persisted.len() as int;
        let known = self.metric_names.keys();
        let ghost all = crate::text::texts(known@);
        let mut i: usize = 0;
        assert(crate::text::texts(names@).skip(p) =~= Seq::<Seq<char>>::empty());
        assert(crate::text::texts(names@).take(p) =~= persisted);
        while i < known.len()
            invariant
                i <= known.len(),
                persisted == self@.persisted,
                persisted == crate::text::texts(self.persisted_metric_names@),
                p == persisted.len(),
                all == crate::text::texts(known@),
                crate::sorted_map::are_sorted_keys(all, self@.names),
                p <= names@.len(),
                crate::text::texts(names@).take(p) == persisted,
                forall|a: int, b: int|
                    p <= a < b < names@.len() ==> crate::text::less(
                        #[trigger] names@[a]@,
                        #[trigger] names@[b]@,
                    ),
                forall|a: int, b: int|
                    p <= a < names@.len() && i <= b < all.len() ==> crate::text::less(
                        #[trigger] names@[a]@,
                        #[trigger] all[b],
                    ),
                forall|k: Seq<char>| #[trigger]
                    crate::text::texts(names@).skip(p).contains(k) <==> (all.take(
                        i as int,
                    ).contains(k) && !persisted.contains(k)),
            decreases known.len() - i,
        {
            let ghost before = crate::text::texts(names@);
            let ghost earlier = all.take(i as int);
            assert(all.take(i + 1) =~= earlier.push(all[i as int]));
            assert(all[i as int] == known@[i as int]@);
            if !contains_text(&self.persisted_metric_names, known[i].as_str()) {
                names.push(known[i].clone());
                let ghost now = crate::text::texts(names@);
                assert(now =~= before.push(all[i as int]));
                assert(now.take(p) =~= before.take(p));
                assert(now.skip(p) =~= before.skip(p).push(all[i as int]));
            }
            proof {
                let now = crate::text::texts(names@);
                let added = !persisted.contains(all[i as int]);
                assert forall|k: Seq<char>| #[trigger] now.skip(p).contains(k) <==> (all.take(
                    i + 1,
                ).contains(k) && !persisted.contains(k)) by {
                    if all.take(i + 1).contains(k) && !earlier.contains(k) {
                        let at = all.take(i + 1).index_of(k);
                        if at < i {
                            assert(earlier[at] == k);
                        }
                        assert(k == all[i as int]);
                    }
                    if earlier.contains(k) {
                        let at = earlier.index_of(k);
                        assert(all.take(i + 1)[at] == k);
                    }
                    assert(all.take(i + 1)[i as int] == all[i as int]);
                    if added {
                        assert(now.skip(p)[before.skip(p).len() as int] == all[i as int]);
                        if before.skip(p).contains(k) {
                            let at = before.skip(p).index_of(k);
                            assert(now.skip(p)[at] == k);
                        }
                        if now.skip(p).contains(k) && !before.skip(p).contains(k) {
                            let at = now.skip(p).index_of(k);
                            if at < before.skip(p).len() {
                                assert(before.skip(p)[at] == k);
                            }
                        }
                    }
                }
                assert forall|a: int, b: int|
                    p <= a < names@.len() && i + 1 <= b < all.len() implies crate::text::less(
                    #[trigger] names@[a]@,
                    #[trigger] all[b],
                ) by {
                    assert(crate::text::less(all[i as int], all[b]));
                }
            }
            i += 1;
        }
        assert(all.take(i as int) =~= all);
        proof {
            let rest = crate::text::texts(names@).skip(p);
            assert forall|a: int, b: int| 0 <= a < b < rest.len() implies crate::text::less(
                #[trigger] rest[a],
                #[trigger] rest[b],
            ) by {
                assert(crate::text::less(names@[a + p]@, names@[b + p]@));
            }
            assert forall|k: Seq<char>| #[trigger]
                self@.names.difference(persisted.to_set()).contains(k) <==> rest.contains(k) by {
                assert(self@.names.contains(k) <==> all.contains(k));
                assert(persisted.to_set().contains(k) <==> persisted.contains(k));
            }
        }
        names
    }

    /// What waits to be written. From then on it counts as being written.
    pub fn flush_snapshot(&mut self) -> (r: Option<MetricFlushSnapshot<V>>)
        ensures
            match r {
                Some(s) => old(self)@.pending.len() > 0 && is_snapshot(s, old(self)@)
                    && final(self)@ == in_writing(old(self)@),
                None => old(self)@.pending.len() == 0 && final(self)@ == old(self)@,
            },
    {
        let ghost before = self@;
        let n: usize = self.pending_rows.len();
        assert(before.pending.len() == n);
        if n == 0 {
            return None;
        }
        let metric_names = self.schema();
        self.pending_rows_in_flight = n;
        assert(self@ =~= in_writing(before));
        let mut rows: Vec<MetricRowRecord<V>> = Vec::new();
        let mut i: usize = 0;
        while i < self.pending_rows.len()
            invariant
                i <= self.pending_rows@.len(),
                rows@.len() == i,
                forall|j: int| 0 <= j < i ==> (#[trigger] rows@[j])@ == self.pending_rows@[j]@,
            decreases self.pending_rows@.len() - i,
        {
            rows.push(self.pending_rows[i].clone());
            i += 1;
        }
        assert(row_views(rows@) =~= before.pending);
        let previous_metric_names = copy_names(&self.persisted_metric_names);
        let rewrite_existing = previous_metric_names.len() > 0 && metric_names.len()
            > previous_metric_names.len();
        assert(crate::text::texts(previous_metric_names@).len() == previous_metric_names@.len());
        assert(crate::text::texts(metric_names@).len() == metric_names@.len());
        Some(
            MetricFlushSnapshot {
                metric_names,
                previous_metric_names,
                rows,
                pending_row_count: n,
                rewrite_existing,
            },
        )
    }

    /// Takes out rows that were written.
    pub fn mark_flush_succeeded(
        &mut self,
        pending_row_count: usize,
        persisted_metric_names: Vec<String>,
    )
        ensures
            final(self)@ == flushed(
                old(self)@,
                pending_row_count as int,
                crate::text::texts(persisted_metric_names@),
            ),
    {
        let ghost before = self@;
        let ghost names = crate::text::texts(persisted_metric_names@);
        let total: usize = self.pending_rows.len();
        assert(before.pending.len() == total);
        let count: usize = if pending_row_count < total {
            pending_row_count
        } else {
            total
        };
        let mut i: usize = 0;
        assert(before.pending.skip(0) =~= before.pending);
        while i < count
            invariant
                i <= count <= total,
                total == before.pending.len(),
                row_views(self.pending_rows@) == before.pending.skip(i as int),
                self@ == (BufferView { pending: self@.pending, ..before }),
            decreases count - i,
        {
            let ghost was = self.pending_rows@;
            assert(row_views(was).len() == was.len());
            let written = self.pending_rows.pop_front();
            assert(row_views(self.pending_rows@) =~= row_views(was).skip(1));
            assert(before.pending.skip(i as int).skip(1) =~= before.pending.skip(i + 1));
            assert(self@ =~= (BufferView { pending: self@.pending, ..before }));
            i += 1;
        }
        if pending_row_count >= total {
            assert(before.pending.skip(total as int) =~= Seq::<RowView<V>>::empty());
        }
        self.pending_rows_in_flight = 0;
        self.persisted_metric_names = persisted_metric_names;
        let left: usize = self.pending_rows.len();
        assert(self@.pending.len() == left);
        if left < MAX_PENDING_ROWS_PER_INSTANCE {
            self.pending_overflow_warned = false;
        }
        assert(self@ =~= flushed(before, pending_row_count as int, names));
    }

    fn value_at(&self, i: usize, metric: &str, missing: V) -> (r: (i64, V))
        requires
            i < self.rows@.len(),
        ensures
            r.0 == self@.rows[i as int].timestamp,
            r.1 == value_in(self@.rows[i as int], metric@, missing),
    {
        let row = &self.rows[i];
        assert(self@.rows[i as int] == row@);
        match row.values.get(metric) {
            Some(v) => (row.timestamp_ms, *v),
            None => (row.timestamp_ms, missing),
        }
    }

    /// The last values of a metric, with their times. Where a row has no value of the metric,
    /// the given one stands in.
    pub fn last_n(&self, metric: &str, n: usize, missing: V) -> (r: Result<
        Vec<(i64, V)>,
        MetricsLoggerError,
    >)
        ensures
            if self@.names.contains(metric@) {
                r matches Ok(v) && is_series(
                    v@,
                    series(newest(self@.rows, n as int), metric@, missing),
                )
            } else {
                r matches Err(MetricsLoggerError::MissingData)
            },
    {
        if !self.metric_names.contains_key(metric) {
            return Err(MetricsLoggerError::MissingData);
        }
        let len: usize = self.rows.len();
        assert(self@.rows.len() == len);
        let start: usize = len.saturating_sub(n);
        let ghost wanted = newest(self@.rows, n as int);
        let mut out: Vec<(i64, V)> = Vec::new();
        let mut i: usize = start;
        while i < len
            invariant
                start <= i <= len,
                len == self.rows@.len(),
                start == if len > n {
                    len - n
                } else {
                    0
                },
                wanted == newest(self@.rows, n as int),
                out@.len() == i - start,
                forall|j: int|
                    0 <= j < out@.len() ==> (#[trigger] out@[j]).0 == wanted[j].timestamp
                        && out@[j].1 == value_in(wanted[j], metric@, missing),
            decreases len - i,
        {
            assert(self@.rows.len() == len);
            assert(wanted[i - start] == self@.rows[i as int]);
            out.push(self.value_at(i, metric, missing));
            i += 1;
        }
        Ok(out)
    }

    /// The values of a metric within a duration before the latest row, with their times.
    pub fn window_ms(&self, metric: &str, window_ms: i64, missing: V) -> (r: Result<
        Vec<(i64, V)>,
        MetricsLoggerError,
    >)
        ensures
            if self@.names.contains(metric@) && self@.rows.len() > 0 {
                r matches Ok(v) && is_series(
                    v@,
                    series(
                        not_before(
                            self@.rows,
                            earlier(latest_of(self@.rows), window_ms as int),
                        ),
                        metric@,
                        missing,
                    ),
                )
            } else {
                r matches Err(MetricsLoggerError::MissingData)
            },
    {
        if !self.metric_names.contains_key(metric) {
            return Err(MetricsLoggerError::MissingData);
        }
        let len: usize = self.rows.len();
        assert(self@.rows.len() == len);
        if len == 0 {
            return Err(MetricsLoggerError::MissingData);
        }
        let ghost all = self@.rows;
        let mut latest: i64 = i64::MIN;
        let mut i: usize = 0;
        assert(all.take(0) =~= Seq::<RowView<V>>::empty());
        while i < len
            invariant
                i <= len,
                len == self.rows@.len(),
                all == self@.rows,
                latest == latest_of(all.take(i as int)),
            decreases len - i,
        {
            assert(all.take(i + 1).drop_last() =~= all.take(i as int));
            assert(all.take(i + 1).last() == self.rows@[i as int]@);
            if self.rows[i].timestamp_ms > latest {
                latest = self.rows[i].timestamp_ms;
            }
            i += 1;
        }
        assert(all.take(len as int) =~= all);
        let cutoff: i64 = if window_ms <= 0 {
            latest
        } else if latest < i64::MIN + window_ms {
            i64::MIN
        } else {
            latest - window_ms
        };
        let ghost cut = earlier(latest_of(all), window_ms as int);
        assert(cutoff == cut);
        let mut out: Vec<(i64, V)> = Vec::new();
        let mut k: usize = 0;
        assert(is_series(out@, series(not_before(all.take(0), cut), metric@, missing)));
        while k < len
            invariant
                k <= len,
                len == self.rows@.len(),
                all == self@.rows,
                cutoff == cut,
                is_series(
                    out@,
                    series(not_before(all.take(k as int), cut), metric@, missing),
                ),
            decreases len - k,
        {
            assert(all.len() == len);
            assert(all.take(k + 1).drop_last() =~= all.take(k as int));
            assert(all.take(k + 1).last() == self.rows@[k as int]@);
            if self.rows[k].timestamp_ms >= cutoff {
                out.push(self.value_at(k, metric, missing));
            }
            k += 1;
        }
        Ok(out)
    }
}

/// The last values of a metric are those of the newest rows, in their order: as many as are asked
/// for, or as there are. A row without the metric gives the value for missing ones.
pub proof fn last_values_come_from_the_newest_rows<V>(
    rows: Seq<RowView<V>>,
    metric: Seq<char>,
    n: int,
    missing: V,
    v: Seq<(i64, V)>,
    i: int,
)
    requires
        is_series(v, series(newest(rows, n), metric, missing)),
        0 <= n,
        0 <= i < v.len(),
    ensures
        v.len() == if n < rows.len() {
            n
        } else {
            rows.len() as int
        },
        ({
            let row = rows[rows.len() - v.len() + i];
            &&& v[i].0 == row.timestamp
            &&& v[i].1 == if row.values.dom().contains(metric) {
                row.values[metric]
            } else {
                missing
            }
        }),
{
}

/// As many values are given as are asked for, or as there are.
pub proof fn as_many_values_as_asked_for<V>(
    rows: Seq<RowView<V>>,
    metric: Seq<char>,
    n: int,
    missing: V,
    v: Seq<(i64, V)>,
)
    requires
        is_series(v, series(newest(rows, n), metric, missing)),
        0 <= n,
    ensures
        v.len() == if n < rows.len() {
            n
        } else {
            rows.len() as int
        },
{
}

/// The rows of a window are exactly those that are not older than it, in their order.
pub proof fn windows_hold_the_recent_rows<V>(rows: Seq<RowView<V>>, cutoff: int)
    ensures
        not_before(rows, cutoff) == rows.filter(|row: RowView<V>| row.timestamp >= cutoff),
    decreases rows.len(),
{
    let recent = |row: RowView<V>| row.timestamp >= cutoff;
    reveal(Seq::filter);
    if rows.len() > 0 {
        windows_hold_the_recent_rows(rows.drop_last(), cutoff);
        assert(rows.drop_last().filter(recent) == not_before(rows.drop_last(), cutoff));
    }
}

/// The latest time of rows is one of theirs, and none is later.
pub proof fn latest_time_is_the_greatest<V>(rows: Seq<RowView<V>>)
    requires
        rows.len() > 0,
        forall|i: int| 0 <= i < rows.len() ==> i64::MIN <= (#[trigger] rows[i]).timestamp,
    ensures
        forall|i: int| 0 <= i < rows.len() ==> (#[trigger] rows[i]).timestamp <= latest_of(rows),
        exists|i: int| 0 <= i < rows.len() && (#[trigger] rows[i]).timestamp == latest_of(rows),
    decreases rows.len(),
{
    let front = rows.drop_last();
    assert(rows[rows.len() - 1] == rows.last());
    if front.len() > 0 {
        assert forall|i: int| 0 <= i < front.len() implies i64::MIN <= (
        #[trigger] front[i]).timestamp by {
            assert(i64::MIN <= rows[i].timestamp);
        }
        latest_time_is_the_greatest(front);
        let k = choose|k: int|
            0 <= k < front.len() && (#[trigger] front[k]).timestamp == latest_of(front);
        assert(rows[k].timestamp == latest_of(front));
        assert forall|i: int| 0 <= i < rows.len() implies (#[trigger] rows[i]).timestamp
            <= latest_of(rows) by {
            if i < front.len() {
                assert(front[i].timestamp <= latest_of(front));
            }
        }
    }
}

/// The window that a reader asks for reaches back from the newest row by the time that is asked
/// for.
pub proof fn windows_reach_back_by_their_length(time: int, duration: int)
    requires
        i64::MIN <= time - duration,
        0 <= duration,
        i64::MIN <= time,
    ensures
        earlier(time, duration) == time - duration,
{
}

/// A row that is not older than the window of the buffer can be read at once, is kept for
/// writing, and makes its metrics known. The rows before it stay unless they are too old, or
/// there are too many, or the row takes the place of one with the same time and source.
pub proof fn appended_rows_are_kept<V>(b: BufferView<V>, row: RowView<V>)
    requires
        is_sound(b),
        i64::MIN <= row.timestamp,
        b.latest is Some ==> row.timestamp >= b.latest->0 - IN_MEMORY_WINDOW_MS,
    ensures
        appended(b, row).rows.len() > 0,
        appended(b, row).rows.last() == row,
        appended(b, row).pending.len() > 0,
        appended(b, row).pending.last() == row,
        b.names.subset_of(appended(b, row).names),
        row.values.dom().subset_of(appended(b, row).names),
        appended(b, row).persisted == b.persisted,
        b.rows.len() + 1 < MAX_ROWS_PER_INSTANCE ==> forall|i: int|
            0 <= i < b.rows.len() && (#[trigger] b.rows[i]).timestamp >= row.timestamp
                - IN_MEMORY_WINDOW_MS && b.rows[i].timestamp >= b.latest->0 - IN_MEMORY_WINDOW_MS
                && !(i == b.rows.len() - 1 && b.rows[i].timestamp == row.timestamp
                && b.rows[i].source == row.source) ==> appended(b, row).rows.contains(b.rows[i]),
{
    let latest = later(b.latest, row.timestamp);
    let kept = without_repeated(b.rows, row);
    let all = kept.push(row);
    let recent = not_before(all, window_start(latest));
    assert(all.drop_last() =~= kept);
    assert(recent == not_before(kept, window_start(latest)).push(row));
    fewer_rows(kept, window_start(latest));
    if b.rows.len() + 1 < MAX_ROWS_PER_INSTANCE {
        assert forall|i: int|
            0 <= i < b.rows.len() && (#[trigger] b.rows[i]).timestamp >= row.timestamp
                - IN_MEMORY_WINDOW_MS && b.rows[i].timestamp >= b.latest->0 - IN_MEMORY_WINDOW_MS
                && !(i == b.rows.len() - 1 && b.rows[i].timestamp == row.timestamp
                && b.rows[i].source == row.source) implies appended(b, row).rows.contains(
            b.rows[i],
        ) by {
            assert(kept[i] == b.rows[i]);
            recent_row_stays(kept, window_start(latest), i);
            let front = not_before(kept, window_start(latest));
            let k = front.index_of(b.rows[i]);
            assert(recent[k] == b.rows[i]);
            assert(appended(b, row).rows =~= recent);
        }
    }
}

proof fn fewer_rows<V>(rows: Seq<RowView<V>>, cutoff: int)
    ensures
        not_before(rows, cutoff).len() <= rows.len(),
    decreases rows.len(),
{
    if rows.len() > 0 {
        fewer_rows(rows.drop_last(), cutoff);
    }
}

proof fn recent_row_stays<V>(rows: Seq<RowView<V>>, cutoff: int, i: int)
    requires
        0 <= i < rows.len(),
        rows[i].timestamp >= cutoff,
    ensures
        not_before(rows, cutoff).contains(rows[i]),
    decreases rows.len(),
{
    let all = not_before(rows, cutoff);
    if i == rows.len() - 1 {
        assert(all.last() == rows[i]);
    } else {
        recent_row_stays(rows.drop_last(), cutoff, i);
        let front = not_before(rows.drop_last(), cutoff);
        let k = front.index_of(rows[i]);
        assert(all[k] == rows[i]);
    }
}

/// A new buffer holds nothing: no row, no name, nothing that waits, and no time.
pub proof fn new_buffers_hold_nothing<V>()
    ensures
        empty_buffer::<V>().rows.len() == 0,
        empty_buffer::<V>().pending.len() == 0,
        empty_buffer::<V>().in_flight == 0,
        empty_buffer::<V>().persisted.len() == 0,
        empty_buffer::<V>().latest is None,
        empty_buffer::<V>().ordered,
        !empty_buffer::<V>().warned,
        forall|name: Seq<char>| !#[trigger] empty_buffer::<V>().names.contains(name),
{
}

/// Writing takes as many rows as were written out of those that wait, the earliest first; rows that
/// came meanwhile still wait, and the rows in memory stay.
pub proof fn written_rows_no_longer_wait<V>(
    b: BufferView<V>,
    count: int,
    names: Seq<Seq<char>>,
)
    requires
        0 <= count <= b.pending.len(),
    ensures
        flushed(b, count, names).pending == b.pending.skip(count),
        flushed(b, count, names).rows == b.rows,
        flushed(b, count, names).names == b.names,
        flushed(b, count, names).latest == b.latest,
        flushed(b, count, names).persisted == names,
        flushed(b, count, names).in_flight == 0,
        in_writing(b).in_flight == b.pending.len(),
        in_writing(b).pending == b.pending,
        in_writing(b).rows == b.rows,
{
    if count == b.pending.len() {
        assert(b.pending.skip(count) =~= Seq::empty());
    }
}

/// What is kept in memory reaches a minute back from the latest row.
pub proof fn a_minute_is_kept_in_memory(latest: int)
    requires
        i64::MIN <= latest <= i64::MAX,
    ensures
        latest - 60000 >= i64::MIN ==> window_start(latest) == latest - 60000,
        i64::MIN <= window_start(latest) <= latest,
{
}

/// A snapshot holds all that waits; the file is made anew where metrics have come since.
pub proof fn snapshots_hold_all_that_waits<V>(s: MetricFlushSnapshot<V>, b: BufferView<V>)
    requires
        is_snapshot(s, b),
    ensures
        s.rows@.len() == b.pending.len(),
        forall|i: int| 0 <= i < s.rows@.len() ==> (#[trigger] s.rows@[i])@ == b.pending[i],
        s.pending_row_count == b.pending.len(),
        crate::text::texts(s.previous_metric_names@) == b.persisted,
        b.persisted.len() == 0 ==> !s.rewrite_existing,
        b.persisted.len() > 0 && s.metric_names@.len() > b.persisted.len() ==> s.rewrite_existing,
{
    assert(row_views(s.rows@).len() == s.rows@.len());
    assert forall|i: int| 0 <= i < s.rows@.len() implies (#[trigger] s.rows@[i])@
        == b.pending[i] by {
        assert(row_views(s.rows@)[i] == s.rows@[i]@);
    }
    assert(crate::text::texts(s.metric_names@).len() == s.metric_names@.len());
}

/// A row has the value that it holds for a metric, and the missing one otherwise.
pub proof fn missing_values_are_marked<V>(row: RowView<V>, metric: Seq<char>, missing: V)
    ensures
        row.values.dom().contains(metric) ==> value_in(row, metric, missing) == row.values[metric],
        !row.values.dom().contains(metric) ==> value_in(row, metric, missing) == missing,
{
}

/// A row makes way for the one that repeats it, and for no other one.
pub proof fn repeated_rows_make_way<V>(rows: Seq<RowView<V>>, last: RowView<V>, row: RowView<V>)
    ensures
        last.timestamp == row.timestamp && last.source == row.source ==> without_repeated(
            rows.push(last),
            row,
        ) == rows,
        last.timestamp != row.timestamp || last.source != row.source ==> without_repeated(
            rows.push(last),
            row,
        ) == rows.push(last),
        without_repeated(Seq::<RowView<V>>::empty(), row) == Seq::<RowView<V>>::empty(),
{
    assert(rows.push(last).drop_last() =~= rows);
}

} // verus!
