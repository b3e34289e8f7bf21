//! Memory profiling for the Stratum runtime.
//!
//! Tracks allocations and deallocations by category, the current and peak
//! totals, and reports potential leaks.

use std::time::{Duration, Instant};

use vstd::prelude::*;

use crate::fmt::{
    dec, format_bytes, format_bytes_spec, pad_left_spec, pad_right_spec, push_dec, push_pad_left,
    push_pad_right, round_to_multiple,
};
use crate::sort::{sort_desc_by_key, sorted_desc, vs};
use crate::text::concat;
use vstd::string::StringSliceAdditionalSpecFns;
use vstd::utf8::{decode_utf8, encode_utf8, is_char_boundary};

pub mod categories;
pub mod laws;

verus! {

/// `std::time::Instant`, carried through the profiler as an opaque value.
#[verifier::external_type_specification]
#[verifier::external_body]
pub struct ExInstant(Instant);

/// `Instant::now`: the current time.  Nothing is promised of the value.
#[verifier::external_body]
fn now() -> Instant {
    Instant::now()
}

/// `Instant::elapsed`: the time since `t`.  Nothing is promised of the value.
#[verifier::external_body]
fn elapsed_since(t: &Instant) -> Duration {
    t.elapsed()
}

/// A snapshot of garbage-collector statistics
#[derive(Debug, Clone, Copy, PartialEq, Eq, Structural)]
pub struct GcStats {
    /// Number of collections run
    pub collections: usize,
    /// Number of reference cycles broken
    pub cycles_broken: usize,
    /// Number of objects tracked
    pub tracked_objects: usize,
    /// Number of allocations since the last collection
    pub allocation_count: usize,
    /// Allocation threshold that triggers a collection
    pub threshold: usize,
}

/// A tracked memory allocation event
#[derive(Debug)]
pub struct AllocationEvent {
    /// Timestamp of the allocation
    pub timestamp: Instant,
    /// Size in bytes
    pub bytes: usize,
    /// Description of the allocation
    pub description: String,
    /// Whether this is an allocation (true) or deallocation (false)
    pub is_allocation: bool,
}

/// The content of an event, without its timestamp.
pub struct EventModel {
    pub bytes: usize,
    pub description: Seq<char>,
    pub is_allocation: bool,
}

impl View for AllocationEvent {
    type V = EventModel;

    open spec fn view(&self) -> EventModel {
        EventModel {
            bytes: self.bytes,
            description: self.description@,
            is_allocation: self.is_allocation,
        }
    }
}

/// Statistics for a single allocation category
#[derive(Debug, Clone, Copy, PartialEq, Eq, Structural)]
pub struct CategoryStats {
    /// Number of allocations
    pub allocation_count: usize,
    /// Number of deallocations
    pub deallocation_count: usize,
    /// Total bytes allocated
    pub total_allocated: usize,
    /// Total bytes deallocated
    pub total_deallocated: usize,
    /// Current bytes (allocated - deallocated)
    pub current_bytes: usize,
    /// Peak bytes for this category
    pub peak_bytes: usize,
}

/// Statistics of a category with nothing recorded.
pub open spec fn zero_stats() -> CategoryStats {
    CategoryStats {
        allocation_count: 0,
        deallocation_count: 0,
        total_allocated: 0,
        total_deallocated: 0,
        current_bytes: 0,
        peak_bytes: 0,
    }
}

impl Default for CategoryStats {
    fn default() -> (r: CategoryStats)
        ensures
            r == zero_stats(),
    {
        CategoryStats {
            allocation_count: 0,
            deallocation_count: 0,
            total_allocated: 0,
            total_deallocated: 0,
            current_bytes: 0,
            peak_bytes: 0,
        }
    }
}

/// Potential memory leak information
#[derive(Debug, Clone)]
pub struct LeakInfo {
    /// Category of the leak
    pub category: String,
    /// Number of unmatched allocations
    pub unmatched_allocations: usize,
    /// Bytes potentially leaked
    pub bytes: usize,
}

/// The content of a [`LeakInfo`].
pub struct LeakModel {
    pub category: Seq<char>,
    pub unmatched_allocations: usize,
    pub bytes: usize,
}

impl View for LeakInfo {
    type V = LeakModel;

    open spec fn view(&self) -> LeakModel {
        LeakModel {
            category: self.category@,
            unmatched_allocations: self.unmatched_allocations,
            bytes: self.bytes,
        }
    }
}

/// The content of a [`MemoryProfiler`] (timestamps left out).
pub struct ProfilerModel {
    pub enabled: bool,
    pub events: Seq<EventModel>,
    /// Current bytes per description, in order of first allocation.
    pub allocations: Seq<(Seq<char>, usize)>,
    /// Statistics per category, in order of first use.
    pub stats: Seq<(Seq<char>, CategoryStats)>,
    pub peak_bytes: usize,
    pub current_bytes: usize,
    pub gc_stats: Option<GcStats>,
    pub max_events: usize,
}

/// Memory profiler for tracking runtime allocations
#[derive(Debug)]
pub struct MemoryProfiler {
    /// Whether profiling is enabled
    enabled: bool,
    /// Recorded allocation events (at most `max_events` of them, once it is at least 1)
    events: Vec<AllocationEvent>,
    /// Current total allocations by description
    current_allocations: Vec<(String, usize)>,
    /// Statistics per category
    category_stats: Vec<(String, CategoryStats)>,
    /// Start time for profiling session
    start_time: Instant,
    /// Peak memory usage
    peak_bytes: usize,
    /// Current memory usage
    current_bytes: usize,
    /// GC stats snapshot (captured at report time)
    gc_stats: Option<GcStats>,
    /// Maximum events to keep (for memory bounds)
    max_events: usize,
}

/// Default maximum events to keep
pub const DEFAULT_MAX_EVENTS: usize = 10_000;

// ---------------------------------------------------------------------------
// Model operations
// ---------------------------------------------------------------------------

/// Position of the entry for `d` at or after `i`, or -1.
pub open spec fn pos_from<V>(s: Seq<(Seq<char>, V)>, d: Seq<char>, i: int) -> int
    decreases s.len() - i,
{
    if i < 0 || i >= s.len() {
        -1
    } else if s[i].0 == d {
        i
    } else {
        pos_from(s, d, i + 1)
    }
}

/// Position of the entry for `d`, or -1.
pub open spec fn pos_of<V>(s: Seq<(Seq<char>, V)>, d: Seq<char>) -> int {
    pos_from(s, d, 0)
}

/// The statistics recorded for category `d` (zero when there are none).
pub open spec fn stats_of(cs: Seq<(Seq<char>, CategoryStats)>, d: Seq<char>) -> CategoryStats {
    let p = pos_of(cs, d);
    if p >= 0 {
        cs[p].1
    } else {
        zero_stats()
    }
}

/// The list with the value for `d` replaced, or a new entry appended.
pub open spec fn put<V>(s: Seq<(Seq<char>, V)>, d: Seq<char>, v: V) -> Seq<(Seq<char>, V)> {
    let p = pos_of(s, d);
    if p >= 0 {
        s.update(p, (d, v))
    } else {
        s.push((d, v))
    }
}

/// The larger of two numbers.
pub open spec fn max_usize(a: usize, b: usize) -> usize {
    if a >= b {
        a
    } else {
        b
    }
}

/// `a - b`, or 0 when `b > a` (`usize::saturating_sub`).
pub open spec fn sat_sub(a: usize, b: usize) -> usize {
    if a >= b {
        (a - b) as usize
    } else {
        0
    }
}

/// Category statistics after an allocation of `b` bytes.
pub open spec fn stats_after_alloc(s: CategoryStats, b: usize) -> CategoryStats {
    CategoryStats {
        allocation_count: (s.allocation_count + 1) as usize,
        total_allocated: (s.total_allocated + b) as usize,
        current_bytes: (s.current_bytes + b) as usize,
        peak_bytes: max_usize(s.peak_bytes, (s.current_bytes + b) as usize),
        ..s
    }
}

/// Category statistics after a deallocation of `b` bytes.
pub open spec fn stats_after_dealloc(s: CategoryStats, b: usize) -> CategoryStats {
    CategoryStats {
        deallocation_count: (s.deallocation_count + 1) as usize,
        total_deallocated: (s.total_deallocated + b) as usize,
        current_bytes: sat_sub(s.current_bytes, b),
        ..s
    }
}

/// How many of the oldest events are dropped when the log holds `len`
/// events at capacity `max`: a tenth of `max`, at least one, at most all.
pub open spec fn dropped_events(len: nat, max: usize) -> int {
    let d: int = if max / 10 > 0 {
        (max / 10) as int
    } else {
        1
    };
    if d <= len {
        d
    } else {
        len as int
    }
}

/// The event log after recording `e`: at capacity, the oldest events
/// (a tenth of `max`, at least one) are dropped first.
pub open spec fn log_event(events: Seq<EventModel>, max: usize, e: EventModel) -> Seq<EventModel> {
    if events.len() >= max {
        events.skip(dropped_events(events.len(), max)).push(e)
    } else {
        events.push(e)
    }
}

/// The current bytes recorded for description `d` (zero when there are none).
pub open spec fn allocation_of(a: Seq<(Seq<char>, usize)>, d: Seq<char>) -> usize {
    let p = pos_of(a, d);
    if p >= 0 {
        a[p].1
    } else {
        0
    }
}

/// An allocation of `b` bytes for `d` can be recorded without overflow.
pub open spec fn alloc_fits(m: ProfilerModel, b: usize, d: Seq<char>) -> bool {
    !m.enabled || (m.current_bytes + b <= usize::MAX && allocation_of(m.allocations, d) + b
        <= usize::MAX && stats_of(m.stats, d).total_allocated + b <= usize::MAX && stats_of(
        m.stats,
        d,
    ).current_bytes + b <= usize::MAX && stats_of(m.stats, d).allocation_count < usize::MAX)
}

/// A deallocation of `b` bytes for `d` can be recorded without overflow.
pub open spec fn dealloc_fits(m: ProfilerModel, b: usize, d: Seq<char>) -> bool {
    !m.enabled || (stats_of(m.stats, d).total_deallocated + b <= usize::MAX && stats_of(
        m.stats,
        d,
    ).deallocation_count < usize::MAX)
}

/// The profiler after an allocation of `b` bytes for `d`.
pub open spec fn after_alloc(m: ProfilerModel, b: usize, d: Seq<char>) -> ProfilerModel {
    if !m.enabled {
        m
    } else {
        ProfilerModel {
            events: log_event(
                m.events,
                m.max_events,
                EventModel { bytes: b, description: d, is_allocation: true },
            ),
            current_bytes: (m.current_bytes + b) as usize,
            peak_bytes: max_usize(m.peak_bytes, (m.current_bytes + b) as usize),
            allocations: put(m.allocations, d, (allocation_of(m.allocations, d) + b) as usize),
            stats: put(m.stats, d, stats_after_alloc(stats_of(m.stats, d), b)),
            ..m
        }
    }
}

/// The profiler after a deallocation of `b` bytes for `d`.
pub open spec fn after_dealloc(m: ProfilerModel, b: usize, d: Seq<char>) -> ProfilerModel {
    if !m.enabled {
        m
    } else {
        ProfilerModel {
            events: log_event(
                m.events,
                m.max_events,
                EventModel { bytes: b, description: d, is_allocation: false },
            ),
            current_bytes: sat_sub(m.current_bytes, b),
            allocations: if pos_of(m.allocations, d) >= 0 {
                put(m.allocations, d, sat_sub(allocation_of(m.allocations, d), b))
            } else {
                m.allocations
            },
            stats: put(m.stats, d, stats_after_dealloc(stats_of(m.stats, d), b)),
            ..m
        }
    }
}

/// The leak reported for a category, if it is one: more allocations than
/// deallocations and bytes still held.
pub open spec fn leak_of(e: (Seq<char>, CategoryStats)) -> Option<LeakModel> {
    let unmatched = sat_sub(e.1.allocation_count, e.1.deallocation_count);
    if unmatched > 0 && e.1.current_bytes > 0 {
        Some(
            LeakModel {
                category: e.0,
                unmatched_allocations: unmatched,
                bytes: e.1.current_bytes,
            },
        )
    } else {
        None
    }
}

/// The leaks among the categories, in category order.
pub open spec fn leaks_in(cs: Seq<(Seq<char>, CategoryStats)>) -> Seq<LeakModel>
    decreases cs.len(),
{
    if cs.len() == 0 {
        Seq::empty()
    } else {
        match leak_of(cs.last()) {
            Some(l) => leaks_in(cs.drop_last()).push(l),
            None => leaks_in(cs.drop_last()),
        }
    }
}

/// The number of bytes of a leak.
pub open spec fn leak_bytes(l: LeakModel) -> nat {
    l.bytes as nat
}

// ---------------------------------------------------------------------------
// The profiler
// ---------------------------------------------------------------------------

/// The keys of an association list by their views.
pub open spec fn kv<V>(s: Seq<(String, V)>) -> Seq<(Seq<char>, V)> {
    s.map_values(|e: (String, V)| (e.0@, e.1))
}

/// No key occurs twice.
pub open spec fn distinct_keys<V>(s: Seq<(Seq<char>, V)>) -> bool {
    forall|i: int, j: int| 0 <= i < j < s.len() ==> s[i].0 != s[j].0
}

/// Every category's current bytes are at most its peak and its total allocated.
pub open spec fn stats_bounded(s: Seq<(Seq<char>, CategoryStats)>) -> bool {
    forall|i: int|
        0 <= i < s.len() ==> s[i].1.current_bytes <= s[i].1.peak_bytes && s[i].1.current_bytes
            <= s[i].1.total_allocated
}

/// `pos_from` finds the first matching entry at or after `i`.
pub proof fn lemma_pos_from<V>(s: Seq<(Seq<char>, V)>, d: Seq<char>, i: int)
    requires
        0 <= i <= s.len(),
    ensures
        -1 <= pos_from(s, d, i) < s.len(),
        pos_from(s, d, i) >= 0 ==> i <= pos_from(s, d, i) && s[pos_from(s, d, i)].0 == d,
        pos_from(s, d, i) >= 0 ==> forall|j: int| i <= j < pos_from(s, d, i) ==> s[j].0 != d,
        pos_from(s, d, i) < 0 ==> forall|j: int| i <= j < s.len() ==> s[j].0 != d,
    decreases s.len() - i,
{
    if i < s.len() && s[i].0 != d {
        lemma_pos_from(s, d, i + 1);
    }
}

/// `put` keeps keys distinct and adds `d` to them.
pub proof fn lemma_put_distinct<V>(s: Seq<(Seq<char>, V)>, d: Seq<char>, v: V)
    requires
        distinct_keys(s),
    ensures
        distinct_keys(put(s, d, v)),
        pos_of(put(s, d, v), d) >= 0,
        put(s, d, v)[pos_of(put(s, d, v), d)].1 == v,
{
    lemma_pos_from(s, d, 0);
    let t = put(s, d, v);
    lemma_pos_from(t, d, 0);
    let p = pos_of(s, d);
    if p >= 0 {
        assert forall|i: int, j: int| 0 <= i < j < t.len() implies t[i].0 != t[j].0 by {
            if i == p || j == p {
            }
        }
        assert(t[p].0 == d);
        assert(pos_of(t, d) == p) by {
            if 0 <= pos_of(t, d) < p {
                assert(t[pos_of(t, d)] == s[pos_of(t, d)]);
            }
        }
    } else {
        assert(t[s.len() as int].0 == d);
        assert(pos_of(t, d) == s.len());
    }
}

/// Position of the entry for `d`.
fn find_pos<V>(v: &Vec<(String, V)>, d: &str) -> (r: Option<usize>)
    ensures
        match r {
            Some(i) => pos_of(kv(v@), d@) == i && i < v@.len(),
            None => pos_of(kv(v@), d@) < 0,
        },
{
    let ghost k = kv(v@);
    let mut i: usize = 0;
    while i < v.len()
        invariant
            i <= v@.len(),
            k == kv(v@),
            pos_of(k, d@) == pos_from(k, d@, i as int),
        decreases v.len() - i,
    {
        if crate::text::str_eq(v[i].0.as_str(), d) {
            return Some(i);
        }
        i = i + 1;
    }
    None
}

/// Replaces the value for `d`, or appends an entry for it.
fn put_entry<V>(v: &mut Vec<(String, V)>, d: &str, x: V)
    ensures
        kv(final(v)@) == put(kv(old(v)@), d@, x),
{
    let p = find_pos(v, d);
    let key = crate::text::copy_str(d);
    match p {
        Some(i) => {
            v.set(i, (key, x));
            assert(kv(v@) =~= kv(old(v)@).update(i as int, (d@, x)));
        },
        None => {
            v.push((key, x));
            assert(kv(v@) =~= kv(old(v)@).push((d@, x)));
        },
    }
}

/// The value recorded for `d`, if any.
fn value_of<V: Copy>(v: &Vec<(String, V)>, d: &str) -> (r: Option<V>)
    ensures
        match r {
            Some(x) => pos_of(kv(v@), d@) >= 0 && kv(v@)[pos_of(kv(v@), d@)].1 == x,
            None => pos_of(kv(v@), d@) < 0,
        },
{
    match find_pos(v, d) {
        Some(i) => Some(v[i].1),
        None => None,
    }
}

/// The events after recording `e`, as `log_event` describes.
fn push_event(events: &mut Vec<AllocationEvent>, max: usize, e: AllocationEvent)
    ensures
        vs(final(events)@) == log_event(vs(old(events)@), max, e@),
{
    if events.len() >= max {
        let tenth = max / 10;
        let wanted: usize = if tenth > 0 {
            tenth
        } else {
            1
        };
        let remove_count: usize = if wanted <= events.len() {
            wanted
        } else {
            events.len()
        };
        let kept = events.split_off(remove_count);
        *events = kept;
        assert(vs(events@) =~= vs(old(events)@).skip(remove_count as int));
    }
    let ghost before = vs(events@);
    events.push(e);
    assert(vs(events@) =~= before.push(e@));
}

impl View for MemoryProfiler {
    type V = ProfilerModel;

    closed spec fn view(&self) -> ProfilerModel {
        ProfilerModel {
            enabled: self.enabled,
            events: vs(self.events@),
            allocations: kv(self.current_allocations@),
            stats: kv(self.category_stats@),
            peak_bytes: self.peak_bytes,
            current_bytes: self.current_bytes,
            gc_stats: self.gc_stats,
            max_events: self.max_events,
        }
    }
}

/// What holds of every profiler: current bytes never exceed the peak (overall
/// and per category), a category's current bytes never exceed its total
/// allocated, and each description and category has one entry.
pub open spec fn profiler_inv(m: ProfilerModel) -> bool {
    &&& m.current_bytes <= m.peak_bytes
    &&& stats_bounded(m.stats)
    &&& distinct_keys(m.stats)
    &&& distinct_keys(m.allocations)
}

impl MemoryProfiler {
    /// The profiler's invariant.
    #[verifier::type_invariant]
    closed spec fn inv(self) -> bool {
        profiler_inv(self@)
    }

    /// Create a new memory profiler
    pub fn new() -> (r: MemoryProfiler)
        ensures
            !r@.enabled,
            r@.events.len() == 0,
            r@.allocations.len() == 0,
            r@.stats.len() == 0,
            r@.peak_bytes == 0,
            r@.current_bytes == 0,
            r@.gc_stats is None,
            r@.max_events == DEFAULT_MAX_EVENTS,
            profiler_inv(r@),
    {
        let r = MemoryProfiler {
            enabled: false,
            events: Vec::new(),
            current_allocations: Vec::new(),
            category_stats: Vec::new(),
            start_time: now(),
            peak_bytes: 0,
            current_bytes: 0,
            gc_stats: None,
            max_events: DEFAULT_MAX_EVENTS,
        };
        assert(vs(r.events@) =~= Seq::<EventModel>::empty());
        assert(kv(r.current_allocations@) =~= Seq::<(Seq<char>, usize)>::empty());
        assert(kv(r.category_stats@) =~= Seq::<(Seq<char>, CategoryStats)>::empty());
        r
    }

    /// Enable profiling (and restart the clock)
    pub fn enable(&mut self)
        ensures
            profiler_inv(final(self)@),
            final(self)@ == (ProfilerModel { enabled: true, ..old(self)@ }),
    {
        proof {
            use_type_invariant(&*self);
        }
        self.enabled = true;
        self.start_time = now();
    }

    /// Disable profiling
    pub fn disable(&mut self)
        ensures
            profiler_inv(final(self)@),
            final(self)@ == (ProfilerModel { enabled: false, ..old(self)@ }),
    {
        proof {
            use_type_invariant(&*self);
        }
        self.enabled = false;
    }

    /// Check if profiling is enabled
    pub fn is_enabled(&self) -> (r: bool)
        ensures
            r == self@.enabled,
    {
        self.enabled
    }

    /// Set the maximum number of events to keep
    pub fn set_max_events(&mut self, max: usize)
        ensures
            profiler_inv(final(self)@),
            final(self)@ == (ProfilerModel { max_events: max, ..old(self)@ }),
    {
        proof {
            use_type_invariant(&*self);
        }
        self.max_events = max;
    }

    /// Whether an allocation can be recorded without overflowing a counter.
    pub fn can_record_allocation(&self, bytes: usize, description: &str) -> (r: bool)
        ensures
            r == alloc_fits(self@, bytes, description@),
    {
        if !self.enabled {
            return true;
        }
        let a = match value_of(&self.current_allocations, description) {
            Some(x) => x,
            None => 0,
        };
        let st = match value_of(&self.category_stats, description) {
            Some(x) => x,
            None => CategoryStats::default(),
        };
        bytes <= usize::MAX - self.current_bytes && bytes <= usize::MAX - a && bytes <= usize::MAX
            - st.total_allocated && bytes <= usize::MAX - st.current_bytes && st.allocation_count
            < usize::MAX
    }

    /// Whether a deallocation can be recorded without overflowing a counter.
    pub fn can_record_deallocation(&self, bytes: usize, description: &str) -> (r: bool)
        ensures
            r == dealloc_fits(self@, bytes, description@),
    {
        if !self.enabled {
            return true;
        }
        let st = match value_of(&self.category_stats, description) {
            Some(x) => x,
            None => CategoryStats::default(),
        };
        bytes <= usize::MAX - st.total_deallocated && st.deallocation_count < usize::MAX
    }

    /// Record an allocation
    pub fn record_allocation(&mut self, bytes: usize, description: &str)
        requires
            alloc_fits(old(self)@, bytes, description@),
        ensures
            profiler_inv(final(self)@),
            final(self)@ == after_alloc(old(self)@, bytes, description@),
    {
        proof {
            use_type_invariant(&*self);
        }
        if !self.enabled {
            return ;
        }
        let ghost m = self@;
        let event = AllocationEvent {
            timestamp: now(),
            bytes,
            description: crate::text::copy_str(description),
            is_allocation: true,
        };
        let mut ev: Vec<AllocationEvent> = Vec::new();
        std::mem::swap(&mut ev, &mut self.events);
        push_event(&mut ev, self.max_events, event);
        self.events = ev;
        let nc = self.current_bytes + bytes;
        if nc > self.peak_bytes {
            self.peak_bytes = nc;
        }
        self.current_bytes = nc;
        let a = match value_of(&self.current_allocations, description) {
            Some(x) => x,
            None => 0,
        };
        proof {
            lemma_put_distinct(kv(self.current_allocations@), description@, (a + bytes) as usize);
        }
        let mut al: Vec<(String, usize)> = Vec::new();
        std::mem::swap(&mut al, &mut self.current_allocations);
        put_entry(&mut al, description, a + bytes);
        self.current_allocations = al;
        let st = match value_of(&self.category_stats, description) {
            Some(x) => x,
            None => CategoryStats::default(),
        };
        proof {
            let k = kv(self.category_stats@);
            let p = pos_of(k, description@);
            lemma_pos_from(k, description@, 0);
            assert(stats_bounded(k));
            if p >= 0 {
                assert(k[p].1 == st);
                assert(st.current_bytes <= st.peak_bytes && st.current_bytes <= st.total_allocated);
            }
        }
        let cur = st.current_bytes + bytes;
        let ns = CategoryStats {
            allocation_count: st.allocation_count + 1,
            total_allocated: st.total_allocated + bytes,
            current_bytes: cur,
            peak_bytes: if cur > st.peak_bytes {
                cur
            } else {
                st.peak_bytes
            },
            ..st
        };
        proof {
            lemma_put_distinct(kv(self.category_stats@), description@, ns);
            lemma_put_bounded(kv(self.category_stats@), description@, ns);
        }
        let mut cs: Vec<(String, CategoryStats)> = Vec::new();
        std::mem::swap(&mut cs, &mut self.category_stats);
        put_entry(&mut cs, description, ns);
        self.category_stats = cs;
        assert(self@ =~= after_alloc(m, bytes, description@));
    }

    /// Record a deallocation
    pub fn record_deallocation(&mut self, bytes: usize, description: &str)
        requires
            dealloc_fits(old(self)@, bytes, description@),
        ensures
            profiler_inv(final(self)@),
            final(self)@ == after_dealloc(old(self)@, bytes, description@),
    {
        proof {
            use_type_invariant(&*self);
        }
        if !self.enabled {
            return ;
        }
        let ghost m = self@;
        let event = AllocationEvent {
            timestamp: now(),
            bytes,
            description: crate::text::copy_str(description),
            is_allocation: false,
        };
        let mut ev: Vec<AllocationEvent> = Vec::new();
        std::mem::swap(&mut ev, &mut self.events);
        push_event(&mut ev, self.max_events, event);
        self.events = ev;
        self.current_bytes = self.current_bytes.saturating_sub(bytes);
        match value_of(&self.current_allocations, description) {
            Some(x) => {
                proof {
                    lemma_put_distinct(kv(self.current_allocations@), description@, sat_sub(x, bytes));
                }
                let mut al: Vec<(String, usize)> = Vec::new();
                std::mem::swap(&mut al, &mut self.current_allocations);
                put_entry(&mut al, description, x.saturating_sub(bytes));
                self.current_allocations = al;
            },
            None => {},
        }
        let st = match value_of(&self.category_stats, description) {
            Some(x) => x,
            None => CategoryStats::default(),
        };
        proof {
            let k = kv(self.category_stats@);
            let p = pos_of(k, description@);
            lemma_pos_from(k, description@, 0);
            assert(stats_bounded(k));
            if p >= 0 {
                assert(k[p].1 == st);
                assert(st.current_bytes <= st.peak_bytes && st.current_bytes <= st.total_allocated);
            }
        }
        let ns = CategoryStats {
            deallocation_count: st.deallocation_count + 1,
            total_deallocated: st.total_deallocated + bytes,
            current_bytes: st.current_bytes.saturating_sub(bytes),
            ..st
        };
        proof {
            lemma_put_distinct(kv(self.category_stats@), description@, ns);
            lemma_put_bounded(kv(self.category_stats@), description@, ns);
        }
        let mut cs: Vec<(String, CategoryStats)> = Vec::new();
        std::mem::swap(&mut cs, &mut self.category_stats);
        put_entry(&mut cs, description, ns);
        self.category_stats = cs;
        assert(self@ =~= after_dealloc(m, bytes, description@));
    }

    /// Get current memory usage
    pub fn current_bytes(&self) -> (r: usize)
        ensures
            r == self@.current_bytes,
    {
        self.current_bytes
    }

    /// Get peak memory usage
    pub fn peak_bytes(&self) -> (r: usize)
        ensures
            r == self@.peak_bytes,
    {
        self.peak_bytes
    }

    /// Get elapsed time since profiling started (read from the clock)
    pub fn elapsed(&self) -> Duration {
        elapsed_since(&self.start_time)
    }

    /// Get allocation events
    pub fn events(&self) -> (r: &[AllocationEvent])
        ensures
            vs(r@) == self@.events,
    {
        self.events.as_slice()
    }

    /// Get current allocations by description
    pub fn current_allocations(&self) -> (r: &[(String, usize)])
        ensures
            kv(r@) == self@.allocations,
    {
        self.current_allocations.as_slice()
    }

    /// Get category statistics
    pub fn category_stats(&self) -> (r: &[(String, CategoryStats)])
        ensures
            kv(r@) == self@.stats,
    {
        self.category_stats.as_slice()
    }

    /// Set GC stats snapshot (called at report time)
    pub fn set_gc_stats(&mut self, stats: GcStats)
        ensures
            profiler_inv(final(self)@),
            final(self)@ == (ProfilerModel { gc_stats: Some(stats), ..old(self)@ }),
    {
        proof {
            use_type_invariant(&*self);
        }
        self.gc_stats = Some(stats);
    }

    /// Get GC stats if available
    pub fn gc_stats(&self) -> (r: Option<&GcStats>)
        ensures
            match r {
                Some(g) => self@.gc_stats == Some(*g),
                None => self@.gc_stats is None,
            },
    {
        self.gc_stats.as_ref()
    }

    /// Reset the profiler (and restart the clock)
    pub fn reset(&mut self)
        ensures
            profiler_inv(final(self)@),
            final(self)@ == (ProfilerModel {
                events: Seq::empty(),
                allocations: Seq::empty(),
                stats: Seq::empty(),
                peak_bytes: 0,
                current_bytes: 0,
                gc_stats: None,
                ..old(self)@
            }),
    {
        proof {
            use_type_invariant(&*self);
        }
        self.events = Vec::new();
        self.current_allocations = Vec::new();
        self.category_stats = Vec::new();
        self.current_bytes = 0;
        self.peak_bytes = 0;
        self.gc_stats = None;
        self.start_time = now();
        assert(vs(self.events@) =~= Seq::<EventModel>::empty());
        assert(kv(self.current_allocations@) =~= Seq::<(Seq<char>, usize)>::empty());
        assert(kv(self.category_stats@) =~= Seq::<(Seq<char>, CategoryStats)>::empty());
    }

}

/// `put` of bounded statistics keeps all statistics bounded.
pub proof fn lemma_put_bounded(s: Seq<(Seq<char>, CategoryStats)>, d: Seq<char>, v: CategoryStats)
    requires
        stats_bounded(s),
        v.current_bytes <= v.peak_bytes,
        v.current_bytes <= v.total_allocated,
    ensures
        stats_bounded(put(s, d, v)),
{
    lemma_pos_from(s, d, 0);
}

// ---------------------------------------------------------------------------
// Leaks and the report
// ---------------------------------------------------------------------------

/// The length in bytes of the UTF-8 encoding of `s`, as `str::len` returns it.
pub open spec fn byte_len(s: Seq<char>) -> nat {
    (encode_utf8(s).len() as usize) as nat
}

/// `truncate_str` on `s`: at most `max` bytes, ending in `"..."` when cut
/// (cuts are made at byte positions).
pub open spec fn truncate_spec(s: Seq<char>, max: nat) -> Seq<char> {
    let b = encode_utf8(s);
    if byte_len(s) <= max {
        s
    } else if max > 3 {
        decode_utf8(b.take(max - 3)) + "..."@
    } else {
        decode_utf8(b.take(max as int))
    }
}

/// `truncate_str` does not panic on `s`: the cut falls on a character boundary.
pub open spec fn truncatable(s: Seq<char>, max: nat) -> bool {
    let b = encode_utf8(s);
    byte_len(s) <= max || (max > 3 && is_char_boundary(b, max - 3)) || (max <= 3 && is_char_boundary(
        b,
        max as int,
    ))
}

/// Truncate a string to a maximum length in bytes, adding "..." if truncated
pub fn truncate_str(s: &str, max_len: usize) -> (r: String)
    requires
        truncatable(s@, max_len as nat),
    ensures
        r@ == truncate_spec(s@, max_len as nat),
{
    broadcast use vstd::utf8::encode_utf8_decode_utf8;

    if s.len() <= max_len {
        let r = crate::text::copy_str(s);
        assert(r@ == truncate_spec(s@, max_len as nat));
        r
    } else if max_len > 3 {
        let (head, _tail) = s.split_at(max_len - 3);
        assert(head.spec_bytes() =~= encode_utf8(s@).take(max_len - 3));
        proof {
            vstd::utf8::encode_utf8_decode_utf8(head@);
        }
        let mut r = crate::text::copy_str(head);
        assert(head@ == decode_utf8(encode_utf8(s@).take(max_len - 3)));
        r.append("...");
        assert(r@ == truncate_spec(s@, max_len as nat));
        r
    } else {
        let (head, _tail) = s.split_at(max_len);
        assert(head.spec_bytes() =~= encode_utf8(s@).take(max_len as int));
        proof {
            vstd::utf8::encode_utf8_decode_utf8(head@);
        }
        crate::text::copy_str(head)
    }
}

impl MemoryProfiler {
    /// Detect potential memory leaks.
    ///
    /// Returns the categories where allocations outnumber deallocations and
    /// bytes are still held, largest first.
    pub fn detect_leaks(&self) -> (r: Vec<LeakInfo>)
        ensures
            vs(r@).to_multiset() == leaks_in(self@.stats).to_multiset(),
            sorted_desc(vs(r@), |l: LeakModel| leak_bytes(l)),
    {
        let ghost cs = kv(self.category_stats@);
        let mut leaks: Vec<LeakInfo> = Vec::new();
        let mut keys: Vec<usize> = Vec::new();
        let mut i: usize = 0;
        while i < self.category_stats.len()
            invariant
                i <= self.category_stats@.len(),
                cs == kv(self.category_stats@),
                vs(leaks@) == leaks_in(cs.take(i as int)),
                keys@.len() == leaks@.len(),
                forall|k: int| 0 <= k < leaks@.len() ==> keys@[k] as nat == leak_bytes(leaks@[k]@),
            decreases self.category_stats.len() - i,
        {
            assert(cs.take(i + 1).drop_last() =~= cs.take(i as int));
            let entry = &self.category_stats[i];
            let stats = entry.1;
            let unmatched = stats.allocation_count.saturating_sub(stats.deallocation_count);
            let ghost before = vs(leaks@);
            if unmatched > 0 && stats.current_bytes > 0 {
                let leak = LeakInfo {
                    category: entry.0.clone(),
                    unmatched_allocations: unmatched,
                    bytes: stats.current_bytes,
                };
                leaks.push(leak);
                keys.push(stats.current_bytes);
                assert(vs(leaks@) =~= before.push(leak@));
            }
            i = i + 1;
        }
        assert(cs.take(cs.len() as int) =~= cs);
        sort_desc_by_key(leaks, keys, Ghost(|l: LeakModel| leak_bytes(l)))
    }
}

/// Seconds with three decimals from a duration in nanoseconds (milliseconds
/// rounded half to even).
pub open spec fn seconds3(nanos: nat) -> Seq<char> {
    let q = round_to_multiple(nanos, 1_000_000) / 1_000_000;
    dec(q / 1000) + "."@ + seq![
        crate::fmt::digit((q % 1000) / 100),
        crate::fmt::digit((q % 100) / 10),
        crate::fmt::digit(q % 10),
    ]
}

/// The opening lines of the report.
pub open spec fn report_head(m: ProfilerModel, nanos: nat) -> Seq<char> {
    "=== Memory Profile Report ===\n\n"@ + "Execution Time: "@ + seconds3(nanos) + "s\n"@
        + "Peak Memory:    "@ + format_bytes_spec(m.peak_bytes as nat) + "\n"@ + "Final Memory:   "@
        + format_bytes_spec(m.current_bytes as nat) + "\n"@
}

/// The GC section of the report.
pub open spec fn report_gc(m: ProfilerModel) -> Seq<char> {
    match m.gc_stats {
        Some(g) => "\n--- GC Statistics ---\n"@ + "Collections:     "@ + dec(g.collections as nat)
            + "\n"@ + "Cycles Broken:   "@ + dec(g.cycles_broken as nat) + "\n"@
            + "Objects Tracked: "@ + dec(g.tracked_objects as nat) + "\n"@ + "Threshold:       "@
            + dec(g.threshold as nat) + "\n"@,
        None => Seq::empty(),
    }
}

/// The column headings of the allocation breakdown.
pub open spec fn breakdown_heading() -> Seq<char> {
    pad_right_spec("Category"@, 12) + " "@ + pad_left_spec("Allocs"@, 10) + " "@ + pad_left_spec(
        "Deallocs"@,
        10,
    ) + " "@ + pad_left_spec("Total"@, 12) + " "@ + pad_left_spec("Current"@, 12) + "\n"@
}

/// One row of the allocation breakdown.
pub open spec fn breakdown_row(e: (Seq<char>, CategoryStats)) -> Seq<char> {
    pad_right_spec(truncate_spec(e.0, 12), 12) + " "@ + pad_left_spec(
        dec(e.1.allocation_count as nat),
        10,
    ) + " "@ + pad_left_spec(dec(e.1.deallocation_count as nat), 10) + " "@ + pad_left_spec(
        format_bytes_spec(e.1.total_allocated as nat),
        12,
    ) + " "@ + pad_left_spec(format_bytes_spec(e.1.current_bytes as nat), 12) + "\n"@
}

/// `n` dashes.
pub open spec fn dashes(n: nat) -> Seq<char> {
    Seq::new(n, |i: int| '-')
}

/// The allocation breakdown, categories listed in the given order.
pub open spec fn report_breakdown(m: ProfilerModel, order: Seq<usize>) -> Seq<char> {
    if m.stats.len() == 0 {
        Seq::empty()
    } else {
        "\n--- Allocation Breakdown ---\n"@ + breakdown_heading() + dashes(58) + "\n"@ + concat(
            order.map_values(|i: usize| breakdown_row(m.stats[i as int])),
        )
    }
}

/// One line of the leak section.
pub open spec fn leak_line(l: LeakModel) -> Seq<char> {
    "  "@ + l.category + ": "@ + dec(l.unmatched_allocations as nat) + " unmatched ("@
        + format_bytes_spec(l.bytes as nat) + " bytes)\n"@
}

/// The leak section of the report.
pub open spec fn report_leaks(m: ProfilerModel, leaks: Seq<LeakModel>) -> Seq<char> {
    if leaks.len() > 0 {
        "\n--- Potential Leaks ---\n"@ + "(Objects allocated but not deallocated - may be intentional)\n"@
            + concat(leaks.map_values(|l: LeakModel| leak_line(l)))
    } else if m.current_bytes == 0 {
        "\nNo memory leaks detected.\n"@
    } else {
        Seq::empty()
    }
}

/// The whole report, given the elapsed time, the order of the categories and
/// the leaks.
pub open spec fn report(m: ProfilerModel, nanos: nat, order: Seq<usize>, leaks: Seq<LeakModel>) -> Seq<char> {
    report_head(m, nanos) + report_gc(m) + report_breakdown(m, order) + report_leaks(m, leaks)
}

/// `0, 1, ..., n-1`.
pub open spec fn range_seq(n: nat) -> Seq<usize> {
    Seq::new(n, |i: int| i as usize)
}

/// The category order of the report: every category once, largest total
/// allocated first.
pub open spec fn breakdown_order(m: ProfilerModel, order: Seq<usize>) -> bool {
    &&& order.to_multiset() == range_seq(m.stats.len()).to_multiset()
    &&& forall|i: int| 0 <= i < order.len() ==> order[i] < m.stats.len()
    &&& forall|i: int, j: int|
        0 <= i < j < order.len() ==> m.stats[order[i] as int].1.total_allocated >= m.stats[order[j] as int].1.total_allocated
}

/// The report can be written: no category name is cut inside a character.
pub open spec fn reportable(m: ProfilerModel) -> bool {
    forall|i: int| 0 <= i < m.stats.len() ==> truncatable(#[trigger] m.stats[i].0, 12)
}

/// Appends seconds with three decimals.
fn push_seconds3(out: &mut String, nanos: u128)
    requires
        nanos <= u64::MAX,
    ensures
        final(out)@ == old(out)@ + seconds3(nanos as nat),
{
    let lo = nanos / 1_000_000;
    let rem = nanos % 1_000_000;
    proof {
        assert(lo * 1_000_000 + rem == nanos) by (nonlinear_arith)
            requires
                lo == nanos / 1_000_000,
                rem == nanos % 1_000_000,
        ;
    }
    let q = if 2 * rem > 1_000_000 || (2 * rem == 1_000_000 && lo % 2 == 1) {
        lo + 1
    } else {
        lo
    };
    proof {
        assert(round_to_multiple(nanos as nat, 1_000_000) / 1_000_000 == q) by (nonlinear_arith)
            requires
                lo == nanos / 1_000_000,
                rem == nanos % 1_000_000,
                q == (if 2 * rem > 1_000_000 || (2 * rem == 1_000_000 && lo % 2 == 1) {
                    lo + 1
                } else {
                    lo as int
                }),
        ;
    }
    push_dec(out, q / 1000);
    crate::text::push_char(out, '.');
    crate::text::push_char(out, crate::fmt::digit_char((q % 1000) / 100));
    crate::text::push_char(out, crate::fmt::digit_char((q % 100) / 10));
    crate::text::push_char(out, crate::fmt::digit_char(q % 10));
    proof {
        reveal_strlit(".");
    }
    assert(out@ =~= old(out)@ + seconds3(nanos as nat));
}

/// `Duration::as_nanos`: the whole nanoseconds of a duration.  Nothing is
/// promised of the value.
#[verifier::external_body]
fn duration_nanos(d: &Duration) -> u128 {
    d.as_nanos()
}

impl MemoryProfiler {
    /// Whether [`MemoryProfiler::summary`] can be written for this profiler.
    pub fn can_summarize(&self) -> (r: bool)
        ensures
            r == reportable(self@),
    {
        let mut i: usize = 0;
        while i < self.category_stats.len()
            invariant
                i <= self.category_stats@.len(),
                forall|k: int| 0 <= k < i ==> truncatable(#[trigger] self@.stats[k].0, 12),
            decreases self.category_stats.len() - i,
        {
            let name = self.category_stats[i].0.as_str();
            assert(kv(self.category_stats@)[i as int].0 == name@);
            assert(self@.stats[i as int].0 == name@);
            assert(name.spec_bytes() == encode_utf8(name@));
            let ok = name.len() <= 12 || name.is_char_boundary(9);
            if !ok {
                assert(!truncatable(kv(self.category_stats@)[i as int].0, 12));
                assert(self@.stats[i as int].0 == name@);
                assert(!truncatable(self@.stats[i as int].0, 12));
                return false;
            }
            i = i + 1;
        }
        true
    }
}

/// Appends `n` dashes.
fn push_dashes(out: &mut String, n: usize)
    ensures
        final(out)@ == old(out)@ + dashes(n as nat),
{
    let mut i: usize = 0;
    while i < n
        invariant
            i <= n,
            out@ == old(out)@ + dashes(i as nat),
        decreases n - i,
    {
        crate::text::push_char(out, '-');
        assert(dashes((i + 1) as nat) =~= dashes(i as nat).push('-'));
        i = i + 1;
    }
}

/// The report head for a profiler.
fn write_head(out: &mut String, m: &MemoryProfiler, nanos: u128)
    requires
        nanos <= u64::MAX,
    ensures
        final(out)@ == old(out)@ + report_head(m@, nanos as nat),
{
    out.append("=== Memory Profile Report ===\n\n");
    out.append("Execution Time: ");
    push_seconds3(out, nanos);
    out.append("s\n");
    out.append("Peak Memory:    ");
    out.append(format_bytes(m.peak_bytes).as_str());
    out.append("\n");
    out.append("Final Memory:   ");
    out.append(format_bytes(m.current_bytes).as_str());
    out.append("\n");
    assert(out@ =~= old(out)@ + report_head(m@, nanos as nat));
}

/// The GC section for a profiler.
fn write_gc(out: &mut String, m: &MemoryProfiler)
    ensures
        final(out)@ == old(out)@ + report_gc(m@),
{
    match &m.gc_stats {
        Some(gc) => {
            out.append("\n--- GC Statistics ---\n");
            out.append("Collections:     ");
            push_dec(out, gc.collections as u128);
            out.append("\n");
            out.append("Cycles Broken:   ");
            push_dec(out, gc.cycles_broken as u128);
            out.append("\n");
            out.append("Objects Tracked: ");
            push_dec(out, gc.tracked_objects as u128);
            out.append("\n");
            out.append("Threshold:       ");
            push_dec(out, gc.threshold as u128);
            out.append("\n");
            assert(out@ =~= old(out)@ + report_gc(m@));
        },
        None => {
            assert(out@ =~= old(out)@ + report_gc(m@));
        },
    }
}

/// One row of the allocation breakdown.
#[verifier::rlimit(50)]
fn write_row(out: &mut String, name: &String, st: &CategoryStats)
    requires
        truncatable(name@, 12),
    ensures
        final(out)@ == old(out)@ + breakdown_row((name@, *st)),
{
    let t = truncate_str(name.as_str(), 12);
    push_pad_right(out, t.as_str(), 12);
    out.append(" ");
    let a = crate::fmt::format_usize(st.allocation_count);
    push_pad_left(out, a.as_str(), 10);
    out.append(" ");
    let d = crate::fmt::format_usize(st.deallocation_count);
    push_pad_left(out, d.as_str(), 10);
    out.append(" ");
    let ta = format_bytes(st.total_allocated);
    push_pad_left(out, ta.as_str(), 12);
    out.append(" ");
    let cb = format_bytes(st.current_bytes);
    push_pad_left(out, cb.as_str(), 12);
    out.append("\n");
    assert(out@ =~= old(out)@ + breakdown_row((name@, *st)));
}

/// Every element of a permutation of `0..n` is below `n`.
proof fn lemma_perm_bound(order: Seq<usize>, n: nat)
    requires
        order.to_multiset() == range_seq(n).to_multiset(),
    ensures
        forall|k: int| 0 <= k < order.len() ==> order[k] < n,
{
    assert forall|k: int| 0 <= k < order.len() implies order[k] < n by {
        range_seq(n).to_multiset_ensures();
        order.to_multiset_ensures();
        assert(order.contains(order[k]));
        assert(order.to_multiset().count(order[k]) > 0);
        assert(range_seq(n).to_multiset().count(order[k]) > 0);
        assert(range_seq(n).contains(order[k]));
        let j = choose|j: int| 0 <= j < range_seq(n).len() && range_seq(n)[j] == order[k];
        assert(range_seq(n)[j] == j as usize);
    }
}

/// The heading of the allocation breakdown.
fn write_heading(out: &mut String)
    ensures
        final(out)@ == old(out)@ + "\n--- Allocation Breakdown ---\n"@ + breakdown_heading() + dashes(
            58,
        ) + "\n"@,
{
    out.append("\n--- Allocation Breakdown ---\n");
    push_pad_right(out, "Category", 12);
    out.append(" ");
    push_pad_left(out, "Allocs", 10);
    out.append(" ");
    push_pad_left(out, "Deallocs", 10);
    out.append(" ");
    push_pad_left(out, "Total", 12);
    out.append(" ");
    push_pad_left(out, "Current", 12);
    out.append("\n");
    push_dashes(out, 58);
    out.append("\n");
    assert(out@ =~= old(out)@ + "\n--- Allocation Breakdown ---\n"@ + breakdown_heading() + dashes(58)
        + "\n"@);
}

/// The allocation breakdown of a profiler, and the order of its rows.
fn write_breakdown(out: &mut String, m: &MemoryProfiler) -> (order: Ghost<Seq<usize>>)
    requires
        reportable(m@),
    ensures
        breakdown_order(m@, order@),
        final(out)@ == old(out)@ + report_breakdown(m@, order@),
{
    broadcast use vstd::seq_lib::group_to_multiset_ensures;

    let n = m.category_stats.len();
    if n == 0 {
        assert(out@ =~= old(out)@ + report_breakdown(m@, Seq::empty()));
        assert(Seq::<usize>::empty().to_multiset() =~= range_seq(0).to_multiset()) by {
            assert(range_seq(0) =~= Seq::<usize>::empty());
        }
        return Ghost(Seq::empty());
    }
    write_heading(out);
    let ghost prefix = out@;
    let mut idx: Vec<usize> = Vec::new();
    let mut keys: Vec<usize> = Vec::new();
    let mut i: usize = 0;
    while i < n
        invariant
            n == m.category_stats@.len(),
            i <= n,
            idx@ == range_seq(i as nat),
            keys@.len() == idx@.len(),
            forall|k: int| 0 <= k < idx@.len() ==> keys@[k] == m@.stats[idx@[k] as int].1.total_allocated,
        decreases n - i,
    {
        idx.push(i);
        keys.push(m.category_stats[i].1.total_allocated);
        assert(idx@ =~= range_seq((i + 1) as nat));
        i = i + 1;
    }
    let ghost key = |j: usize| m@.stats[j as int].1.total_allocated as nat;
    let order = sort_desc_by_key(idx, keys, Ghost(key));
    assert(vs(order@) =~= order@);
    assert(vs(range_seq(n as nat)) =~= range_seq(n as nat));
    proof {
        lemma_perm_bound(order@, n as nat);
    }
    let ghost rows = order@.map_values(|j: usize| breakdown_row(m@.stats[j as int]));
    let mut k: usize = 0;
    while k < order.len()
        invariant
            k <= order@.len(),
            rows == order@.map_values(|j: usize| breakdown_row(m@.stats[j as int])),
            forall|q: int| 0 <= q < order@.len() ==> order@[q] < m@.stats.len(),
            n == m.category_stats@.len(),
            reportable(m@),
            out@ == prefix + concat(rows.take(k as int)),
        decreases order.len() - k,
    {
        let j = order[k];
        assert(rows.take(k + 1).drop_last() =~= rows.take(k as int));
        assert(m@.stats[j as int].0 == m.category_stats@[j as int].0@);
        assert(truncatable(m@.stats[j as int].0, 12));
        write_row(out, &m.category_stats[j].0, &m.category_stats[j].1);
        assert(rows.take(k + 1).last() == breakdown_row(m@.stats[j as int]));
        k = k + 1;
    }
    assert(rows.take(order@.len() as int) =~= rows);
    assert(out@ =~= old(out)@ + report_breakdown(m@, order@));
    Ghost(order@)
}

/// The leak section of a profiler, and the leaks listed.
fn write_leaks(out: &mut String, m: &MemoryProfiler) -> (leaks: Ghost<Seq<LeakModel>>)
    ensures
        leaks@.to_multiset() == leaks_in(m@.stats).to_multiset(),
        sorted_desc(leaks@, |l: LeakModel| leak_bytes(l)),
        final(out)@ == old(out)@ + report_leaks(m@, leaks@),
{
    let leaks = m.detect_leaks();
    let ghost lv = vs(leaks@);
    if leaks.len() > 0 {
        out.append("\n--- Potential Leaks ---\n");
        out.append("(Objects allocated but not deallocated - may be intentional)\n");
        let ghost prefix = out@;
        let ghost lines = lv.map_values(|l: LeakModel| leak_line(l));
        let mut i: usize = 0;
        while i < leaks.len()
            invariant
                i <= leaks@.len(),
                lv == vs(leaks@),
                lines == lv.map_values(|l: LeakModel| leak_line(l)),
                out@ == prefix + concat(lines.take(i as int)),
            decreases leaks.len() - i,
        {
            assert(lines.take(i + 1).drop_last() =~= lines.take(i as int));
            let leak = &leaks[i];
            out.append("  ");
            out.append(leak.category.as_str());
            out.append(": ");
            push_dec(out, leak.unmatched_allocations as u128);
            out.append(" unmatched (");
            out.append(format_bytes(leak.bytes).as_str());
            out.append(" bytes)\n");
            assert(lines.take(i + 1).last() == leak_line(leak@));
            i = i + 1;
        }
        assert(lines.take(lv.len() as int) =~= lines);
        assert(out@ =~= old(out)@ + report_leaks(m@, lv));
    } else if m.current_bytes == 0 {
        out.append("\nNo memory leaks detected.\n");
        assert(out@ =~= old(out)@ + report_leaks(m@, lv));
    } else {
        assert(out@ =~= old(out)@ + report_leaks(m@, lv));
    }
    Ghost(lv)
}

impl MemoryProfiler {
    /// The summary report for a profiling session that has lasted `nanos`
    /// nanoseconds.
    pub fn summary_with_elapsed(&self, nanos: u128) -> (r: String)
        requires
            reportable(self@),
            nanos <= u64::MAX,
        ensures
            exists|order: Seq<usize>, leaks: Seq<LeakModel>|
                breakdown_order(self@, order) && leaks.to_multiset() == leaks_in(
                    self@.stats,
                ).to_multiset() && sorted_desc(leaks, |l: LeakModel| leak_bytes(l)) && r@ == report(
                    self@,
                    nanos as nat,
                    order,
                    leaks,
                ),
    {
        let mut report_s = String::new();
        write_head(&mut report_s, self, nanos);
        write_gc(&mut report_s, self);
        let order = write_breakdown(&mut report_s, self);
        let leaks = write_leaks(&mut report_s, self);
        assert(report_s@ =~= report(self@, nanos as nat, order@, leaks@));
        report_s
    }

    /// Generate a summary report, timed by the clock.
    pub fn summary(&self) -> (r: String)
        requires
            reportable(self@),
        ensures
            exists|nanos: nat, order: Seq<usize>, leaks: Seq<LeakModel>|
                breakdown_order(self@, order) && leaks.to_multiset() == leaks_in(
                    self@.stats,
                ).to_multiset() && sorted_desc(leaks, |l: LeakModel| leak_bytes(l)) && r@ == report(
                    self@,
                    nanos,
                    order,
                    leaks,
                ),
    {
        let d = self.elapsed();
        let raw = duration_nanos(&d);
        let nanos: u128 = if raw > 0xffff_ffff_ffff_ffff {
            0xffff_ffff_ffff_ffff
        } else {
            raw
        };
        self.summary_with_elapsed(nanos)
    }
}

} // verus!
