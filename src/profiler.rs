//! Profiler state: counters and the call-site table, the operations that
//! update them, and immutable snapshots of them.

use vstd::prelude::*;
use crate::symbols::{
    backtrace_symbols, extract_frames, resolve_backtrace, strings_view, MAX_FRAMES,
};
use crate::text::{chars_of, push_all, string_of};
use backtrace::Backtrace;

verus! {

/// Occurrences of one allocation site.
#[derive(Debug)]
pub struct AllocationSite {
    pub count: usize,
    pub total_bytes: usize,
    pub frames: Vec<String>,
}

/// The mathematical value of an `AllocationSite`.
pub struct SiteView {
    pub count: nat,
    pub total_bytes: nat,
    pub frames: Seq<Seq<char>>,
}

impl View for AllocationSite {
    type V = SiteView;

    open spec fn view(&self) -> SiteView {
        SiteView {
            count: self.count as nat,
            total_bytes: self.total_bytes as nat,
            frames: strings_view(self.frames@),
        }
    }
}

/// The views of a site table.
pub open spec fn table_view(t: Seq<(String, AllocationSite)>) -> Seq<(Seq<char>, SiteView)> {
    t.map_values(|e: (String, AllocationSite)| (e.0@, e.1@))
}

/// An immutable copy of every profiler counter and of the site table, keyed
/// by stack signature.
#[derive(Debug)]
pub struct ProfileSnapshot {
    pub total_allocations: usize,
    pub total_deallocations: usize,
    pub total_bytes_allocated: usize,
    pub peak_memory: usize,
    pub current_memory: usize,
    pub allocation_sites: Vec<(String, AllocationSite)>,
}

/// The mathematical value of a snapshot, and of the profiler's counters.
pub struct SnapshotView {
    pub total_allocations: nat,
    pub total_deallocations: nat,
    pub total_bytes_allocated: nat,
    pub peak_memory: nat,
    pub current_memory: nat,
    pub sites: Seq<(Seq<char>, SiteView)>,
}

impl View for ProfileSnapshot {
    type V = SnapshotView;

    open spec fn view(&self) -> SnapshotView {
        SnapshotView {
            total_allocations: self.total_allocations as nat,
            total_deallocations: self.total_deallocations as nat,
            total_bytes_allocated: self.total_bytes_allocated as nat,
            peak_memory: self.peak_memory as nat,
            current_memory: self.current_memory as nat,
            sites: table_view(self.allocation_sites@),
        }
    }
}

/// Sum of the site counts.
pub open spec fn sum_counts(sites: Seq<(Seq<char>, SiteView)>) -> nat
    decreases sites.len(),
{
    if sites.len() == 0 {
        0
    } else {
        sum_counts(sites.drop_last()) + sites.last().1.count
    }
}

/// Sum of the site byte totals.
pub open spec fn sum_bytes(sites: Seq<(Seq<char>, SiteView)>) -> nat
    decreases sites.len(),
{
    if sites.len() == 0 {
        0
    } else {
        sum_bytes(sites.drop_last()) + sites.last().1.total_bytes
    }
}

/// The stack signature: the frames joined by line breaks, in order.
pub open spec fn signature(frames: Seq<Seq<char>>) -> Seq<char>
    decreases frames.len(),
{
    if frames.len() == 0 {
        seq![]
    } else if frames.len() == 1 {
        frames[0]
    } else {
        signature(frames.drop_last()) + seq!['\n'] + frames.last()
    }
}

/// Some entry of `sites` has key `key`.
pub open spec fn has_key(sites: Seq<(Seq<char>, SiteView)>, key: Seq<char>) -> bool {
    exists|i: int| 0 <= i < sites.len() && sites[i].0 == key
}

/// The table after one more allocation of `size` bytes at the site of `frames`:
/// the site's count and bytes grow, or a new site is added at the end.
pub open spec fn add_to_site(
    sites: Seq<(Seq<char>, SiteView)>,
    size: nat,
    frames: Seq<Seq<char>>,
) -> Seq<(Seq<char>, SiteView)> {
    let key = signature(frames);
    if has_key(sites, key) {
        let i = choose|i: int| 0 <= i < sites.len() && sites[i].0 == key;
        sites.update(
            i,
            (
                key,
                SiteView {
                    count: sites[i].1.count + 1,
                    total_bytes: sites[i].1.total_bytes + size,
                    frames: sites[i].1.frames,
                },
            ),
        )
    } else {
        sites.push((key, SiteView { count: 1, total_bytes: size, frames }))
    }
}

impl SnapshotView {
    /// All counters zero, no sites.
    pub open spec fn empty() -> SnapshotView {
        SnapshotView {
            total_allocations: 0,
            total_deallocations: 0,
            total_bytes_allocated: 0,
            peak_memory: 0,
            current_memory: 0,
            sites: seq![],
        }
    }

    /// The invariant of live profiler counters: one entry per signature, the
    /// site table sums to the totals, and the live gauge never passes the peak.
    pub open spec fn wf(self) -> bool {
        &&& forall|i: int, j: int|
            0 <= i < j < self.sites.len() ==> self.sites[i].0 != self.sites[j].0
        &&& sum_counts(self.sites) == self.total_allocations
        &&& sum_bytes(self.sites) == self.total_bytes_allocated
        &&& self.current_memory <= self.peak_memory
        &&& self.peak_memory <= self.total_bytes_allocated
        &&& self.total_allocations <= usize::MAX
        &&& self.total_deallocations <= usize::MAX
        &&& self.total_bytes_allocated <= usize::MAX
    }

    /// An allocation of `size` bytes can be counted without a total passing
    /// `usize::MAX`.
    pub open spec fn fits(self, size: nat) -> bool {
        self.total_allocations < usize::MAX && self.total_bytes_allocated + size <= usize::MAX
    }

    /// The counters after an allocation of `size` bytes from the stack `frames`.
    /// An allocation that would carry a total past `usize::MAX` is dropped whole.
    pub open spec fn recorded(self, size: nat, frames: Seq<Seq<char>>) -> SnapshotView {
        if !self.fits(size) {
            self
        } else {
            let current = self.current_memory + size;
            SnapshotView {
                total_allocations: self.total_allocations + 1,
                total_bytes_allocated: self.total_bytes_allocated + size,
                current_memory: current,
                peak_memory: if current > self.peak_memory {
                    current
                } else {
                    self.peak_memory
                },
                sites: add_to_site(self.sites, size, frames),
                ..self
            }
        }
    }

    /// The counters after a deallocation of `size` bytes: the live gauge drops
    /// by `size`, never below zero.
    pub open spec fn released(self, size: nat) -> SnapshotView {
        if self.total_deallocations >= usize::MAX {
            self
        } else {
            SnapshotView {
                total_deallocations: self.total_deallocations + 1,
                current_memory: if self.current_memory >= size {
                    (self.current_memory - size) as nat
                } else {
                    0
                },
                ..self
            }
        }
    }
}

/// What the interception layer reports to the profiler, and the switch.
pub enum ProfilerEvent {
    Allocate { size: nat, frames: Seq<Seq<char>> },
    Deallocate { size: nat },
    Reallocate { old_size: nat, new_size: nat, frames: Seq<Seq<char>> },
    Enable,
    Disable,
}

impl ProfilerEvent {
    /// An event of the host program's heap, as opposed to the switch.
    pub open spec fn is_heap_event(self) -> bool {
        !(self is Enable) && !(self is Disable)
    }
}

/// The mathematical value of a profiler: its switch and its counters.
pub struct ProfilerView {
    pub active: bool,
    pub state: SnapshotView,
}

impl ProfilerView {
    /// A fresh profiler: disabled, all counters zero.
    pub open spec fn initial() -> ProfilerView {
        ProfilerView { active: false, state: SnapshotView::empty() }
    }

    /// The profiler after one event. While disabled, heap events change nothing.
    pub open spec fn step(self, e: ProfilerEvent) -> ProfilerView {
        match e {
            ProfilerEvent::Enable => ProfilerView { active: true, ..self },
            ProfilerEvent::Disable => ProfilerView { active: false, ..self },
            ProfilerEvent::Allocate { size, frames } => if self.active {
                ProfilerView { state: self.state.recorded(size, frames), ..self }
            } else {
                self
            },
            ProfilerEvent::Deallocate { size } => if self.active {
                ProfilerView { state: self.state.released(size), ..self }
            } else {
                self
            },
            ProfilerEvent::Reallocate { old_size, new_size, frames } => if self.active {
                ProfilerView {
                    state: self.state.released(old_size).recorded(new_size, frames),
                    ..self
                }
            } else {
                self
            },
        }
    }

    /// The profiler after the events `es`, in order.
    pub open spec fn run(self, es: Seq<ProfilerEvent>) -> ProfilerView
        decreases es.len(),
    {
        if es.len() == 0 {
            self
        } else {
            self.run(es.drop_last()).step(es.last())
        }
    }
}


proof fn lemma_sums_push(s: Seq<(Seq<char>, SiteView)>, x: (Seq<char>, SiteView))
    ensures
        sum_counts(s.push(x)) == sum_counts(s) + x.1.count,
        sum_bytes(s.push(x)) == sum_bytes(s) + x.1.total_bytes,
{
    assert(s.push(x).drop_last() =~= s);
}

proof fn lemma_sums_update(s: Seq<(Seq<char>, SiteView)>, i: int, x: (Seq<char>, SiteView))
    requires
        0 <= i < s.len(),
    ensures
        sum_counts(s.update(i, x)) + s[i].1.count == sum_counts(s) + x.1.count,
        sum_bytes(s.update(i, x)) + s[i].1.total_bytes == sum_bytes(s) + x.1.total_bytes,
    decreases s.len(),
{
    if i == s.len() - 1 {
        assert(s.update(i, x).drop_last() =~= s.drop_last());
    } else {
        lemma_sums_update(s.drop_last(), i, x);
        assert(s.update(i, x).drop_last() =~= s.drop_last().update(i, x));
    }
}

proof fn lemma_site_within_sums(s: Seq<(Seq<char>, SiteView)>, i: int)
    requires
        0 <= i < s.len(),
    ensures
        s[i].1.count <= sum_counts(s),
        s[i].1.total_bytes <= sum_bytes(s),
    decreases s.len(),
{
    if i < s.len() - 1 {
        lemma_site_within_sums(s.drop_last(), i);
    }
}

/// Counting an allocation keeps the counters well formed.
proof fn lemma_recorded_wf(st: SnapshotView, size: nat, frames: Seq<Seq<char>>)
    requires
        st.wf(),
    ensures
        st.recorded(size, frames).wf(),
{
    if st.fits(size) {
        let key = signature(frames);
        if has_key(st.sites, key) {
            let i = choose|i: int| 0 <= i < st.sites.len() && st.sites[i].0 == key;
            let x = (
                key,
                SiteView {
                    count: st.sites[i].1.count + 1,
                    total_bytes: st.sites[i].1.total_bytes + size,
                    frames: st.sites[i].1.frames,
                },
            );
            lemma_sums_update(st.sites, i, x);
        } else {
            lemma_sums_push(st.sites, (key, SiteView { count: 1, total_bytes: size, frames }));
        }
    }
}

/// Every event keeps the profiler well formed.
proof fn lemma_step_wf(p: ProfilerView, e: ProfilerEvent)
    requires
        p.state.wf(),
    ensures
        p.step(e).state.wf(),
{
    match e {
        ProfilerEvent::Allocate { size, frames } => lemma_recorded_wf(p.state, size, frames),
        ProfilerEvent::Reallocate { old_size, new_size, frames } => lemma_recorded_wf(
            p.state.released(old_size),
            new_size,
            frames,
        ),
        _ => {},
    }
}

/// The live profiler counters and site table.
pub struct ProfilerData {
    total_allocations: usize,
    total_deallocations: usize,
    total_bytes_allocated: usize,
    peak_memory: usize,
    current_memory: usize,
    allocation_sites: Vec<(String, AllocationSite)>,
}

impl View for ProfilerData {
    type V = SnapshotView;

    closed spec fn view(&self) -> SnapshotView {
        SnapshotView {
            total_allocations: self.total_allocations as nat,
            total_deallocations: self.total_deallocations as nat,
            total_bytes_allocated: self.total_bytes_allocated as nat,
            peak_memory: self.peak_memory as nat,
            current_memory: self.current_memory as nat,
            sites: table_view(self.allocation_sites@),
        }
    }
}

/// A copy of a vector of strings.
pub fn copy_strings(v: &Vec<String>) -> (r: Vec<String>)
    ensures
        r@ == v@,
{
    let mut r: Vec<String> = Vec::new();
    let mut i: usize = 0;
    while i < v.len()
        invariant
            i <= v@.len(),
            r@ == v@.take(i as int),
        decreases v@.len() - i,
    {
        r.push(v[i].clone());
        assert(v@.take(i + 1) =~= v@.take(i as int).push(v@[i as int]));
        i = i + 1;
    }
    assert(v@.take(v@.len() as int) =~= v@);
    r
}

impl AllocationSite {
    /// A copy of this site.
    pub fn copied(&self) -> (r: AllocationSite)
        ensures
            r@ == self@,
    {
        AllocationSite {
            count: self.count,
            total_bytes: self.total_bytes,
            frames: copy_strings(&self.frames),
        }
    }
}

/// A copy of a site table.
fn copy_table(t: &Vec<(String, AllocationSite)>) -> (r: Vec<(String, AllocationSite)>)
    ensures
        table_view(r@) == table_view(t@),
{
    let mut r: Vec<(String, AllocationSite)> = Vec::new();
    let mut i: usize = 0;
    while i < t.len()
        invariant
            i <= t@.len(),
            table_view(r@) == table_view(t@.take(i as int)),
        decreases t@.len() - i,
    {
        let e = &t[i];
        let ghost before = r@;
        r.push((e.0.clone(), e.1.copied()));
        assert(table_view(r@) =~= table_view(before).push((e.0@, e.1@)));
        assert(table_view(t@.take(i + 1)) =~= table_view(t@.take(i as int)).push((e.0@, e.1@)));
        i = i + 1;
    }
    assert(t@.take(t@.len() as int) =~= t@);
    r
}

/// The stack signature of `frames`.
fn join_frames(frames: &Vec<String>) -> (r: String)
    ensures
        r@ == signature(strings_view(frames@)),
{
    let mut out: Vec<char> = Vec::new();
    let mut i: usize = 0;
    while i < frames.len()
        invariant
            i <= frames@.len(),
            out@ == signature(strings_view(frames@.take(i as int))),
        decreases frames@.len() - i,
    {
        let ghost before = out@;
        if i > 0 {
            out.push('\n');
        }
        push_all(&mut out, &chars_of(frames[i].as_str()));
        let ghost next = strings_view(frames@.take(i + 1));
        assert(next =~= strings_view(frames@.take(i as int)).push(frames@[i as int]@));
        if i == 0 {
            assert(out@ =~= next[0]);
        } else {
            assert(next.drop_last() =~= strings_view(frames@.take(i as int)));
            assert(out@ =~= before + seq!['\n'] + next.last());
        }
        i = i + 1;
    }
    assert(frames@.take(frames@.len() as int) =~= frames@);
    string_of(&out)
}

/// Position of the entry of `t` whose key is `key`.
fn find_site(t: &Vec<(String, AllocationSite)>, key: &String) -> (r: Option<usize>)
    ensures
        match r {
            Some(i) => i < t@.len() && t@[i as int].0@ == key@,
            None => forall|j: int| 0 <= j < t@.len() ==> t@[j].0@ != key@,
        },
{
    let mut i: usize = 0;
    while i < t.len()
        invariant
            i <= t@.len(),
            forall|j: int| 0 <= j < i ==> t@[j].0@ != key@,
        decreases t@.len() - i,
    {
        if t[i].0 == *key {
            return Some(i);
        }
        i = i + 1;
    }
    None
}

impl ProfilerData {
    fn new() -> (r: ProfilerData)
        ensures
            r@ == SnapshotView::empty(),
    {
        let r = ProfilerData {
            total_allocations: 0,
            total_deallocations: 0,
            total_bytes_allocated: 0,
            peak_memory: 0,
            current_memory: 0,
            allocation_sites: Vec::new(),
        };
        assert(r@.sites =~= Seq::<(Seq<char>, SiteView)>::empty());
        r
    }

    fn record(&mut self, size: usize, frames: Vec<String>)
        requires
            old(self)@.wf(),
        ensures
            final(self)@ == old(self)@.recorded(size as nat, strings_view(frames@)),
    {
        if self.total_allocations == usize::MAX || size > usize::MAX - self.total_bytes_allocated {
            return;
        }
        let ghost frames_v = strings_view(frames@);
        let ghost old_sites = self@.sites;
        let key = join_frames(&frames);
        let new_current = self.current_memory + size;
        self.total_allocations = self.total_allocations + 1;
        self.total_bytes_allocated = self.total_bytes_allocated + size;
        self.current_memory = new_current;
        if new_current > self.peak_memory {
            self.peak_memory = new_current;
        }
        match find_site(&self.allocation_sites, &key) {
            Some(i) => {
                proof {
                    lemma_site_within_sums(old_sites, i as int);
                    assert(old_sites[i as int].0 == key@);
                    let k = choose|k: int| 0 <= k < old_sites.len() && old_sites[k].0 == key@;
                    assert(k == i);
                }
                let (k, site) = self.allocation_sites.remove(i);
                let updated = AllocationSite {
                    count: site.count + 1,
                    total_bytes: site.total_bytes + size,
                    frames: site.frames,
                };
                self.allocation_sites.insert(i, (k, updated));
                assert(self@.sites =~= add_to_site(old_sites, size as nat, frames_v));
            },
            None => {
                self.allocation_sites.push(
                    (key, AllocationSite { count: 1, total_bytes: size, frames }),
                );
                assert(self@.sites =~= add_to_site(old_sites, size as nat, frames_v));
            },
        }
    }

    fn release(&mut self, size: usize)
        ensures
            final(self)@ == old(self)@.released(size as nat),
    {
        if self.total_deallocations == usize::MAX {
            return;
        }
        self.total_deallocations = self.total_deallocations + 1;
        self.current_memory = if self.current_memory >= size {
            self.current_memory - size
        } else {
            0
        };
    }

    fn snapshot(&self) -> (r: ProfileSnapshot)
        ensures
            r@ == self@,
    {
        ProfileSnapshot {
            total_allocations: self.total_allocations,
            total_deallocations: self.total_deallocations,
            total_bytes_allocated: self.total_bytes_allocated,
            peak_memory: self.peak_memory,
            current_memory: self.current_memory,
            allocation_sites: copy_table(&self.allocation_sites),
        }
    }
}


/// The profiler: an on/off switch in front of the counters and the call-site
/// table. Readers receive owned snapshots, never the live table.
pub struct AllocationProfiler {
    active: bool,
    data: ProfilerData,
}

impl View for AllocationProfiler {
    type V = ProfilerView;

    closed spec fn view(&self) -> ProfilerView {
        ProfilerView { active: self.active, state: self.data@ }
    }
}

impl AllocationProfiler {
    /// The profiler's invariant (see `SnapshotView::wf`).
    pub open spec fn wf(&self) -> bool {
        self@.state.wf()
    }

    /// A disabled profiler with every counter at zero.
    pub fn new() -> (r: AllocationProfiler)
        ensures
            r@ == ProfilerView::initial(),
            r.wf(),
    {
        let r = AllocationProfiler { active: false, data: ProfilerData::new() };
        assert(sum_counts(Seq::<(Seq<char>, SiteView)>::empty()) == 0);
        assert(sum_bytes(Seq::<(Seq<char>, SiteView)>::empty()) == 0);
        r
    }

    /// Whether allocation events are being counted.
    pub fn is_enabled(&self) -> (r: bool)
        ensures
            r == self@.active,
    {
        self.active
    }

    /// Starts counting; effective for subsequent events only.
    pub fn enable(&mut self)
        ensures
            final(self)@ == old(self)@.step(ProfilerEvent::Enable),
    {
        self.active = true;
    }

    /// Stops counting; the counters keep their values.
    pub fn disable(&mut self)
        ensures
            final(self)@ == old(self)@.step(ProfilerEvent::Disable),
    {
        self.active = false;
    }

    /// Counts one allocation of `size` bytes made from the stack whose frame
    /// strings are `frames`.
    pub fn record_allocation_frames(&mut self, size: usize, frames: Vec<String>)
        requires
            old(self).wf(),
        ensures
            final(self).wf(),
            final(self)@ == old(self)@.step(
                ProfilerEvent::Allocate { size: size as nat, frames: strings_view(frames@) },
            ),
    {
        proof {
            lemma_step_wf(
                self@,
                ProfilerEvent::Allocate { size: size as nat, frames: strings_view(frames@) },
            );
        }
        if self.active {
            self.data.record(size, frames);
        }
    }

    /// Counts one allocation of `size` bytes made from the captured stack
    /// `backtrace`, which is resolved only while profiling is enabled.
    pub fn record_allocation(&mut self, size: usize, backtrace: Backtrace)
        requires
            old(self).wf(),
        ensures
            final(self).wf(),
            exists|frames: Seq<Seq<char>>|
                frames.len() <= MAX_FRAMES && final(self)@ == old(self)@.step(
                    ProfilerEvent::Allocate { size: size as nat, frames },
                ),
    {
        if !self.active {
            assert(self@ == old(self)@.step(
                ProfilerEvent::Allocate { size: size as nat, frames: seq![] },
            ));
            return;
        }
        let mut bt = backtrace;
        resolve_backtrace(&mut bt);
        let symbols = backtrace_symbols(&bt);
        let frames = extract_frames(&symbols);
        let ghost fv = strings_view(frames@);
        self.record_allocation_frames(size, frames);
        assert(self@ == old(self)@.step(ProfilerEvent::Allocate { size: size as nat, frames: fv }));
    }

    /// Counts one deallocation of `size` bytes. The live gauge saturates at
    /// zero, so memory allocated before profiling began never drives it negative.
    pub fn record_deallocation(&mut self, size: usize)
        requires
            old(self).wf(),
        ensures
            final(self).wf(),
            final(self)@ == old(self)@.step(ProfilerEvent::Deallocate { size: size as nat }),
    {
        if self.active {
            self.data.release(size);
        }
    }

    /// Counts a resize from `old_size` to `new_size` bytes as one deallocation
    /// followed by one allocation from the stack whose frames are `frames`.
    pub fn record_reallocation_frames(&mut self, old_size: usize, new_size: usize, frames: Vec<
        String,
    >)
        requires
            old(self).wf(),
        ensures
            final(self).wf(),
            final(self)@ == old(self)@.step(
                ProfilerEvent::Reallocate {
                    old_size: old_size as nat,
                    new_size: new_size as nat,
                    frames: strings_view(frames@),
                },
            ),
    {
        proof {
            lemma_step_wf(
                self@,
                ProfilerEvent::Reallocate {
                    old_size: old_size as nat,
                    new_size: new_size as nat,
                    frames: strings_view(frames@),
                },
            );
        }
        if self.active {
            self.data.release(old_size);
            self.data.record(new_size, frames);
        }
    }

    /// Counts a resize from `old_size` to `new_size` bytes made from the
    /// captured stack `backtrace`.
    pub fn record_reallocation(&mut self, old_size: usize, new_size: usize, backtrace: Backtrace)
        requires
            old(self).wf(),
        ensures
            final(self).wf(),
            exists|frames: Seq<Seq<char>>|
                frames.len() <= MAX_FRAMES && final(self)@ == old(self)@.step(
                    ProfilerEvent::Reallocate {
                        old_size: old_size as nat,
                        new_size: new_size as nat,
                        frames,
                    },
                ),
    {
        if !self.active {
            assert(self@ == old(self)@.step(
                ProfilerEvent::Reallocate {
                    old_size: old_size as nat,
                    new_size: new_size as nat,
                    frames: seq![],
                },
            ));
            return;
        }
        let mut bt = backtrace;
        resolve_backtrace(&mut bt);
        let symbols = backtrace_symbols(&bt);
        let frames = extract_frames(&symbols);
        let ghost fv = strings_view(frames@);
        self.record_reallocation_frames(old_size, new_size, frames);
        assert(self@ == old(self)@.step(
            ProfilerEvent::Reallocate {
                old_size: old_size as nat,
                new_size: new_size as nat,
                frames: fv,
            },
        ));
    }

    /// An owned copy of every counter and of the site table.
    pub fn get_snapshot(&self) -> (r: ProfileSnapshot)
        ensures
            r@ == self@.state,
    {
        self.data.snapshot()
    }
}

/// Every run from a fresh profiler leaves it well formed.
pub proof fn lemma_run_wf(es: Seq<ProfilerEvent>)
    ensures
        ProfilerView::initial().run(es).state.wf(),
    decreases es.len(),
{
    if es.len() == 0 {
        assert(sum_counts(Seq::<(Seq<char>, SiteView)>::empty()) == 0);
        assert(sum_bytes(Seq::<(Seq<char>, SiteView)>::empty()) == 0);
    } else {
        lemma_run_wf(es.drop_last());
        lemma_step_wf(ProfilerView::initial().run(es.drop_last()), es.last());
    }
}

/// In every run, the per-site counts of the table sum to the number of
/// allocations counted while enabled, and the per-site bytes to the bytes.
pub proof fn site_counts_sum_to_total(es: Seq<ProfilerEvent>)
    ensures
        sum_counts(ProfilerView::initial().run(es).state.sites) == ProfilerView::initial().run(
            es,
        ).state.total_allocations,
        sum_bytes(ProfilerView::initial().run(es).state.sites) == ProfilerView::initial().run(
            es,
        ).state.total_bytes_allocated,
{
    lemma_run_wf(es);
}

/// In every run, the peak is at least the live gauge, and no further event
/// lowers the peak.
pub proof fn peak_bounds_current_and_never_drops(es: Seq<ProfilerEvent>, e: ProfilerEvent)
    ensures
        ProfilerView::initial().run(es).state.current_memory <= ProfilerView::initial().run(
            es,
        ).state.peak_memory,
        ProfilerView::initial().run(es.push(e)).state.peak_memory >= ProfilerView::initial().run(
            es,
        ).state.peak_memory,
{
    lemma_run_wf(es);
    assert(es.push(e).drop_last() =~= es);
}

/// Heap events seen while disabled change nothing.
proof fn lemma_paused_run(p: ProfilerView, es: Seq<ProfilerEvent>)
    requires
        !p.active,
        forall|i: int| 0 <= i < es.len() ==> (#[trigger] es[i]).is_heap_event(),
    ensures
        p.run(es) == p,
    decreases es.len(),
{
    if es.len() > 0 {
        lemma_paused_run(p, es.drop_last());
        assert(es.last() == es[es.len() - 1]);
    }
}

/// After `disable`, any number of heap events change no counter, and `enable`
/// then resumes from the counters as they were.
pub proof fn paused_events_change_nothing(p: ProfilerView, es: Seq<ProfilerEvent>)
    requires
        forall|i: int| 0 <= i < es.len() ==> (#[trigger] es[i]).is_heap_event(),
    ensures
        p.step(ProfilerEvent::Disable).run(es).state == p.state,
        p.step(ProfilerEvent::Disable).run(es).step(ProfilerEvent::Enable) == (ProfilerView {
            active: true,
            state: p.state,
        }),
{
    lemma_paused_run(p.step(ProfilerEvent::Disable), es);
}

} // verus!
