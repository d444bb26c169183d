//! The profiling lifecycle: a `Profiler` owns the shared collection of
//! finished timelines, a `Thread` records one timeline's event log, and a
//! `Span` token brackets one nested interval on it.

use vstd::multiset::Multiset;
use vstd::prelude::*;

use crate::clock::elapsed;
use crate::frame::{get_frames_clone, register_frame, registry_frames, SharedRegistry};
use crate::speedscope::{
    balanced, lemma_monotone_push, lemma_opens_stack_push_close, lemma_opens_stack_push_open,
    monotone, opens_stack, Event, EventedProfile, File, FileShared, Frame, FrameIndex, FrameView,
    ProfileTypeEvented, SpeedscopeSchemaUrl, Value, ValueUnit,
};

verus! {

/// Everything that is ever pushed into one shared collection, through any of
/// its handles, over the process lifetime. Pushes only add and a successful
/// drain consumes the last handle, so this is one fixed multiset per
/// collection, shared by every handle to it. What a drain observes at its
/// moment is not a function of the handle and stays unstated.
pub uninterp spec fn sink_store(s: &ProfileSink) -> Multiset<EventedProfile>;

/// A shared handle to the collection of finished profiles. Handles may live
/// on several threads and every push lands in the same collection; the drain
/// result is taken as it comes.
#[verifier::external_body]
pub struct ProfileSink {
    inner: std::sync::Arc<parking_lot::Mutex<Vec<EventedProfile>>>,
}

impl ProfileSink {
    /// Relies on std::sync::Arc::new and parking_lot::Mutex::new: a fresh,
    /// empty collection.
    #[verifier::external_body]
    pub fn new() -> ProfileSink {
        ProfileSink { inner: std::sync::Arc::new(parking_lot::Mutex::new(Vec::new())) }
    }

    /// Relies on std::sync::Arc::clone: another handle to the same
    /// collection, with the same lifetime store.
    #[verifier::external_body]
    pub fn duplicate(&self) -> (r: ProfileSink)
        ensures
            sink_store(&r) == sink_store(self),
    {
        ProfileSink { inner: std::sync::Arc::clone(&self.inner) }
    }

    /// Relies on parking_lot::Mutex::lock and Vec::push: appends the profile
    /// under the lock, so it is among what this collection ever holds. The
    /// handle itself is untouched.
    #[verifier::external_body]
    pub fn push(&mut self, profile: EventedProfile)
        ensures
            sink_store(&*final(self)) == sink_store(&*old(self)),
            sink_store(&*final(self)).count(profile) > 0,
    {
        self.inner.lock().push(profile);
    }

    /// Relies on std::sync::Arc::try_unwrap and parking_lot::Mutex::
    /// into_inner: yields the collected profiles only when this is the last
    /// handle; with other handles outstanding the collection is withheld.
    #[verifier::external_body]
    pub fn try_drain(self) -> (r: Option<Vec<EventedProfile>>)
        ensures
            r matches Some(v) ==> forall|i: int|
                0 <= i < v@.len() ==> sink_store(&self).count(#[trigger] v@[i]) > 0,
    {
        match std::sync::Arc::try_unwrap(self.inner) {
            Ok(m) => Option::Some(m.into_inner()),
            Err(_) => Option::None,
        }
    }
}

/// A completion obligation: records whether its owner's `complete` ran.
/// Completing twice is a programming error, excluded by contract.
pub struct NeedsComplete {
    pub name: &'static str,
    pub completed: bool,
}

impl NeedsComplete {
    pub fn new(name: &'static str) -> (r: NeedsComplete)
        ensures
            !r.completed,
            r.name == name,
    {
        NeedsComplete { name, completed: false }
    }

    pub fn complete(&mut self)
        requires
            !old(self).completed,
        ensures
            final(self).completed,
            final(self).name == old(self).name,
    {
        self.completed = true;
    }
}

/// Relies on the std `format!` machinery: joins a parent timeline's name and
/// a fork label with a slash.
#[verifier::external_body]
fn join_name(parent: &str, label: &str) -> (r: String)
    ensures
        r@ == parent@ + "/"@ + label@,
{
    format!("{}/{}", parent, label)
}

/// The descriptor a timeline registers for its own implicit root frame: the
/// timeline's name, with no source location.
pub open spec fn root_frame_view(name: Seq<char>) -> FrameView {
    FrameView { name, file: Option::None, line: Option::None, col: Option::None }
}

/// A token for one open span on one timeline. It records the frame it opened
/// and the depth it lives at; handing it back to [`Thread::close`] emits the
/// matching close event. A child span (one opened later, deeper) must be
/// closed before its parent can be.
pub struct Span {
    pub frame: FrameIndex,
    pub depth: usize,
}

/// One timeline: a name, a start instant and an exclusively owned, append-
/// only event log. On completion it wraps itself into a finished profile and
/// hands that to the shared collection.
pub struct Thread {
    name: String,
    profiles: ProfileSink,
    registry: SharedRegistry,
    epoch: std::time::Instant,
    start_value: Value,
    events: Vec<Event>,
    open: Vec<FrameIndex>,
    last_at: u64,
    needs_complete: NeedsComplete,
}

impl Thread {
    /// The timeline's event log so far.
    pub closed spec fn spec_events(self) -> Seq<Event> {
        self.events@
    }

    /// The timeline's name.
    pub closed spec fn spec_name(self) -> Seq<char> {
        self.name@
    }

    /// The timeline's recorded start instant.
    pub closed spec fn spec_start(self) -> Value {
        self.start_value
    }

    /// The stack of spans currently open on this timeline, root excluded,
    /// innermost last.
    pub closed spec fn spec_open(self) -> Seq<FrameIndex> {
        self.open@
    }

    /// The timeline's handle to the shared collection of finished profiles.
    pub closed spec fn spec_sink(self) -> ProfileSink {
        self.profiles
    }

    /// The timeline's handle to the shared frame registry.
    pub closed spec fn spec_registry(self) -> SharedRegistry {
        self.registry
    }

    /// The timeline's clock epoch.
    pub closed spec fn spec_epoch(self) -> std::time::Instant {
        self.epoch
    }

    /// Well-formedness: the log starts with the implicit root open event at
    /// the start instant, its timestamps never go backward, and replaying it
    /// leaves exactly the root plus the tracked span stack open.
    pub closed spec fn wf(self) -> bool {
        &&& self.events@.len() >= 1
        &&& self.events@[0].is_open()
        &&& self.events@[0].spec_at() == self.start_value.0
        &&& monotone(self.events@)
        &&& self.last_at == self.events@.last().spec_at()
        &&& opens_stack(self.events@) == Option::Some(
            seq![self.events@[0].spec_frame()] + self.open@,
        )
        &&& !self.needs_complete.completed
    }

    /// What well-formedness guarantees, for callers outside this module: the
    /// log is never empty, opens with the root at the recorded start instant,
    /// never goes backward in time, and replays to exactly the root plus the
    /// open-span stack.
    pub proof fn lemma_wf_properties(t: Thread)
        requires
            t.wf(),
        ensures
            t.spec_events().len() >= 1,
            t.spec_events()[0].is_open(),
            t.spec_events()[0].spec_at() == t.spec_start().0,
            monotone(t.spec_events()),
            opens_stack(t.spec_events()) == Option::Some(
                seq![t.spec_events()[0].spec_frame()] + t.spec_open(),
            ),
    {
    }

    /// Starts a timeline: records its start instant, registers its implicit
    /// root frame under `name`, and opens that root immediately.
    pub(crate) fn new(
        name: String,
        profiles: ProfileSink,
        registry: SharedRegistry,
        epoch: std::time::Instant,
    ) -> (t: Thread)
        ensures
            t.wf(),
            t.spec_name() == name@,
            t.spec_open().len() == 0,
            t.spec_events().len() == 1,
            t.spec_events()[0].is_open(),
            t.spec_events()[0].spec_at() == t.spec_start().0,
            registry_frames(&registry).contains_pair(
                t.spec_events()[0].spec_frame().0 as int,
                root_frame_view(name@),
            ),
            t.spec_sink() == profiles,
            t.spec_registry() == registry,
            t.spec_epoch() == epoch,
    {
        let start_value = elapsed(&epoch);
        let root_frame = Frame {
            name: name.clone(),
            file: Option::None,
            line: Option::None,
            col: Option::None,
        };
        let root = register_frame(&registry, root_frame);
        let mut events: Vec<Event> = Vec::new();
        events.push(Event::OpenFrame { at: start_value, frame: root });
        let t = Thread {
            name,
            profiles,
            registry,
            epoch,
            start_value,
            events,
            open: Vec::new(),
            last_at: start_value.0,
            needs_complete: NeedsComplete::new("Thread"),
        };
        proof {
            assert(opens_stack(Seq::<Event>::empty()) == Option::Some(Seq::<FrameIndex>::empty()));
            lemma_opens_stack_push_open(Seq::<Event>::empty(), t.events@[0]);
            assert(t.events@ =~= Seq::<Event>::empty().push(t.events@[0]));
            assert(Seq::<FrameIndex>::empty().push(root) =~= seq![root] + t.open@);
        }
        t
    }

    /// The current elapsed time, clamped so it never falls behind the last
    /// recorded event.
    fn now_clamped(&self) -> (at: u64)
        ensures
            self.last_at <= at,
    {
        let t = elapsed(&self.epoch);
        if t.0 < self.last_at {
            self.last_at
        } else {
            t.0
        }
    }

    /// Opens a span for `frame`: appends an open event at the current instant
    /// and returns the token that closes it. The log keeps every earlier
    /// event and stays monotone.
    pub fn span(&mut self, frame: FrameIndex) -> (s: Span)
        requires
            old(self).wf(),
        ensures
            final(self).wf(),
            s.frame == frame,
            s.depth == final(self).spec_open().len(),
            s.depth >= 1,
            final(self).spec_open() == old(self).spec_open().push(frame),
            final(self).spec_events().len() == old(self).spec_events().len() + 1,
            final(self).spec_events().take(old(self).spec_events().len() as int) == old(self).spec_events(),
            final(self).spec_events().last().is_open(),
            final(self).spec_events().last().spec_frame() == frame,
            old(self).spec_events().last().spec_at() <= final(self).spec_events().last().spec_at(),
            final(self).spec_name() == old(self).spec_name(),
            final(self).spec_start() == old(self).spec_start(),
            final(self).spec_sink() == old(self).spec_sink(),
            final(self).spec_registry() == old(self).spec_registry(),
            final(self).spec_epoch() == old(self).spec_epoch(),
    {
        let at = self.now_clamped();
        let ghost pre = self.events@;
        let ghost pre_open = self.open@;
        self.events.push(Event::OpenFrame { at: Value::new(at), frame });
        self.open.push(frame);
        self.last_at = at;
        let depth = self.open.len();
        proof {
            assert(self.events@ =~= pre.push(self.events@.last()));
            assert(self.events@.take(pre.len() as int) =~= pre);
            lemma_opens_stack_push_open(pre, self.events@.last());
            assert((seq![pre[0].spec_frame()] + pre_open).push(frame) =~= seq![
                self.events@[0].spec_frame(),
            ] + self.open@);
            lemma_monotone_push(pre, self.events@.last());
        }
        Span { frame, depth }
    }

    /// Whether `span` is the innermost open span, so that closing it next
    /// keeps the log well nested.
    pub open spec fn can_close(self, span: Span) -> bool {
        &&& span.depth == self.spec_open().len()
        &&& span.depth >= 1
        &&& self.spec_open().last() == span.frame
    }

    /// Closes the innermost open span: appends the matching close event at
    /// the current instant. The log keeps every earlier event and stays
    /// monotone.
    pub fn close(&mut self, span: Span)
        requires
            old(self).wf(),
            old(self).can_close(span),
        ensures
            final(self).wf(),
            final(self).spec_open() == old(self).spec_open().drop_last(),
            final(self).spec_events().len() == old(self).spec_events().len() + 1,
            final(self).spec_events().take(old(self).spec_events().len() as int) == old(self).spec_events(),
            !final(self).spec_events().last().is_open(),
            final(self).spec_events().last().spec_frame() == span.frame,
            old(self).spec_events().last().spec_at() <= final(self).spec_events().last().spec_at(),
            final(self).spec_name() == old(self).spec_name(),
            final(self).spec_start() == old(self).spec_start(),
            final(self).spec_sink() == old(self).spec_sink(),
            final(self).spec_registry() == old(self).spec_registry(),
            final(self).spec_epoch() == old(self).spec_epoch(),
    {
        let at = self.now_clamped();
        let ghost pre = self.events@;
        let ghost pre_open = self.open@;
        self.events.push(Event::CloseFrame { at: Value::new(at), frame: span.frame });
        self.open.pop();
        self.last_at = at;
        proof {
            assert(self.events@ =~= pre.push(self.events@.last()));
            assert(self.events@.take(pre.len() as int) =~= pre);
            let stack = seq![pre[0].spec_frame()] + pre_open;
            assert(stack.last() == span.frame);
            lemma_opens_stack_push_close(pre, self.events@.last());
            assert(stack.drop_last() =~= seq![self.events@[0].spec_frame()] + self.open@);
            lemma_monotone_push(pre, self.events@.last());
        }
    }

    /// Closes the innermost open span if `span` indeed is it; otherwise
    /// leaves the timeline unchanged and reports the mismatch. This is the
    /// runtime-checked door for callers outside the verified world.
    pub fn try_close(&mut self, span: Span) -> (ok: bool)
        requires
            old(self).wf(),
        ensures
            final(self).wf(),
            ok == old(self).can_close(span),
            !ok ==> *final(self) == *old(self),
            ok ==> final(self).spec_open() == old(self).spec_open().drop_last(),
            ok ==> final(self).spec_events().len() == old(self).spec_events().len() + 1,
            ok ==> final(self).spec_events().take(old(self).spec_events().len() as int) == old(self).spec_events(),
            ok ==> !final(self).spec_events().last().is_open(),
            ok ==> final(self).spec_events().last().spec_frame() == span.frame,
            final(self).spec_name() == old(self).spec_name(),
            final(self).spec_sink() == old(self).spec_sink(),
    {
        if span.depth >= 1 && span.depth == self.open.len() {
            let top = self.open[self.open.len() - 1];
            if top == span.frame {
                self.close(span);
                return true;
            }
        }
        false
    }

    /// Forks a new, independently owned timeline named under this one
    /// (`parent/label`), bound to the same shared collection and registry.
    /// The caller runs it and completes it on its own.
    pub fn fork(&self, label: &str) -> (t: Thread)
        requires
            self.wf(),
        ensures
            t.wf(),
            t.spec_name() == self.spec_name() + "/"@ + label@,
            t.spec_open().len() == 0,
            t.spec_events().len() == 1,
            registry_frames(&self.spec_registry()).contains_pair(
                t.spec_events()[0].spec_frame().0 as int,
                root_frame_view(t.spec_name()),
            ),
            sink_store(&t.spec_sink()) == sink_store(&self.spec_sink()),
            registry_frames(&t.spec_registry()) == registry_frames(&self.spec_registry()),
            t.spec_epoch() == self.spec_epoch(),
    {
        let name = join_name(self.name.as_str(), label);
        Thread::new(name, self.profiles.duplicate(), self.registry.duplicate(), self.epoch)
    }

    /// How many spans are currently open on this timeline. The timeline can
    /// complete only once this is zero.
    pub fn open_spans(&self) -> (n: usize)
        ensures
            n == self.spec_open().len(),
    {
        self.open.len()
    }

    /// Ends the timeline: closes the implicit root frame at the current
    /// instant and returns the finished, immutable profile together with the
    /// handle to the shared collection. The profile's event log is exactly
    /// this timeline's log plus that one close: balanced, monotone, and
    /// bracketed by the profile's own bounds.
    #[verifier::rlimit(50)]
    pub fn finish(self) -> (r: (ProfileSink, EventedProfile))
        requires
            self.wf(),
            self.spec_open().len() == 0,
        ensures
            r.1.name@ == self.spec_name(),
            r.1.start_value == self.spec_start(),
            r.1.unit == ValueUnit::Microseconds,
            r.1.events@.len() == self.spec_events().len() + 1,
            r.1.events@.take(self.spec_events().len() as int) == self.spec_events(),
            !r.1.events@.last().is_open(),
            r.1.events@.last().spec_frame() == self.spec_events()[0].spec_frame(),
            r.1.end_value.0 == r.1.events@.last().spec_at(),
            balanced(r.1.events@),
            monotone(r.1.events@),
            r.1.start_value.0 <= r.1.events@[0].spec_at(),
            r.1.events@.last().spec_at() <= r.1.end_value.0,
            r.1.start_value.0 <= r.1.end_value.0,
            r.0 == self.spec_sink(),
    {
        let mut this = self;
        this.needs_complete.complete();
        let at = this.now_clamped();
        let root = this.events[0].frame();
        let ghost pre = this.events@;
        this.events.push(Event::CloseFrame { at: Value::new(at), frame: root });
        proof {
            assert(this.events@ =~= pre.push(this.events@.last()));
            assert(this.events@.take(pre.len() as int) =~= pre);
            let stack = seq![pre[0].spec_frame()] + Seq::<FrameIndex>::empty();
            assert(stack.last() == root);
            lemma_opens_stack_push_close(pre, this.events@.last());
            assert(stack.drop_last() =~= Seq::<FrameIndex>::empty());
            lemma_monotone_push(pre, this.events@.last());
            assert(this.events@[0].spec_at() == this.start_value.0);
            crate::speedscope::lemma_monotone_le(pre, 0, pre.len() - 1);
        }
        let Thread { name, profiles, start_value, events, .. } = this;
        let profile = EventedProfile {
            type_: ProfileTypeEvented,
            name,
            unit: ValueUnit::Microseconds,
            start_value,
            end_value: Value::new(at),
            events,
        };
        (profiles, profile)
    }

    /// Ends the timeline and pushes the finished profile into the shared
    /// collection: the collection this timeline was bound to ever holds a
    /// profile under this timeline's name whose events are exactly its log,
    /// closed, balanced and monotone. The profile itself is stated exactly on
    /// [`Thread::finish`].
    pub fn complete(self)
        requires
            self.wf(),
            self.spec_open().len() == 0,
        ensures
            exists|p: EventedProfile|
                {
                    &&& #[trigger] sink_store(&self.spec_sink()).count(p) > 0
                    &&& p.name@ == self.spec_name()
                    &&& p.start_value == self.spec_start()
                    &&& p.unit == ValueUnit::Microseconds
                    &&& p.events@.take(self.spec_events().len() as int) == self.spec_events()
                    &&& balanced(p.events@)
                    &&& monotone(p.events@)
                },
    {
        let (mut profiles, profile) = self.finish();
        profiles.push(profile);
    }
}

/// Profiles in non-decreasing order of their recorded start instant.
pub open spec fn sorted_by_start(profiles: Seq<EventedProfile>) -> bool {
    forall|i: int, j: int|
        0 <= i <= j < profiles.len() ==> #[trigger] profiles[i].start_value.0
            <= #[trigger] profiles[j].start_value.0
}

/// Where a profile lands among already-sorted profiles: behind every one
/// that does not start later, before the strictly later ones. The strict
/// comparison is what keeps profiles with one start instant in their
/// existing order.
pub open spec fn insert_sorted(s: Seq<EventedProfile>, p: EventedProfile) -> Seq<EventedProfile>
    decreases s.len(),
{
    if s.len() == 0 {
        seq![p]
    } else if s.last().start_value.0 > p.start_value.0 {
        insert_sorted(s.drop_last(), p).push(s.last())
    } else {
        s.push(p)
    }
}

/// The stable sort of the profiles by start instant: each profile inserted,
/// in input order, behind every already-placed one that does not start
/// later. Ties therefore keep their insertion order.
pub open spec fn stable_sorted(s: Seq<EventedProfile>) -> Seq<EventedProfile>
    decreases s.len(),
{
    if s.len() == 0 {
        Seq::empty()
    } else {
        insert_sorted(stable_sorted(s.drop_last()), s.last())
    }
}

/// Stability law, at its smallest: two profiles with one start instant come
/// out in their input order. For longer inputs the same is carried by
/// [`stable_sorted`] itself, which [`sort_profiles_by_start`] returns
/// exactly.
pub proof fn lemma_sort_stable_pair(a: EventedProfile, b: EventedProfile)
    requires
        a.start_value.0 == b.start_value.0,
    ensures
        stable_sorted(seq![a, b]) == seq![a, b],
{
    assert(seq![a, b].drop_last() =~= seq![a]);
    assert(seq![a].drop_last() =~= Seq::<EventedProfile>::empty());
    assert(stable_sorted(Seq::<EventedProfile>::empty()) == Seq::<EventedProfile>::empty());
    assert(stable_sorted(seq![a]) == insert_sorted(Seq::<EventedProfile>::empty(), a));
    assert(insert_sorted(Seq::<EventedProfile>::empty(), a) =~= seq![a]);
    assert(stable_sorted(seq![a, b]) == insert_sorted(seq![a], b));
    assert(insert_sorted(seq![a], b) =~= seq![a, b]);
}

/// Inserting behind the strictly later entries is inserting at the position
/// the insertion sort's inner scan finds.
proof fn lemma_insert_sorted_at(s: Seq<EventedProfile>, p: EventedProfile, j: int)
    requires
        0 <= j <= s.len(),
        forall|k: int| j <= k < s.len() ==> s[k].start_value.0 > p.start_value.0,
        j > 0 ==> s[j - 1].start_value.0 <= p.start_value.0,
    ensures
        insert_sorted(s, p) == s.insert(j, p),
    decreases s.len() - j,
{
    if j == s.len() {
        if s.len() == 0 {
            assert(insert_sorted(s, p) =~= s.insert(j, p));
        } else {
            assert(s.last().start_value.0 <= p.start_value.0);
            assert(insert_sorted(s, p) == s.push(p));
            assert(s.push(p) =~= s.insert(j, p));
        }
    } else {
        assert(s.last().start_value.0 > p.start_value.0);
        lemma_insert_sorted_at(s.drop_last(), p, j);
        assert(insert_sorted(s, p) == s.drop_last().insert(j, p).push(s.last()));
        assert(s.drop_last().insert(j, p).push(s.last()) =~= s.insert(j, p));
    }
}

/// Sorts the finished profiles by their recorded start instant, moving each
/// one and inventing none: the result is exactly [`stable_sorted`] of the
/// input — a sorted permutation in which ties keep their insertion order.
#[verifier::rlimit(80)]
pub fn sort_profiles_by_start(profiles: Vec<EventedProfile>) -> (r: Vec<EventedProfile>)
    ensures
        r@ == stable_sorted(profiles@),
        sorted_by_start(r@),
        r@.to_multiset() == profiles@.to_multiset(),
        r@.len() == profiles@.len(),
{
    let mut v = profiles;
    let ghost orig = v@;
    if v.len() <= 1 {
        proof {
            if v@.len() == 1 {
                assert(orig.drop_last() =~= Seq::<EventedProfile>::empty());
                assert(stable_sorted(Seq::<EventedProfile>::empty()) == Seq::<EventedProfile>::empty());
                assert(stable_sorted(orig) == insert_sorted(Seq::<EventedProfile>::empty(), orig[0]));
                assert(stable_sorted(orig) =~= orig);
            } else {
                assert(stable_sorted(orig) =~= orig);
            }
        }
        return v;
    }
    let n = v.len();
    proof {
        assert(orig.take(1).drop_last() =~= Seq::<EventedProfile>::empty());
        assert(stable_sorted(Seq::<EventedProfile>::empty()) == Seq::<EventedProfile>::empty());
        assert(stable_sorted(orig.take(1)) == insert_sorted(
            Seq::<EventedProfile>::empty(),
            orig.take(1).last(),
        ));
        assert(v@.take(1) =~= stable_sorted(orig.take(1)));
        assert(v@.skip(1) =~= orig.skip(1));
    }
    let mut i: usize = 1;
    while i < n
        invariant
            1 <= i <= n,
            n == v@.len(),
            n == orig.len(),
            v@.to_multiset() == orig.to_multiset(),
            sorted_by_start(v@.take(i as int)),
            v@.take(i as int) == stable_sorted(orig.take(i as int)),
            v@.skip(i as int) == orig.skip(i as int),
        decreases n - i,
    {
        let ghost before = v@;
        let x = v.remove(i);
        let ghost mid = v@;
        let mut j: usize = i;
        while j > 0 && v[j - 1].start_value.0 > x.start_value.0
            invariant
                j <= i,
                i < n,
                n == v@.len() + 1,
                v@ == mid,
                forall|k: int| j <= k < i ==> mid[k].start_value.0 > x.start_value.0,
            decreases j,
        {
            j -= 1;
        }
        v.insert(j, x);
        proof {
            broadcast use vstd::seq_lib::group_to_multiset_ensures;

            assert(mid =~= before.remove(i as int));
            assert(before.take(i as int) =~= mid.take(i as int));
            let ii: int = i as int;
            assert(v@.to_multiset() == orig.to_multiset()) by {
                assert(x == before[ii]);
                assert(before.remove(ii).to_multiset() =~= before.to_multiset().remove(x));
                assert(mid.to_multiset() == before.to_multiset().remove(x));
                assert(before.contains(x)) by {
                    assert(before[ii] == x);
                }
                assert(before.to_multiset().count(x) > 0);
                assert(mid.insert(j as int, x).to_multiset() =~= mid.to_multiset().insert(x));
                assert(v@.to_multiset() == before.to_multiset().remove(x).insert(x));
                assert(before.to_multiset().remove(x).insert(x) =~= before.to_multiset());
            }
            assert(sorted_by_start(v@.take(i + 1 as int))) by {
                assert forall|a: int, b: int| 0 <= a <= b < i + 1 implies #[trigger] v@.take(
                    i + 1,
                )[a].start_value.0 <= #[trigger] v@.take(i + 1)[b].start_value.0 by {
                    assert(forall|k: int| 0 <= k < j ==> v@[k] == mid[k]);
                    assert(v@[j as int] == x);
                    assert(forall|k: int| j < k <= i ==> v@[k] == mid[k - 1]);
                }
            }
            assert(v@.take(ii + 1) == stable_sorted(orig.take(ii + 1))) by {
                assert(x == orig[ii]) by {
                    assert(before.skip(ii)[0] == orig.skip(ii)[0]);
                }
                assert(mid.take(ii) == stable_sorted(orig.take(ii)));
                lemma_insert_sorted_at(mid.take(ii), x, j as int);
                assert(orig.take(ii + 1).drop_last() =~= orig.take(ii));
                assert(orig.take(ii + 1).last() == orig[ii]);
                assert(stable_sorted(orig.take(ii + 1)) == insert_sorted(
                    stable_sorted(orig.take(ii)),
                    orig[ii],
                ));
                assert(v@ =~= mid.insert(j as int, x));
                assert(v@.take(ii + 1) =~= mid.take(ii).insert(j as int, x));
            }
            assert(v@.skip(ii + 1) =~= orig.skip(ii + 1)) by {
                assert(forall|k: int| ii + 1 <= k < n ==> v@[k] == mid[k - 1]);
                assert(forall|k: int| ii <= k < n - 1 ==> mid[k] == before[k + 1]);
                assert forall|k: int| ii + 1 <= k < n implies before[k] == #[trigger] orig[k] by {
                    assert(before[k] == before.skip(ii)[k - ii]);
                    assert(orig[k] == orig.skip(ii)[k - ii]);
                }
            }
        }
        i += 1;
    }
    proof {
        assert(v@.take(n as int) =~= v@);
        assert(orig.take(n as int) =~= orig);
    }
    v
}

/// The profile as it appears in the final document: its own name, unit and
/// events, under the document-wide bounds.
pub open spec fn with_bounds(p: EventedProfile, start: Value, end: Value) -> EventedProfile {
    EventedProfile {
        type_: p.type_,
        name: p.name,
        unit: p.unit,
        start_value: start,
        end_value: end,
        events: p.events,
    }
}

/// Overwrites every profile's bounds with the document-wide `start` and
/// `end`, so viewers render all timelines against one shared time axis.
pub fn set_uniform_bounds(profiles: Vec<EventedProfile>, start: Value, end: Value) -> (r: Vec<
    EventedProfile,
>)
    ensures
        r@.len() == profiles@.len(),
        forall|i: int| 0 <= i < r@.len() ==> r@[i] == with_bounds(profiles@[i], start, end),
{
    let mut rest = profiles;
    let mut out: Vec<EventedProfile> = Vec::new();
    let ghost orig = rest@;
    while rest.len() > 0
        invariant
            orig.len() == out@.len() + rest@.len(),
            rest@ =~= orig.skip(out@.len() as int),
            forall|i: int| 0 <= i < out@.len() ==> out@[i] == with_bounds(orig[i], start, end),
        decreases rest@.len(),
    {
        let mut p = rest.remove(0);
        p.start_value = start;
        p.end_value = end;
        out.push(p);
        proof {
            assert(rest@ =~= orig.skip(out@.len() as int));
        }
    }
    out
}

/// Builds the final document from the drained profiles and the frame-table
/// snapshot: the profiles sorted by their recorded start instant, then put
/// under the uniform document bounds `start` and `end`.
pub fn finalize(
    profiles: Vec<EventedProfile>,
    frames: Vec<Frame>,
    start: Value,
    end: Value,
) -> (f: File)
    requires
        start.0 <= end.0,
    ensures
        f.shared.frames == frames,
        f.profiles@.len() == profiles@.len(),
        forall|i: int|
            0 <= i < f.profiles@.len() ==> (#[trigger] f.profiles@[i]).start_value == start
                && f.profiles@[i].end_value == end,
        forall|i: int|
            0 <= i < f.profiles@.len() ==> f.profiles@[i] == with_bounds(
                #[trigger] stable_sorted(profiles@)[i],
                start,
                end,
            ),
        sorted_by_start(stable_sorted(profiles@)),
        stable_sorted(profiles@).to_multiset() == profiles@.to_multiset(),
        f.name is None,
        f.active_profile_index is None,
        f.exporter is None,
{
    let sorted = sort_profiles_by_start(profiles);
    let ghost sorted_view = sorted@;
    let bounded = set_uniform_bounds(sorted, start, end);
    let f = File {
        schema: SpeedscopeSchemaUrl,
        shared: FileShared { frames },
        profiles: bounded,
        name: Option::None,
        active_profile_index: Option::None,
        exporter: Option::None,
    };
    proof {
        assert(sorted_view == stable_sorted(profiles@));
    }
    f
}

/// Whether `q` is, bounds aside, a profile that was genuinely pushed into
/// the collection `sink`: some pushed profile that `q` equals once its bounds
/// are overwritten with `start` and `q`'s own end.
pub open spec fn from_sink(sink: &ProfileSink, q: EventedProfile, start: Value) -> bool {
    exists|p: EventedProfile|
        #[trigger] sink_store(sink).count(p) > 0 && q == with_bounds(p, start, q.end_value)
}

/// The aggregator: owns the clock epoch, the shared frame registry and the
/// shared collection that finished timelines push themselves into; finalizes
/// them into the output document.
pub struct Profiler {
    start_value: Value,
    profiles: ProfileSink,
    registry: SharedRegistry,
    epoch: std::time::Instant,
}

impl Profiler {
    /// The instant the profiler was created, relative to its epoch.
    pub closed spec fn spec_start(self) -> Value {
        self.start_value
    }

    /// The profiler's handle to the shared frame registry.
    pub closed spec fn spec_registry(self) -> SharedRegistry {
        self.registry
    }

    /// The profiler's handle to the shared collection of finished profiles.
    pub closed spec fn spec_sink(self) -> ProfileSink {
        self.profiles
    }

    /// The profiler's clock epoch.
    pub closed spec fn spec_epoch(self) -> std::time::Instant {
        self.epoch
    }

    /// Creates a profiler: establishes the clock epoch and captures the
    /// process start instant, with a fresh registry and a fresh collection.
    pub fn new() -> Profiler {
        let epoch = std::time::Instant::now();
        let start_value = elapsed(&epoch);
        Profiler {
            start_value,
            profiles: ProfileSink::new(),
            registry: SharedRegistry::new(),
            epoch,
        }
    }

    /// Another handle to the profiler's frame registry, for registering call
    /// sites.
    pub fn registry(&self) -> (r: SharedRegistry)
        ensures
            registry_frames(&r) == registry_frames(&self.spec_registry()),
    {
        self.registry.duplicate()
    }

    /// Creates a new timeline bound to this profiler's shared collection and
    /// registry.
    pub fn thread(&self, name: String) -> (t: Thread)
        ensures
            t.wf(),
            t.spec_name() == name@,
            t.spec_open().len() == 0,
            t.spec_events().len() == 1,
            registry_frames(&self.spec_registry()).contains_pair(
                t.spec_events()[0].spec_frame().0 as int,
                root_frame_view(name@),
            ),
            sink_store(&t.spec_sink()) == sink_store(&self.spec_sink()),
            registry_frames(&t.spec_registry()) == registry_frames(&self.spec_registry()),
            t.spec_epoch() == self.spec_epoch(),
    {
        Thread::new(name, self.profiles.duplicate(), self.registry.duplicate(), self.epoch)
    }

    /// Finalizes the profiler: drains the shared collection, sorts the
    /// profiles by start instant, and overwrites every profile's bounds with
    /// the profiler's own start and the finalization instant. Yields `None`
    /// when some timeline handle is still outstanding, the signal of a
    /// lifecycle error.
    pub fn complete(self) -> (r: Option<File>)
        ensures
            r matches Some(f) ==> {
                &&& forall|i: int|
                    0 <= i < f.profiles@.len() ==> (#[trigger] f.profiles@[i]).start_value
                        == self.spec_start()
                &&& forall|i: int, j: int|
                    0 <= i < f.profiles@.len() && 0 <= j < f.profiles@.len() ==> (
                    #[trigger] f.profiles@[i]).end_value == (#[trigger] f.profiles@[j]).end_value
                &&& forall|i: int|
                    0 <= i < f.profiles@.len() ==> (#[trigger] f.profiles@[i]).start_value.0
                        <= f.profiles@[i].end_value.0
                &&& forall|i: int|
                    0 <= i < f.shared.frames@.len() ==> registry_frames(
                        &self.spec_registry(),
                    ).contains_pair(i, #[trigger] f.shared.frames@[i]@)
                &&& forall|i: int|
                    0 <= i < f.profiles@.len() ==> from_sink(
                        &self.spec_sink(),
                        #[trigger] f.profiles@[i],
                        self.spec_start(),
                    )
                &&& f.name is None
                &&& f.active_profile_index is None
                &&& f.exporter is None
            },
    {
        let end_now = elapsed(&self.epoch);
        let end = if end_now.0 < self.start_value.0 {
            self.start_value
        } else {
            end_now
        };
        match self.profiles.try_drain() {
            Option::None => Option::None,
            Option::Some(threads) => {
                let ghost drained = threads@;
                let frames = get_frames_clone(&self.registry);
                let f = finalize(threads, frames, self.start_value, end);
                proof {
                    broadcast use vstd::seq_lib::group_to_multiset_ensures;

                    assert forall|i: int| 0 <= i < f.profiles@.len() implies from_sink(
                        &self.spec_sink(),
                        #[trigger] f.profiles@[i],
                        self.spec_start(),
                    ) by {
                        assert(stable_sorted(drained).to_multiset() == drained.to_multiset());
                        assert(stable_sorted(drained).len() == stable_sorted(
                            drained,
                        ).to_multiset().len());
                        assert(drained.len() == drained.to_multiset().len());
                        let x = stable_sorted(drained)[i];
                        assert(stable_sorted(drained).contains(x));
                        assert(stable_sorted(drained).to_multiset().count(x) > 0);
                        assert(drained.to_multiset().count(x) > 0);
                        assert(drained.contains(x));
                        let j = choose|j: int| 0 <= j < drained.len() && drained[j] == x;
                        assert(sink_store(&self.spec_sink()).count(drained[j]) > 0);
                        assert(f.profiles@[i] == with_bounds(
                            x,
                            self.spec_start(),
                            f.profiles@[i].end_value,
                        ));
                        assert(sink_store(&self.spec_sink()).count(x) > 0);
                    }
                }
                Option::Some(f)
            },
        }
    }
}


} // verus!
