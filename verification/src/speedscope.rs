//! The output document model: a shared frame table, per-timeline profiles,
//! and the well-formedness notions (bracket balance, timestamp monotonicity)
//! that every emitted profile satisfies.

use vstd::prelude::*;

verus! {

/// Marker for the fixed schema URL of the output document.
pub struct SpeedscopeSchemaUrl;

impl SpeedscopeSchemaUrl {
    /// The schema URL itself, as it appears in the encoded document.
    pub fn url(&self) -> (r: &'static str)
        ensures
            r@ == "https://www.speedscope.app/file-format-schema.json"@,
    {
        "https://www.speedscope.app/file-format-schema.json"
    }
}

/// Marker for the one profile type this library emits.
pub struct ProfileTypeEvented;

impl ProfileTypeEvented {
    /// The profile type tag, as it appears in the encoded document.
    pub fn tag(&self) -> (r: &'static str)
        ensures
            r@ == "evented"@,
    {
        "evented"
    }
}

/// A timestamp or counter value; here always microseconds since an epoch.
#[derive(Clone, Copy, Debug, PartialEq, Eq, Structural, PartialOrd, Ord)]
pub struct Value(pub u64);

impl Value {
    pub fn new(value: u64) -> (r: Value)
        ensures
            r.0 == value,
    {
        Value(value)
    }
}

/// An index into the shared frame table of a document.
#[derive(Clone, Copy, Debug, PartialEq, Eq, Structural)]
pub struct FrameIndex(pub u32);

impl FrameIndex {
    pub fn new(value: u32) -> (r: FrameIndex)
        ensures
            r.0 == value,
    {
        FrameIndex(value)
    }
}

/// The unit all values of one profile are measured in.
#[derive(Clone, Copy, Debug, PartialEq, Eq, Structural)]
pub enum ValueUnit {
    Unitless,
    Nanoseconds,
    Microseconds,
    Milliseconds,
    Seconds,
    Bytes,
}

/// A call-site descriptor: a name and an optional source location.
/// Immutable once registered; its identity is its registry index.
#[derive(Clone, Debug)]
pub struct Frame {
    pub name: String,
    pub file: Option<String>,
    pub line: Option<u32>,
    pub col: Option<u32>,
}

/// The mathematical value of a [`Frame`].
pub struct FrameView {
    pub name: Seq<char>,
    pub file: Option<Seq<char>>,
    pub line: Option<u32>,
    pub col: Option<u32>,
}

impl View for Frame {
    type V = FrameView;

    open spec fn view(&self) -> FrameView {
        FrameView {
            name: self.name@,
            file: match self.file {
                Option::Some(f) => Option::Some(f@),
                Option::None => Option::None,
            },
            line: self.line,
            col: self.col,
        }
    }
}

/// One entry of a timeline's event log: a stack frame opened or closed at a
/// given instant.
#[derive(Clone, Copy, Debug)]
pub enum Event {
    OpenFrame { at: Value, frame: FrameIndex },
    CloseFrame { at: Value, frame: FrameIndex },
}

impl Event {
    /// The instant the event happened, in microseconds since the epoch.
    pub open spec fn spec_at(self) -> u64 {
        match self {
            Event::OpenFrame { at, .. } => at.0,
            Event::CloseFrame { at, .. } => at.0,
        }
    }

    /// The frame the event opened or closed.
    pub open spec fn spec_frame(self) -> FrameIndex {
        match self {
            Event::OpenFrame { frame, .. } => frame,
            Event::CloseFrame { frame, .. } => frame,
        }
    }

    /// Whether the event opens a frame.
    pub open spec fn is_open(self) -> bool {
        match self {
            Event::OpenFrame { .. } => true,
            Event::CloseFrame { .. } => false,
        }
    }

    pub fn frame(&self) -> (r: FrameIndex)
        ensures
            r == self.spec_frame(),
    {
        match self {
            Event::OpenFrame { frame, .. } => *frame,
            Event::CloseFrame { frame, .. } => *frame,
        }
    }

    pub fn at(&self) -> (r: Value)
        ensures
            r.0 == self.spec_at(),
    {
        match self {
            Event::OpenFrame { at, .. } => *at,
            Event::CloseFrame { at, .. } => *at,
        }
    }
}

/// One finished timeline: its name, unit, start/end bounds and event log.
/// After finalization the bounds are the document-wide ones and the events
/// are balanced and monotone.
pub struct EventedProfile {
    pub type_: ProfileTypeEvented,
    pub name: String,
    pub unit: ValueUnit,
    pub start_value: Value,
    pub end_value: Value,
    pub events: Vec<Event>,
}

/// Data shared between the profiles of one document: the frame table.
pub struct FileShared {
    pub frames: Vec<Frame>,
}

/// The finalized output document: the frame table and every completed
/// timeline, under uniform start/end bounds.
pub struct File {
    pub schema: SpeedscopeSchemaUrl,
    pub shared: FileShared,
    pub profiles: Vec<EventedProfile>,
    pub name: Option<String>,
    pub active_profile_index: Option<u32>,
    pub exporter: Option<String>,
}

/// The stack of currently open frames after replaying `events`, or `None` if
/// some close did not match the innermost open frame.
pub open spec fn opens_stack(events: Seq<Event>) -> Option<Seq<FrameIndex>>
    decreases events.len(),
{
    if events.len() == 0 {
        Option::Some(Seq::empty())
    } else {
        match opens_stack(events.drop_last()) {
            Option::None => Option::None,
            Option::Some(stack) => {
                let e = events.last();
                if e.is_open() {
                    Option::Some(stack.push(e.spec_frame()))
                } else if stack.len() > 0 && stack.last() == e.spec_frame() {
                    Option::Some(stack.drop_last())
                } else {
                    Option::None
                }
            },
        }
    }
}

/// A log is balanced when replaying it leaves no frame open: every open has
/// exactly one matching close, properly nested.
pub open spec fn balanced(events: Seq<Event>) -> bool {
    opens_stack(events) == Option::Some(Seq::<FrameIndex>::empty())
}

/// Consecutive events never go backward in time.
pub open spec fn monotone(events: Seq<Event>) -> bool {
    forall|i: int|
        0 <= i && i + 1 < events.len() ==> #[trigger] events[i].spec_at() <= events[i + 1].spec_at()
}

/// How many events of `events` open a frame.
pub open spec fn count_opens(events: Seq<Event>) -> int
    decreases events.len(),
{
    if events.len() == 0 {
        0
    } else {
        count_opens(events.drop_last()) + if events.last().is_open() {
            1int
        } else {
            0int
        }
    }
}

/// How many events of `events` close a frame.
pub open spec fn count_closes(events: Seq<Event>) -> int
    decreases events.len(),
{
    if events.len() == 0 {
        0
    } else {
        count_closes(events.drop_last()) + if events.last().is_open() {
            0int
        } else {
            1int
        }
    }
}

/// How many events of `events` open the frame `f`.
pub open spec fn count_opens_of(events: Seq<Event>, f: FrameIndex) -> int
    decreases events.len(),
{
    if events.len() == 0 {
        0
    } else {
        count_opens_of(events.drop_last(), f) + if events.last().is_open()
            && events.last().spec_frame() == f {
            1int
        } else {
            0int
        }
    }
}

/// How many events of `events` close the frame `f`.
pub open spec fn count_closes_of(events: Seq<Event>, f: FrameIndex) -> int
    decreases events.len(),
{
    if events.len() == 0 {
        0
    } else {
        count_closes_of(events.drop_last(), f) + if !events.last().is_open()
            && events.last().spec_frame() == f {
            1int
        } else {
            0int
        }
    }
}

/// How many entries of `stack` are the frame `f`.
pub open spec fn count_in_stack(stack: Seq<FrameIndex>, f: FrameIndex) -> int
    decreases stack.len(),
{
    if stack.len() == 0 {
        0
    } else {
        count_in_stack(stack.drop_last(), f) + if stack.last() == f {
            1int
        } else {
            0int
        }
    }
}

proof fn lemma_count_in_stack_nonneg(stack: Seq<FrameIndex>, f: FrameIndex)
    ensures
        count_in_stack(stack, f) >= 0,
    decreases stack.len(),
{
    if stack.len() > 0 {
        lemma_count_in_stack_nonneg(stack.drop_last(), f);
    }
}

/// In a log that replays without a mismatch, each frame's opens outnumber its
/// closes by exactly its multiplicity on the stack of still-open frames.
pub proof fn lemma_stack_counts_of(events: Seq<Event>, f: FrameIndex)
    requires
        opens_stack(events) is Some,
    ensures
        count_opens_of(events, f) == count_closes_of(events, f) + count_in_stack(
            opens_stack(events)->Some_0,
            f,
        ),
    decreases events.len(),
{
    if events.len() > 0 {
        let pre = events.drop_last();
        lemma_stack_counts_of(pre, f);
        let st = opens_stack(pre)->Some_0;
        let e = events.last();
        if e.is_open() {
            assert(st.push(e.spec_frame()).drop_last() =~= st);
        }
    }
}

/// Per-frame balance law: in a balanced log every frame has exactly one close
/// for each of its opens, and in every prefix no frame's closes outnumber its
/// opens.
pub proof fn lemma_balance_per_frame(events: Seq<Event>, f: FrameIndex)
    requires
        balanced(events),
    ensures
        count_opens_of(events, f) == count_closes_of(events, f),
        forall|i: int|
            0 <= i <= events.len() ==> count_opens_of(#[trigger] events.take(i), f)
                >= count_closes_of(events.take(i), f),
{
    lemma_stack_counts_of(events, f);
    assert forall|i: int| 0 <= i <= events.len() implies count_opens_of(
        #[trigger] events.take(i),
        f,
    ) >= count_closes_of(events.take(i), f) by {
        lemma_prefix_replays(events, i);
        lemma_stack_counts_of(events.take(i), f);
        lemma_count_in_stack_nonneg(opens_stack(events.take(i))->Some_0, f);
    }
}

/// Appending an event that is at least as late as the last one keeps the log
/// monotone.
pub proof fn lemma_monotone_push(events: Seq<Event>, e: Event)
    requires
        monotone(events),
        events.len() > 0 ==> events.last().spec_at() <= e.spec_at(),
    ensures
        monotone(events.push(e)),
{
    let post = events.push(e);
    assert forall|i: int| 0 <= i && i + 1 < post.len() implies #[trigger] post[i].spec_at()
        <= post[i + 1].spec_at() by {
        if i + 2 < post.len() {
            assert(events[i].spec_at() <= events[i + 1].spec_at());
        }
    }
}

/// In a monotone log no event precedes an earlier one.
pub proof fn lemma_monotone_le(events: Seq<Event>, i: int, j: int)
    requires
        monotone(events),
        0 <= i <= j < events.len(),
    ensures
        events[i].spec_at() <= events[j].spec_at(),
    decreases j - i,
{
    if i < j {
        lemma_monotone_le(events, i, j - 1);
    }
}

/// Appending an open event pushes its frame onto the replay stack.
pub proof fn lemma_opens_stack_push_open(events: Seq<Event>, e: Event)
    requires
        opens_stack(events) is Some,
        e.is_open(),
    ensures
        opens_stack(events.push(e)) == Option::Some(
            opens_stack(events)->Some_0.push(e.spec_frame()),
        ),
{
    assert(events.push(e).drop_last() =~= events);
}

/// Appending a close event for the innermost open frame pops the replay
/// stack.
pub proof fn lemma_opens_stack_push_close(events: Seq<Event>, e: Event)
    requires
        opens_stack(events) is Some,
        opens_stack(events)->Some_0.len() > 0,
        opens_stack(events)->Some_0.last() == e.spec_frame(),
        !e.is_open(),
    ensures
        opens_stack(events.push(e)) == Option::Some(opens_stack(events)->Some_0.drop_last()),
{
    assert(events.push(e).drop_last() =~= events);
}

/// In a log that replays without a mismatch, the opens outnumber the closes
/// by exactly the number of still-open frames.
pub proof fn lemma_stack_counts(events: Seq<Event>)
    requires
        opens_stack(events) is Some,
    ensures
        count_opens(events) == count_closes(events) + opens_stack(events)->Some_0.len(),
    decreases events.len(),
{
    if events.len() > 0 {
        lemma_stack_counts(events.drop_last());
    }
}

/// Every prefix of a log that replays without a mismatch also replays
/// without a mismatch.
pub proof fn lemma_prefix_replays(events: Seq<Event>, i: int)
    requires
        opens_stack(events) is Some,
        0 <= i <= events.len(),
    ensures
        opens_stack(events.take(i)) is Some,
    decreases events.len() - i,
{
    if i == events.len() {
        assert(events.take(i) =~= events);
    } else {
        assert(events.drop_last().take(i) =~= events.take(i));
        lemma_prefix_replays(events.drop_last(), i);
    }
}

/// Balance law: a balanced log has exactly one close for every open, and in
/// every prefix the opens outnumber or equal the closes.
pub proof fn lemma_balance(events: Seq<Event>)
    requires
        balanced(events),
    ensures
        count_opens(events) == count_closes(events),
        forall|i: int|
            0 <= i <= events.len() ==> count_opens(#[trigger] events.take(i)) >= count_closes(
                events.take(i),
            ),
{
    lemma_stack_counts(events);
    assert forall|i: int| 0 <= i <= events.len() implies count_opens(#[trigger] events.take(i))
        >= count_closes(events.take(i)) by {
        lemma_prefix_replays(events, i);
        lemma_stack_counts(events.take(i));
    }
}

} // verus!
