//! The process-wide frame registry: an append-only, lock-protected store of
//! call-site descriptors, shared by handle, plus the per-call-site memo cell
//! that makes registration idempotent.

use vstd::prelude::*;

use crate::speedscope::{Frame, FrameIndex, FrameView};

verus! {

/// What the registry ever stores at each index. The store is append-only and
/// an index is written at most once, so for each registry this is one fixed
/// mapping, shared by every handle to it.
pub uninterp spec fn registry_frames(reg: &SharedRegistry) -> Map<int, FrameView>;

/// A shared handle to one append-only store of frame descriptors. Handles may
/// live on several threads; the append path is guarded by parking_lot's lock.
#[verifier::external_body]
pub struct SharedRegistry {
    inner: std::sync::Arc<parking_lot::Mutex<Vec<Frame>>>,
}

impl SharedRegistry {
    /// Relies on std::sync::Arc::new and parking_lot::Mutex::new: a fresh,
    /// empty registry.
    #[verifier::external_body]
    pub fn new() -> SharedRegistry {
        SharedRegistry { inner: std::sync::Arc::new(parking_lot::Mutex::new(Vec::new())) }
    }

    /// Relies on std::sync::Arc::clone: another handle to the same registry,
    /// with the same eventual contents.
    #[verifier::external_body]
    pub fn duplicate(&self) -> (r: SharedRegistry)
        ensures
            registry_frames(&r) == registry_frames(self),
    {
        SharedRegistry { inner: std::sync::Arc::clone(&self.inner) }
    }
}

/// Relies on parking_lot::Mutex::lock and Vec::push: appends the descriptor
/// under the lock and returns its position, which no later registration
/// reuses. Aborts if the indices are exhausted.
#[verifier::external_body]
pub fn register_frame(reg: &SharedRegistry, frame: Frame) -> (r: FrameIndex)
    ensures
        registry_frames(reg).contains_pair(r.0 as int, frame@),
{
    let mut frames = reg.inner.lock();
    let id = u32::try_from(frames.len()).unwrap();
    frames.push(frame);
    FrameIndex::new(id)
}

/// Relies on parking_lot::Mutex::lock and Vec::clone: a point-in-time copy of
/// the registered descriptors, each at the index its registration returned.
#[verifier::external_body]
pub fn get_frames_clone(reg: &SharedRegistry) -> (r: Vec<Frame>)
    ensures
        forall|i: int| 0 <= i < r@.len() ==> registry_frames(reg).contains_pair(i, #[trigger] r@[i]@),
{
    reg.inner.lock().clone()
}

/// The index a call site's memo cell ever holds; the cell is written at most
/// once, so for each cell this is one fixed value.
pub uninterp spec fn call_site_index(site: &CallSite) -> Option<u32>;

/// A call-site memo cell: the first registration through it wins and every
/// later call is served the cached index, without taking the registry lock.
#[verifier::external_body]
pub struct CallSite {
    cell: once_cell::sync::OnceCell<FrameIndex>,
}

impl CallSite {
    /// Relies on once_cell::sync::OnceCell::new: a fresh, empty cell.
    #[verifier::external_body]
    pub fn new() -> CallSite {
        CallSite { cell: once_cell::sync::OnceCell::new() }
    }

    /// Relies on once_cell::sync::OnceCell::get_or_init: even under
    /// concurrent first use, exactly one initialization runs, and every call
    /// returns the one value the cell then holds.
    #[verifier::external_body]
    pub fn get_or_register(&self, reg: &SharedRegistry, frame: Frame) -> (r: FrameIndex)
        ensures
            call_site_index(self) == Option::Some(r.0),
    {
        *self.cell.get_or_init(|| register_frame(reg, frame))
    }
}

/// Registry idempotence law: any two registrations through the same call-site
/// cell yield the same frame index, however many calls were made and from
/// however many threads.
pub proof fn lemma_call_site_idempotent(site: &CallSite, r1: FrameIndex, r2: FrameIndex)
    requires
        call_site_index(site) == Option::Some(r1.0),
        call_site_index(site) == Option::Some(r2.0),
    ensures
        r1 == r2,
{
}

} // verus!
