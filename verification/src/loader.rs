//! The queue of render requests on the side of the caller.
//!
//! Requests wait here until the worker has room for them. The worker is
//! not part of the library: the caller hands it the requests that `tick`
//! releases and brings back its responses.

use crate::apps::AppId;
use crate::render::RenderError;
use vstd::prelude::*;

verus! {

/// The most requests that one `tick` releases.
pub const TICK_BATCH: usize = 32;

/// The most requests that wait at the worker at one time.
pub const WORKER_CAPACITY: usize = 16;

/// A cache slot that has been given out for one render: the application,
/// the number of the slot and the path of its file.
#[derive(PartialEq, Eq, Debug)]
pub struct IconLocation {
    pub app_id: AppId,
    pub export_id: usize,
    pub path: String,
}

/// The mathematical content of a slot handle.
pub struct SlotView {
    pub app_id: Seq<char>,
    pub export_id: usize,
    pub path: Seq<char>,
}

impl View for IconLocation {
    type V = SlotView;

    open spec fn view(&self) -> SlotView {
        SlotView { app_id: self.app_id@, export_id: self.export_id, path: self.path@ }
    }
}

/// The order to render the icon of one application into its slot.
#[derive(PartialEq, Eq, Debug)]
pub struct LoadIconTaskRequest {
    pub id: AppId,
    pub app_name: String,
    /// The icon source of the application.
    pub icon: String,
    pub location: IconLocation,
}

/// The mathematical content of a request.
pub struct RequestView {
    pub id: Seq<char>,
    pub app_name: Seq<char>,
    pub icon: Seq<char>,
    pub location: SlotView,
}

impl View for LoadIconTaskRequest {
    type V = RequestView;

    open spec fn view(&self) -> RequestView {
        RequestView {
            id: self.id@,
            app_name: self.app_name@,
            icon: self.icon@,
            location: self.location@,
        }
    }
}

/// What went wrong with an icon file.
#[derive(PartialEq, Eq, Debug)]
pub enum LoadCause {
    /// The icon file could not be read; with the message of the system.
    Read(String),
    Render(RenderError),
    /// The rendered icon could not be written; with the message of the
    /// system.
    Write(String),
}

/// Why a request did not give a rendered icon.
#[derive(PartialEq, Eq, Debug)]
pub enum LoadFailure {
    /// The request never reached the worker.
    Cancelled,
    /// The work on the icon file at `path` failed.
    Failed { path: String, cause: LoadCause },
}

/// The outcome of a request, with the slot it was for.
#[derive(PartialEq, Eq, Debug)]
pub enum LoadIconTaskResponse {
    Success(IconLocation),
    Fail(LoadFailure, IconLocation),
}

impl LoadIconTaskResponse {
    /// The slot that the response is for.
    pub open spec fn slot(&self) -> IconLocation {
        match self {
            LoadIconTaskResponse::Success(location) => *location,
            LoadIconTaskResponse::Fail(_, location) => *location,
        }
    }

    /// The slot that the response is for.
    pub fn location(&self) -> (r: &IconLocation)
        ensures
            *r == self.slot(),
    {
        match self {
            LoadIconTaskResponse::Success(location) => location,
            LoadIconTaskResponse::Fail(_, location) => location,
        }
    }
}

impl LoadIconTaskRequest {
    /// The response to this request after the work on it ended as
    /// `outcome`.
    pub fn respond(self, outcome: Result<(), LoadFailure>) -> (r: LoadIconTaskResponse)
        ensures
            r == match outcome {
                Ok(_) => LoadIconTaskResponse::Success(self.location),
                Err(failure) => LoadIconTaskResponse::Fail(failure, self.location),
            },
    {
        match outcome {
            Ok(_) => LoadIconTaskResponse::Success(self.location),
            Err(failure) => LoadIconTaskResponse::Fail(failure, self.location),
        }
    }
}

/// Whether a loader still releases requests.
#[derive(Copy, Clone, PartialEq, Eq, Debug, Structural)]
pub enum IconLoaderStatus {
    Run,
    Finished,
}

/// The requests that wait for the worker.
#[derive(Debug)]
pub struct IconLoader {
    pub queue: Vec<LoadIconTaskRequest>,
    pub status: IconLoaderStatus,
}

/// The number of requests that a tick releases: no more than the batch
/// size, the room at the worker and the number that wait; none after the
/// loader has finished.
pub open spec fn batch_size(status: IconLoaderStatus, waiting: nat, free: usize) -> nat {
    if status == IconLoaderStatus::Finished {
        0
    } else if waiting <= free && waiting <= TICK_BATCH {
        waiting
    } else if free <= TICK_BATCH {
        free as nat
    } else {
        TICK_BATCH as nat
    }
}

/// The responses that shutdown gives for the requests that still wait:
/// for each, in order, a failure that says it was cancelled.
pub open spec fn cancelled(queue: Seq<LoadIconTaskRequest>) -> Seq<LoadIconTaskResponse> {
    Seq::new(
        queue.len(),
        |i: int| LoadIconTaskResponse::Fail(LoadFailure::Cancelled, queue[i].location),
    )
}

impl IconLoader {
    /// A running loader with nothing in its queue.
    pub fn new() -> (r: IconLoader)
        ensures
            r.queue@.len() == 0,
            r.status == IconLoaderStatus::Run,
    {
        IconLoader { queue: Vec::new(), status: IconLoaderStatus::Run }
    }

    /// Puts a request at the end of the queue.
    pub fn enqueue(&mut self, request: LoadIconTaskRequest)
        ensures
            final(self).queue@ == old(self).queue@.push(request),
            final(self).status == old(self).status,
    {
        self.queue.push(request);
    }

    /// Puts requests that were released back at the front of the queue, in
    /// their order, before all that wait.
    pub fn put_back(&mut self, refused: Vec<LoadIconTaskRequest>)
        ensures
            final(self).queue@ == refused@ + old(self).queue@,
            final(self).status == old(self).status,
    {
        let mut queue = refused;
        queue.append(&mut self.queue);
        self.queue = queue;
    }

    /// Releases requests for the worker, which has room for `free` more:
    /// the oldest first, in the order in which they were enqueued. What is
    /// not released stays queued, in order, for a later tick.
    pub fn tick(&mut self, free: usize) -> (batch: Vec<LoadIconTaskRequest>)
        ensures
            batch@.len() == batch_size(old(self).status, old(self).queue@.len(), free),
            batch@ == old(self).queue@.take(batch@.len() as int),
            final(self).queue@ == old(self).queue@.skip(batch@.len() as int),
            final(self).status == old(self).status,
    {
        if self.status == IconLoaderStatus::Finished {
            assert(self.queue@.skip(0) =~= self.queue@);
            assert(self.queue@.take(0) =~= Seq::<LoadIconTaskRequest>::empty());
            return Vec::new();
        }
        let room: usize = if free < TICK_BATCH {
            free
        } else {
            TICK_BATCH
        };
        let count: usize = if self.queue.len() < room {
            self.queue.len()
        } else {
            room
        };
        let mut batch = self.queue.split_off(count);
        core::mem::swap(&mut batch, &mut self.queue);
        batch
    }

    /// Shuts the loader down: every request that still waits is answered
    /// as cancelled, and none is released any more. A second shutdown finds
    /// nothing to answer.
    pub fn finish(&mut self) -> (r: Vec<LoadIconTaskResponse>)
        ensures
            r@ == cancelled(old(self).queue@),
            final(self).queue@.len() == 0,
            final(self).status == IconLoaderStatus::Finished,
    {
        let mut queue: Vec<LoadIconTaskRequest> = Vec::new();
        core::mem::swap(&mut queue, &mut self.queue);
        self.status = IconLoaderStatus::Finished;
        let ghost all = queue@;
        let mut out: Vec<LoadIconTaskResponse> = Vec::new();
        for request in it: queue
            invariant
                it.seq() == all,
                out@ == cancelled(all.take(it.index())),
        {
            let ghost before = out@;
            out.push(LoadIconTaskResponse::Fail(LoadFailure::Cancelled, request.location));
            assert(out@ =~= cancelled(all.take(it.index() + 1)));
        }
        assert(all.take(all.len() as int) =~= all);
        out
    }
}

} // verus!
