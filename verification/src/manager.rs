//! The icon cache of the launcher: which application has which cache slot,
//! which renders are under way, and what is to be thrown away.
//!
//! The manager decides; the caller acts. It hands out the requests for the
//! worker, takes in the worker's responses, and names the slots whose
//! files are to be deleted. It never reads or writes a file itself.

use crate::apps::{App, AppId};
use crate::descriptor::{decimal_digits, push_decimal};
use crate::idset::IdSet;
use crate::loader::{
    batch_size, cancelled, IconLoader, IconLoaderStatus, IconLocation, LoadFailure,
    LoadIconTaskRequest, LoadIconTaskResponse, RequestView, SlotView,
};
use crate::model::{
    id_in_use, is_free_id, is_unseen_slot, lists, slots_distinct, IconEntryModel, IconEntryView,
    IconsModel,
};
use crate::path::{join, join_spec};
use vstd::prelude::*;

verus! {

/// Finds and keeps the icons of the applications.
#[derive(Debug)]
pub struct AppIconManager {
    /// The directory of the cache files.
    pub icon_image_dir: String,
    pub model: IconsModel,
    /// The applications that asked for their icon in this run.
    pub seen_icons: IdSet,
    /// The applications whose slot waits for its render.
    pub pending: IdSet,
    /// The queue of requests; made with the first request.
    pub loader: Option<IconLoader>,
    pub to_load: usize,
    pub to_load_finished: usize,
}

/// The mathematical content of an `AppIconManager`.
pub struct ManagerView {
    pub dir: Seq<char>,
    pub model: Map<Seq<char>, IconEntryView>,
    pub seen: Set<Seq<char>>,
    pub pending: Set<Seq<char>>,
    /// The requests that wait for the worker, oldest first.
    pub queue: Seq<RequestView>,
    pub to_load: int,
    pub to_load_finished: int,
}

pub open spec fn requests_view(queue: Seq<LoadIconTaskRequest>) -> Seq<RequestView> {
    Seq::new(queue.len(), |i: int| queue[i]@)
}

impl View for AppIconManager {
    type V = ManagerView;

    open spec fn view(&self) -> ManagerView {
        ManagerView {
            dir: self.icon_image_dir@,
            model: self.model@,
            seen: self.seen_icons@,
            pending: self.pending@,
            queue: match self.loader {
                Some(loader) => requests_view(loader.queue@),
                None => Seq::empty(),
            },
            to_load: self.to_load as int,
            to_load_finished: self.to_load_finished as int,
        }
    }
}

/// The path of the cache file of a slot: `<slot>.png` in the cache
/// directory.
pub open spec fn slot_path(dir: Seq<char>, slot: usize) -> Seq<char> {
    join_spec(dir, decimal_digits(slot as nat) + ".png"@)
}

/// The lowest slot that no entry holds.
pub open spec fn free_id(model: Map<Seq<char>, IconEntryView>) -> usize {
    choose|id: usize| is_free_id(model, id)
}

/// A count after one more has been counted. The count stops at the
/// largest number that it can hold.
pub open spec fn counted(n: int) -> int {
    if n < usize::MAX {
        n + 1
    } else {
        n
    }
}

/// The state after an application has asked for its icon. An application
/// without icon source changes nothing. Any other is marked as seen; if
/// its source is the one on record, that is all. Else it gets the lowest
/// free slot, its record is set to the source and the slot, the slot waits
/// for its render, and a request for the render joins the queue.
pub open spec fn prepared(s: ManagerView, id: Seq<char>, name: Seq<char>, icon: Option<Seq<char>>) -> ManagerView {
    match icon {
        None => s,
        Some(source) => {
            if s.model.dom().contains(id) && s.model[id].source_location == source {
                ManagerView { seen: s.seen.insert(id), ..s }
            } else {
                let slot = free_id(s.model);
                ManagerView {
                    seen: s.seen.insert(id),
                    model: s.model.insert(
                        id,
                        IconEntryView { source_location: source, export_id: Some(slot) },
                    ),
                    pending: s.pending.insert(id),
                    queue: s.queue.push(
                        RequestView {
                            id,
                            app_name: name,
                            icon: source,
                            location: SlotView {
                                app_id: id,
                                export_id: slot,
                                path: slot_path(s.dir, slot),
                            },
                        },
                    ),
                    to_load: counted(s.to_load),
                    ..s
                }
            }
        },
    }
}

/// The response for `slot` is for a render that is still awaited: the
/// application waits, and its record holds that very slot.
pub open spec fn is_current(s: ManagerView, slot: SlotView) -> bool {
    &&& s.pending.contains(slot.app_id)
    &&& s.model.dom().contains(slot.app_id)
    &&& s.model[slot.app_id].export_id == Some(slot.export_id)
}

/// The state after a response has come in. Every response counts as
/// finished work. A response for a render that is still awaited ends the
/// wait: a success leaves the record as it is, a failure clears its slot.
/// Any other response is out of date and changes nothing else.
pub open spec fn applied(s: ManagerView, success: bool, slot: SlotView) -> ManagerView {
    let counted = ManagerView { to_load_finished: counted(s.to_load_finished), ..s };
    if is_current(s, slot) {
        ManagerView {
            pending: s.pending.remove(slot.app_id),
            model: if success {
                s.model
            } else {
                s.model.insert(
                    slot.app_id,
                    IconEntryView { export_id: None, ..s.model[slot.app_id] },
                )
            },
            ..counted
        }
    } else {
        counted
    }
}

/// The state after the first `n` of the responses have come in, one after
/// the other.
pub open spec fn applied_all(s: ManagerView, responses: Seq<LoadIconTaskResponse>, n: nat) -> ManagerView
    decreases n,
{
    if n == 0 || n > responses.len() {
        s
    } else {
        applied(
            applied_all(s, responses, (n - 1) as nat),
            responses[n - 1] is Success,
            responses[n - 1].slot()@,
        )
    }
}

/// The slot is held by the record of an application that was not seen in
/// this run.
pub open spec fn is_stale_slot(s: ManagerView, slot: usize) -> bool {
    is_unseen_slot(s.model, s.seen, slot)
}

/// The state after the records of the applications that were not seen in
/// this run have been thrown away.
pub open spec fn purged(s: ManagerView) -> ManagerView {
    ManagerView { model: s.model.restrict(s.seen), ..s }
}

impl AppIconManager {
    /// The records are well formed, no two of them hold the same slot,
    /// every application that waits for a render was seen, and a loader
    /// that is there runs.
    pub open spec fn wf(&self) -> bool {
        &&& self.model.wf()
        &&& slots_distinct(self.model@)
        &&& self.pending@.subset_of(self.seen_icons@)
        &&& self.loader matches Some(loader) ==> loader.status == IconLoaderStatus::Run
    }

    /// The directory of the cache files below the cache directory of the
    /// launcher.
    pub fn cache_dir(dir: &str) -> (r: String)
        ensures
            r@ == join_spec(dir@, "icons"@),
    {
        join(dir, "icons")
    }

    /// The path of the file that keeps the records between runs.
    pub fn model_path(&self) -> (r: String)
        ensures
            r@ == join_spec(self.icon_image_dir@, "icons.json"@),
    {
        join(self.icon_image_dir.as_str(), "icons.json")
    }

    /// A manager over the cache files in `icon_image_dir`, with the
    /// records of the run before. Nothing is seen, awaited or queued yet.
    pub fn new(icon_image_dir: String, model: IconsModel) -> (r: AppIconManager)
        requires
            model.wf(),
            slots_distinct(model@),
        ensures
            r.wf(),
            r@ == (ManagerView {
                dir: icon_image_dir@,
                model: model@,
                seen: Set::empty(),
                pending: Set::empty(),
                queue: Seq::empty(),
                to_load: 0,
                to_load_finished: 0,
            }),
    {
        AppIconManager {
            icon_image_dir,
            model,
            seen_icons: IdSet::new(),
            pending: IdSet::new(),
            loader: None,
            to_load: 0,
            to_load_finished: 0,
        }
    }

    /// The path of the cache file of a slot.
    pub fn icon_path(&self, id: usize) -> (r: String)
        ensures
            r@ == slot_path(self.icon_image_dir@, id),
    {
        let mut name = String::new();
        push_decimal(&mut name, id as u64);
        name.append(".png");
        join(self.icon_image_dir.as_str(), name.as_str())
    }

    /// The cache file of the icon of an application: there is one if the
    /// record of the application holds a slot and no render for it is
    /// awaited.
    pub fn read_icon(&self, id: &AppId) -> (r: Option<String>)
        requires
            self.wf(),
        ensures
            match r {
                Some(path) => {
                    &&& self@.model.dom().contains(id@)
                    &&& !self@.pending.contains(id@)
                    &&& self@.model[id@].export_id matches Some(slot)
                    &&& path@ == slot_path(self@.dir, slot)
                },
                None => !self@.model.dom().contains(id@) || self@.pending.contains(id@)
                    || self@.model[id@].export_id is None,
            },
    {
        if self.pending.contains(id) {
            return None;
        }
        match self.model.get(id) {
            Some(entry) => match entry.export_id {
                Some(slot) => Some(self.icon_path(slot)),
                None => None,
            },
            None => None,
        }
    }

    /// How many renders were asked for; the count stops at the largest
    /// number that it can hold.
    pub fn to_load(&self) -> (r: usize)
        ensures
            r == self@.to_load,
    {
        self.to_load
    }

    /// How many responses came in; the count stops at the largest number
    /// that it can hold.
    pub fn to_load_finished(&self) -> (r: usize)
        ensures
            r == self@.to_load_finished,
    {
        self.to_load_finished
    }

    /// Gives an application a fresh slot and makes the handle of it.
    fn new_location(&mut self, source_location: String, app: AppId) -> (r: IconLocation)
        requires
            old(self).wf(),
        ensures
            final(self).wf(),
            r.export_id == free_id(old(self)@.model),
            is_free_id(old(self)@.model, r.export_id),
            r@ == (SlotView {
                app_id: app@,
                export_id: r.export_id,
                path: slot_path(old(self)@.dir, r.export_id),
            }),
            final(self)@ == (ManagerView {
                model: old(self)@.model.insert(
                    app@,
                    IconEntryView { source_location: source_location@, export_id: Some(r.export_id) },
                ),
                ..old(self)@
            }),
    {
        let id = self.model.find_free_id();
        proof {
            lemma_free_id_unique(self@.model, id, free_id(self@.model));
        }
        let path = self.icon_path(id);
        self.model.insert(app.clone(), IconEntryModel { source_location, export_id: Some(id) });
        IconLocation { app_id: app, export_id: id, path }
    }

    /// Takes note that an application asks for its icon. Where no render
    /// is asked for, the queue is not touched, nor is one made.
    pub fn prepare_icon(&mut self, app: &App)
        requires
            old(self).wf(),
        ensures
            final(self).wf(),
            match app.icon {
                Some(source) => old(self)@.model.dom().contains(app.id@) && old(
                    self,
                )@.model[app.id@].source_location == source@ ==> final(self).loader == old(
                    self,
                ).loader,
                None => final(self).loader == old(self).loader,
            },
            final(self)@ == prepared(
                old(self)@,
                app.id@,
                app.name@,
                match app.icon {
                    Some(source) => Some(source@),
                    None => None,
                },
            ),
    {
        let source = match &app.icon {
            Some(source) => source.clone(),
            None => {
                return ;
            },
        };
        self.seen_icons.insert(app.id.clone());
        match self.model.get(&app.id) {
            Some(entry) => {
                if entry.source_location == source {
                    return ;
                }
            },
            None => {},
        }
        if self.to_load < usize::MAX {
            self.to_load = self.to_load + 1;
        }
        let location = self.new_location(source.clone(), app.id.clone());
        self.pending.insert(app.id.clone());
        let request = LoadIconTaskRequest {
            id: app.id.clone(),
            app_name: app.name.clone(),
            icon: source,
            location,
        };
        let ghost waiting = old(self)@.queue;
        match &mut self.loader {
            Some(loader) => {
                loader.enqueue(request);
            },
            None => {
                let mut loader = IconLoader::new();
                loader.enqueue(request);
                self.loader = Some(loader);
            },
        }
        assert(self@.queue =~= waiting.push(request@));
    }

    /// Takes in one response of the worker.
    pub fn handle_response(&mut self, response: &LoadIconTaskResponse)
        requires
            old(self).wf(),
        ensures
            final(self).wf(),
            final(self).loader == old(self).loader,
            final(self)@ == applied(old(self)@, *response is Success, response.slot()@),
    {
        if self.to_load_finished < usize::MAX {
            self.to_load_finished = self.to_load_finished + 1;
        }
        let in_use = match response {
            LoadIconTaskResponse::Success(_) => true,
            LoadIconTaskResponse::Fail(_, _) => false,
        };
        self.free_location(in_use, response.location());
    }

    /// Ends the wait for the render of a slot, if it is still awaited: a
    /// slot that is in use stays on record, any other is cleared.
    fn free_location(&mut self, in_use: bool, id: &IconLocation)
        requires
            old(self).wf(),
        ensures
            final(self).wf(),
            final(self).loader == old(self).loader,
            final(self)@ == (ManagerView {
                to_load_finished: old(self)@.to_load_finished,
                ..applied(old(self)@, in_use, id@)
            }),
    {
        if !self.pending.contains(&id.app_id) {
            return ;
        }
        let source = match self.model.get(&id.app_id) {
            Some(entry) => match entry.export_id {
                Some(slot) => {
                    if slot != id.export_id {
                        return ;
                    }
                    entry.source_location.clone()
                },
                None => {
                    return ;
                },
            },
            None => {
                return ;
            },
        };
        self.pending.remove(&id.app_id);
        if !in_use {
            self.model.insert(id.app_id.clone(), IconEntryModel { source_location: source, export_id: None });
        }
    }

    /// Takes in the responses of the worker, one after the other.
    pub fn handle_responses(&mut self, responses: &Vec<LoadIconTaskResponse>)
        requires
            old(self).wf(),
        ensures
            final(self).wf(),
            final(self).loader == old(self).loader,
            final(self)@ == applied_all(old(self)@, responses@, responses@.len()),
    {
        let mut i: usize = 0;
        while i < responses.len()
            invariant
                i <= responses.len(),
                self.wf(),
                self.loader == old(self).loader,
                self@ == applied_all(old(self)@, responses@, i as nat),
            decreases responses.len() - i,
        {
            self.handle_response(&responses[i]);
            i += 1;
        }
    }

    /// One round of work. Releases requests for the worker, which has room
    /// for `free` more, the oldest first, and takes in the responses that the worker has
    /// given since the last round. Returns the requests to hand to the
    /// worker, and whether any request was released or any response taken
    /// in.
    pub fn tick(&mut self, free: usize, responses: &Vec<LoadIconTaskResponse>) -> (r: (
        Vec<LoadIconTaskRequest>,
        bool,
    ))
        requires
            old(self).wf(),
        ensures
            final(self).wf(),
            r.0@.len() == batch_size(IconLoaderStatus::Run, old(self)@.queue.len(), free),
            requests_view(r.0@) == old(self)@.queue.take(r.0@.len() as int),
            final(self)@ == applied_all(
                ManagerView { queue: old(self)@.queue.skip(r.0@.len() as int), ..old(self)@ },
                responses@,
                responses@.len(),
            ),
            r.1 == (r.0@.len() > 0 || responses@.len() > 0),
    {
        let ghost waiting = self@.queue;
        let batch = match &mut self.loader {
            Some(loader) => {
                let ghost queue = loader.queue@;
                let batch = loader.tick(free);
                assert(requests_view(loader.queue@) =~= requests_view(queue).skip(
                    batch@.len() as int,
                ));
                assert(requests_view(batch@) =~= requests_view(queue).take(batch@.len() as int));
                batch
            },
            None => {
                let none: Vec<LoadIconTaskRequest> = Vec::new();
                assert(waiting.skip(0) =~= waiting);
                assert(requests_view(none@) =~= waiting.take(0));
                none
            },
        };
        self.handle_responses(responses);
        let worked = batch.len() > 0 || responses.len() > 0;
        (batch, worked)
    }

    /// Takes back requests that were released and that the worker did not
    /// take: they wait again, before all that waited, in their order.
    pub fn put_back(&mut self, refused: Vec<LoadIconTaskRequest>)
        requires
            old(self).wf(),
        ensures
            final(self).wf(),
            final(self)@ == (ManagerView {
                queue: requests_view(refused@) + old(self)@.queue,
                ..old(self)@
            }),
            refused@.len() == 0 ==> final(self).loader == old(self).loader,
    {
        let ghost waiting = self@.queue;
        if refused.len() == 0 {
            assert(requests_view(refused@) + waiting =~= waiting);
            return ;
        }
        match &mut self.loader {
            Some(loader) => {
                loader.put_back(refused);
            },
            None => {
                let mut loader = IconLoader::new();
                loader.put_back(refused);
                self.loader = Some(loader);
            },
        }
        assert(self@.queue =~= requests_view(refused@) + waiting);
    }

    /// Throws away the record of an application. Returns the slot that
    /// the record held, whose file is to be deleted.
    pub fn remove_icon(&mut self, app: &AppId) -> (r: Option<usize>)
        requires
            old(self).wf(),
        ensures
            final(self).wf(),
            final(self).loader == old(self).loader,
            final(self)@ == (ManagerView {
                model: old(self)@.model.remove(app@),
                pending: old(self)@.pending.remove(app@),
                ..old(self)@
            }),
            r == if old(self)@.model.dom().contains(app@) {
                old(self)@.model[app@].export_id
            } else {
                None
            },
    {
        self.pending.remove(app);
        match self.model.remove(app) {
            Some(entry) => entry.export_id,
            None => None,
        }
    }

    /// Throws away every record. Returns the slots that the records held,
    /// whose files are to be deleted.
    pub fn clear_icons(&mut self) -> (r: Vec<usize>)
        requires
            old(self).wf(),
        ensures
            final(self).wf(),
            final(self)@ == (ManagerView {
                model: Map::empty(),
                pending: Set::empty(),
                ..old(self)@
            }),
            forall|slot: usize| lists(r@, slot) <==> id_in_use(old(self)@.model, slot),
    {
        let mut slots: Vec<usize> = Vec::new();
        let mut i: usize = 0;
        while i < self.model.values.len()
            invariant
                i <= self.model.values@.len(),
                self.wf(),
                *self == *old(self),
                forall|slot: usize|
                    lists(slots@, slot) <==> exists|j: int|
                        0 <= j < i && (#[trigger] self.model.values@[j]).1.export_id == Some(slot),
            decreases self.model.values.len() - i,
        {
            let ghost before = slots@;
            if let Some(slot) = self.model.values[i].1.export_id {
                slots.push(slot);
                assert forall|other: usize| lists(slots@, other) <==> exists|j: int|
                    0 <= j < i + 1 && (#[trigger] self.model.values@[j]).1.export_id == Some(
                        other,
                    ) by {
                    if lists(slots@, other) {
                        let at = choose|at: int| 0 <= at < slots@.len() && #[trigger] slots@[at] == other;
                        if at < before.len() {
                            assert(before[at] == other);
                            assert(lists(before, other));
                        } else {
                            assert(self.model.values@[i as int].1.export_id == Some(other));
                        }
                    }
                    if exists|j: int|
                        0 <= j < i + 1 && (#[trigger] self.model.values@[j]).1.export_id == Some(
                            other,
                        ) {
                        let j = choose|j: int|
                            0 <= j < i + 1 && (#[trigger] self.model.values@[j]).1.export_id
                                == Some(other);
                        if j < i {
                            assert(lists(before, other));
                            let at = choose|at: int| 0 <= at < before.len() && #[trigger] before[at] == other;
                            assert(slots@[at] == other);
                        } else {
                            assert(slots@[before.len() as int] == other);
                        }
                    }
                }
            } else {
                assert forall|other: usize| lists(slots@, other) <==> exists|j: int|
                    0 <= j < i + 1 && (#[trigger] self.model.values@[j]).1.export_id == Some(
                        other,
                    ) by {
                    if exists|j: int|
                        0 <= j < i + 1 && (#[trigger] self.model.values@[j]).1.export_id == Some(
                            other,
                        ) {
                        let j = choose|j: int|
                            0 <= j < i + 1 && (#[trigger] self.model.values@[j]).1.export_id
                                == Some(other);
                        assert(j < i);
                    }
                }
            }
            i += 1;
        }
        proof {
            assert forall|slot: usize| lists(slots@, slot) <==> id_in_use(old(self)@.model, slot) by {
                if lists(slots@, slot) {
                    let j = choose|j: int|
                        0 <= j < self.model.values@.len() && (#[trigger] self.model.values@[j]).1.export_id
                            == Some(slot);
                    self.model.lemma_entry(j);
                }
                if id_in_use(self@.model, slot) {
                    let k = choose|k: Seq<char>|
                        self@.model.dom().contains(k) && (#[trigger] self@.model[k]).export_id
                            == Some(slot);
                    self.model.lemma_index(k);
                    assert(self.model.values@[self.model.index_of(k)].1.export_id == Some(slot));
                }
            }
        }
        self.model = IconsModel::new();
        self.pending = IdSet::new();
        slots
    }

    /// Throws away the records of the applications that were not seen in
    /// this run. Returns the slots that those records held, whose files
    /// are to be deleted.
    pub fn purge_unseen_icons(&mut self) -> (r: Vec<usize>)
        requires
            old(self).wf(),
        ensures
            final(self).wf(),
            final(self).loader == old(self).loader,
            final(self)@ == purged(old(self)@),
            forall|slot: usize| lists(r@, slot) <==> is_stale_slot(old(self)@, slot),
    {
        let slots = self.model.keep_seen(&self.seen_icons);
        proof {
            assert(self@ == purged(old(self)@));
        }
        slots
    }

    /// Gets the records ready to be written: throws away those of the
    /// applications that were not seen in this run. Returns the slots whose
    /// files are to be deleted.
    pub fn save(&mut self) -> (r: Vec<usize>)
        requires
            old(self).wf(),
        ensures
            final(self).wf(),
            final(self).loader == old(self).loader,
            final(self)@ == purged(old(self)@),
            forall|slot: usize| lists(r@, slot) <==> is_stale_slot(old(self)@, slot),
    {
        self.purge_unseen_icons()
    }

    /// Shuts the manager down. The requests that still wait are answered
    /// as cancelled, then the last responses of the worker are taken in,
    /// then the records are got ready to be written. Returns the responses
    /// for the cancelled requests, and the slots whose files are to be
    /// deleted.
    pub fn finish(&mut self, responses: &Vec<LoadIconTaskResponse>) -> (r: (
        Vec<LoadIconTaskResponse>,
        Vec<usize>,
    ))
        requires
            old(self).wf(),
        ensures
            final(self).wf(),
            final(self).loader is None,
            r.0@ == match old(self).loader {
                Some(loader) => cancelled(loader.queue@),
                None => Seq::empty(),
            },
            r.0@.len() == old(self)@.queue.len(),
            final(self)@ == purged(
                applied_all(
                    applied_all(
                        ManagerView { queue: Seq::empty(), ..old(self)@ },
                        r.0@,
                        r.0@.len(),
                    ),
                    responses@,
                    responses@.len(),
                ),
            ),
            forall|slot: usize|
                lists(r.1@, slot) <==> is_stale_slot(
                    applied_all(
                        applied_all(
                            ManagerView { queue: Seq::empty(), ..old(self)@ },
                            r.0@,
                            r.0@.len(),
                        ),
                        responses@,
                        responses@.len(),
                    ),
                    slot,
                ),
    {
        let mut loader: Option<IconLoader> = None;
        core::mem::swap(&mut loader, &mut self.loader);
        let dropped = match loader {
            Some(mut loader) => loader.finish(),
            None => Vec::new(),
        };
        self.handle_responses(&dropped);
        self.handle_responses(responses);
        let slots = self.save();
        (dropped, slots)
    }
}

/// What is deleted is not in use: where no two records hold the same
/// slot, the slot of a record that is thrown away is held by no record
/// that stays.
pub proof fn lemma_stale_not_kept(s: ManagerView, slot: usize)
    requires
        slots_distinct(s.model),
        is_stale_slot(s, slot),
    ensures
        !id_in_use(purged(s).model, slot),
        slots_distinct(purged(s).model),
{
    let gone = choose|k: Seq<char>|
        s.model.dom().contains(k) && !s.seen.contains(k) && (#[trigger] s.model[k]).export_id
            == Some(slot);
    if id_in_use(purged(s).model, slot) {
        let kept = choose|k: Seq<char>|
            purged(s).model.dom().contains(k) && (#[trigger] purged(s).model[k]).export_id == Some(
                slot,
            );
        assert(s.model.dom().contains(kept) && s.model[kept].export_id == Some(slot));
        assert(s.model[gone].export_id != s.model[kept].export_id);
    }
    assert forall|a: Seq<char>, b: Seq<char>|
        purged(s).model.dom().contains(a) && purged(s).model.dom().contains(b) && a != b && (
        #[trigger] purged(s).model[a]).export_id is Some implies purged(s).model[a].export_id != (
    #[trigger] purged(s).model[b]).export_id by {
        assert(s.model[a].export_id != s.model[b].export_id);
    }
}

/// There is one lowest free slot.
pub proof fn lemma_free_id_unique(model: Map<Seq<char>, IconEntryView>, a: usize, b: usize)
    requires
        is_free_id(model, a),
    ensures
        is_free_id(model, b) ==> a == b,
        free_id(model) == a,
{
    if is_free_id(model, b) {
        if a < b {
            assert(id_in_use(model, a));
        }
        if b < a {
            assert(id_in_use(model, b));
        }
    }
    let c = free_id(model);
    if a < c {
        assert(id_in_use(model, a));
    }
    if c < a {
        assert(id_in_use(model, c));
    }
}

/// Asking twice changes nothing more than asking once: an application that
/// asks for its icon again, with the same source, is not given a second
/// slot and no second request joins the queue.
pub proof fn lemma_prepare_twice(s: ManagerView, id: Seq<char>, name: Seq<char>, icon: Option<Seq<char>>)
    ensures
        prepared(prepared(s, id, name, icon), id, name, icon) == prepared(s, id, name, icon),
        prepared(prepared(s, id, name, icon), id, name, icon).queue == prepared(
            s,
            id,
            name,
            icon,
        ).queue,
        icon matches Some(source) && s.model.dom().contains(id) && s.model[id].source_location
            == source ==> {
            &&& prepared(s, id, name, icon).queue == s.queue
            &&& prepared(s, id, name, icon).model == s.model
            &&& prepared(s, id, name, icon).to_load == s.to_load
            &&& prepared(s, id, name, icon).pending == s.pending
        },
{
    let once = prepared(s, id, name, icon);
    let twice = prepared(once, id, name, icon);
    if icon is Some {
        assert(once.model.dom().contains(id) && once.model[id].source_location == icon->0);
        assert(twice.seen =~= once.seen);
    }
}

/// After the records of the applications that were not seen have been
/// thrown away, no such record is left, every record of an application
/// that was seen is as it was, and the slots to delete are those that the
/// thrown records held.
pub proof fn lemma_purged(s: ManagerView, key: Seq<char>)
    ensures
        !s.seen.contains(key) ==> !purged(s).model.dom().contains(key),
        s.seen.contains(key) && s.model.dom().contains(key) ==> purged(s).model.dom().contains(key)
            && purged(s).model[key] == s.model[key],
        s.model.dom().contains(key) && !s.seen.contains(key) && s.model[key].export_id is Some
            ==> is_stale_slot(s, s.model[key].export_id->0),
{
}

/// No response touches the record of an application that was not seen:
/// where every application that waits for a render was seen, the record
/// is after the responses what it was before them.
pub proof fn lemma_unseen_untouched(
    s: ManagerView,
    responses: Seq<LoadIconTaskResponse>,
    n: nat,
    key: Seq<char>,
)
    requires
        n <= responses.len(),
        s.pending.subset_of(s.seen),
        !s.seen.contains(key),
    ensures
        applied_all(s, responses, n).pending.subset_of(s.seen),
        applied_all(s, responses, n).seen == s.seen,
        applied_all(s, responses, n).model.dom().contains(key) == s.model.dom().contains(key),
        s.model.dom().contains(key) ==> applied_all(s, responses, n).model[key] == s.model[key],
    decreases n,
{
    if n > 0 {
        lemma_unseen_untouched(s, responses, (n - 1) as nat, key);
    }
}

/// A shutdown collects the garbage: the record of an application that was
/// not seen is gone after it, whatever responses came in, and the slot
/// that the record held is among those to delete.
pub proof fn lemma_finish_collects(
    s: ManagerView,
    dropped: Seq<LoadIconTaskResponse>,
    responses: Seq<LoadIconTaskResponse>,
    key: Seq<char>,
)
    requires
        s.pending.subset_of(s.seen),
        s.model.dom().contains(key),
        !s.seen.contains(key),
    ensures
        !purged(
            applied_all(applied_all(s, dropped, dropped.len()), responses, responses.len()),
        ).model.dom().contains(key),
        s.model[key].export_id matches Some(slot) ==> is_stale_slot(
            applied_all(applied_all(s, dropped, dropped.len()), responses, responses.len()),
            slot,
        ),
{
    let first = applied_all(s, dropped, dropped.len());
    lemma_unseen_untouched(s, dropped, dropped.len(), key);
    lemma_unseen_untouched(first, responses, responses.len(), key);
    let last = applied_all(first, responses, responses.len());
    assert(last.model.dom().contains(key) && !last.seen.contains(key));
    assert(last.model[key] == s.model[key]);
}

/// Every response that comes in counts as finished work, as far as the
/// count goes, and none touches the queue, the count of renders asked for,
/// or what was seen.
pub proof fn lemma_applied_counts(s: ManagerView, responses: Seq<LoadIconTaskResponse>, n: nat)
    requires
        n <= responses.len(),
    ensures
        s.to_load_finished + n <= usize::MAX ==> applied_all(s, responses, n).to_load_finished
            == s.to_load_finished + n,
        applied_all(s, responses, n).to_load == s.to_load,
        applied_all(s, responses, n).queue == s.queue,
        applied_all(s, responses, n).seen == s.seen,
        applied_all(s, responses, n).dir == s.dir,
    decreases n,
{
    if n > 0 {
        lemma_applied_counts(s, responses, (n - 1) as nat);
    }
}

/// A shutdown loses no request: each request that still waits is answered
/// as cancelled, in the order of the queue, and each of these answers
/// counts as finished work, as far as the count goes.
pub proof fn lemma_cancel_counts(s: ManagerView, queue: Seq<LoadIconTaskRequest>)
    ensures
        cancelled(queue).len() == queue.len(),
        forall|i: int|
            0 <= i < queue.len() ==> #[trigger] cancelled(queue)[i] == LoadIconTaskResponse::Fail(
                LoadFailure::Cancelled,
                queue[i].location,
            ),
        s.to_load_finished + queue.len() <= usize::MAX ==> applied_all(
            s,
            cancelled(queue),
            queue.len(),
        ).to_load_finished == s.to_load_finished + queue.len(),
{
    lemma_applied_counts(s, cancelled(queue), queue.len());
}

} // verus!
