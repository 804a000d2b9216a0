//! The icon cache in its plain form: one icon is rendered at a time, by
//! the caller, while the application that asked for it waits.

use crate::apps::AppId;
use crate::idset::IdSet;
use crate::manager::{free_id, lemma_free_id_unique, slot_path};
use crate::model::{is_unseen_slot, lists, IconEntryModel, IconEntryView, IconsModel};
use crate::path::join;
use crate::shortcuts::ShortcutId;
use vstd::prelude::*;

verus! {

/// Finds and keeps the icons of the shortcuts.
#[derive(Debug)]
pub struct IconManager {
    /// The directory of the cache files.
    pub icon_image_dir: String,
    pub model: IconsModel,
    /// The shortcuts that asked for their icon in this run.
    pub seen_icons: IdSet,
}

impl IconManager {
    /// A manager over the cache files in `icon_image_dir`, with the
    /// records of the run before.
    pub fn new(icon_image_dir: String, model: IconsModel) -> (r: IconManager)
        requires
            model.wf(),
        ensures
            r.model.wf(),
            r.model@ == model@,
            r.icon_image_dir == icon_image_dir,
            r.seen_icons@ == Set::<Seq<char>>::empty(),
    {
        IconManager { icon_image_dir, model, seen_icons: IdSet::new() }
    }

    /// The path of the cache file of a slot.
    pub fn icon_path(&self, id: usize) -> (r: String)
        ensures
            r@ == slot_path(self.icon_image_dir@, id),
    {
        let mut name = String::new();
        crate::descriptor::push_decimal(&mut name, id as u64);
        name.append(".png");
        join(self.icon_image_dir.as_str(), name.as_str())
    }

    /// The cache file of the icon of a shortcut, if its record holds a
    /// slot.
    pub fn read_icon(&self, id: &ShortcutId) -> (r: Option<String>)
        requires
            self.model.wf(),
        ensures
            match r {
                Some(path) => {
                    &&& self.model@.dom().contains(id@)
                    &&& self.model@[id@].export_id matches Some(slot)
                    &&& path@ == slot_path(self.icon_image_dir@, slot)
                },
                None => !self.model@.dom().contains(id@) || self.model@[id@].export_id is None,
            },
    {
        let key = AppId(id.0.clone());
        match self.model.get(&key) {
            Some(entry) => match entry.export_id {
                Some(slot) => Some(self.icon_path(slot)),
                None => None,
            },
            None => None,
        }
    }

    /// Takes note that a shortcut asks for its icon. Returns whether the
    /// icon is to be rendered: it is unless the shortcut has no icon
    /// source or the source is the one on record.
    pub fn prepare_icon(&mut self, id: &ShortcutId, icon: Option<&str>) -> (r: bool)
        requires
            old(self).model.wf(),
        ensures
            final(self).model == old(self).model,
            final(self).icon_image_dir == old(self).icon_image_dir,
            final(self).seen_icons@ == if icon is Some {
                old(self).seen_icons@.insert(id@)
            } else {
                old(self).seen_icons@
            },
            r == match icon {
                Some(source) => !(old(self).model@.dom().contains(id@)
                    && old(self).model@[id@].source_location == source@),
                None => false,
            },
    {
        let source = match icon {
            Some(source) => source,
            None => {
                return false;
            },
        };
        let key = AppId(id.0.clone());
        self.seen_icons.insert(key.clone());
        match self.model.get(&key) {
            Some(entry) => {
                let wanted: String = source.to_owned();
                entry.source_location != wanted
            },
            None => true,
        }
    }

    /// The slot for the next rendered icon: the lowest that no record
    /// holds.
    pub fn free_slot(&self) -> (r: usize)
        requires
            self.model.wf(),
        ensures
            r == free_id(self.model@),
            crate::model::is_free_id(self.model@, r),
    {
        let slot = self.model.find_free_id();
        proof {
            lemma_free_id_unique(self.model@, slot, slot);
        }
        slot
    }

    /// Puts on record how the render of the icon of a shortcut ended. A
    /// render that went well gives the shortcut the lowest free slot, which
    /// is returned; one that failed leaves it without a slot. Either way
    /// the source is on record from now on.
    pub fn rendered(&mut self, id: &ShortcutId, source: String, ok: bool) -> (r: Option<usize>)
        requires
            old(self).model.wf(),
        ensures
            final(self).model.wf(),
            r == if ok {
                Some(free_id(old(self).model@))
            } else {
                None
            },
            final(self).model@ == old(self).model@.insert(
                id@,
                IconEntryView { source_location: source@, export_id: r },
            ),
            final(self).seen_icons == old(self).seen_icons,
            final(self).icon_image_dir == old(self).icon_image_dir,
    {
        let export_id = if ok {
            Some(self.free_slot())
        } else {
            None
        };
        self.model.insert(AppId(id.0.clone()), IconEntryModel { source_location: source, export_id });
        export_id
    }

    /// Gets the records ready to be written: throws away the record of
    /// every shortcut that was not seen in this run. Returns the slots that
    /// those records held, whose files are to be deleted.
    pub fn save(&mut self) -> (r: Vec<usize>)
        requires
            old(self).model.wf(),
        ensures
            final(self).model.wf(),
            final(self).seen_icons == old(self).seen_icons,
            final(self).icon_image_dir == old(self).icon_image_dir,
            final(self).model@ == old(self).model@.restrict(old(self).seen_icons@),
            forall|slot: usize|
                lists(r@, slot) <==> is_unseen_slot(old(self).model@, old(self).seen_icons@, slot),
    {
        self.model.keep_seen(&self.seen_icons)
    }
}

} // verus!
