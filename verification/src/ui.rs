//! What the result list of the launcher tells its owner.

use crate::apps::AppId;
use vstd::prelude::*;

verus! {

/// What happened to an entry of the result list.
#[derive(PartialEq, Eq, Debug)]
pub enum ResultsEvent {
    /// The pointer is over the entry of this application.
    Hovered(AppId),
    /// The entry of this application was pressed.
    Pressed(AppId),
}

/// The position in the result list that a pointer over the entry of the
/// application `id` selects: that of the first entry of the application.
pub open spec fn hovered_position(entries: Seq<AppId>, id: Seq<char>, from: int) -> int
    decreases entries.len() - from,
{
    if from < 0 || from >= entries.len() {
        entries.len() as int
    } else if entries[from]@ == id {
        from
    } else {
        hovered_position(entries, id, from + 1)
    }
}

impl ResultsEvent {
    /// The selection after the event: a pointer over an entry selects it,
    /// unless the pointer is locked or the application is not in the list;
    /// a press leaves the selection as it is.
    pub fn selection(&self, entries: &Vec<AppId>, mouse_locked: bool, selected: Option<usize>) -> (r: Option<
        usize,
    >)
        ensures
            r == match self {
                ResultsEvent::Hovered(id) => if !mouse_locked && hovered_position(entries@, id@, 0)
                    < entries@.len() {
                    Some(hovered_position(entries@, id@, 0) as usize)
                } else {
                    selected
                },
                ResultsEvent::Pressed(_) => selected,
            },
    {
        match self {
            ResultsEvent::Hovered(id) => {
                if mouse_locked {
                    return selected;
                }
                let mut i: usize = 0;
                while i < entries.len()
                    invariant
                        i <= entries.len(),
                        !mouse_locked,
                        *self == ResultsEvent::Hovered(*id),
                        hovered_position(entries@, id@, 0) == hovered_position(
                            entries@,
                            id@,
                            i as int,
                        ),
                    decreases entries.len() - i,
                {
                    if entries[i].same(id) {
                        return Some(i);
                    }
                    i += 1;
                }
                selected
            },
            ResultsEvent::Pressed(_) => selected,
        }
    }
}

} // verus!
