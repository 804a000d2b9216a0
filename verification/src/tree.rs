//! An in-memory mirror of a directory tree that fills in step by step.
//!
//! A directory starts out unresolved: its path and name are known, its
//! entries are not. The caller lists the directory on disk and hands the
//! listing over; from then on the entries are part of the mirror and are
//! never read again.

use crate::path::{
    entry_name, file_name, file_name_spec, is_entry_name, join, join_spec,
    lemma_file_name_of_join,
};
use vstd::prelude::*;

verus! {

/// What a directory listing says an entry is.
#[derive(Copy, Clone, PartialEq, Eq, Debug, Structural)]
pub enum EntryKind {
    Directory,
    File,
    /// Neither a regular file nor a directory.
    Other,
    /// The entry could not be read.
    Unreadable,
}

/// One line of a directory listing: the name of the entry and its kind.
#[derive(PartialEq, Eq, Debug)]
pub struct ListedEntry {
    pub name: String,
    pub kind: EntryKind,
}

impl Clone for ListedEntry {
    fn clone(&self) -> (r: Self)
        ensures
            r == *self,
    {
        ListedEntry { name: self.name.clone(), kind: self.kind }
    }
}

pub struct ListedView {
    pub name: Seq<char>,
    pub kind: EntryKind,
}

impl View for ListedEntry {
    type V = ListedView;

    open spec fn view(&self) -> ListedView {
        ListedView { name: self.name@, kind: self.kind }
    }
}

/// A directory of the mirror.
#[derive(Debug)]
pub struct CachedDir {
    pub path: String,
    pub name: String,
    /// `None` until the directory has been listed.
    pub entries: Option<Vec<CachedDirEntry>>,
}

/// An entry of a listed directory.
#[derive(Debug)]
pub enum CachedDirEntry {
    /// A regular file, by its name.
    File(String),
    Directory(Box<CachedDir>),
}

/// The mathematical content of a `CachedDir`.
pub struct DirView {
    pub path: Seq<char>,
    pub name: Seq<char>,
    pub entries: Option<Seq<EntryView>>,
}

/// The mathematical content of a `CachedDirEntry`.
pub enum EntryView {
    File(Seq<char>),
    Directory(Box<DirView>),
}

pub open spec fn dir_view(d: CachedDir) -> DirView
    decreases d,
{
    DirView {
        path: d.path@,
        name: d.name@,
        entries: match d.entries {
            None => None,
            Some(es) => Some(
                Seq::new(
                    es@.len(),
                    |i: int|
                        if 0 <= i < es@.len() {
                            entry_view(es@[i])
                        } else {
                            arbitrary()
                        },
                ),
            ),
        },
    }
}

pub open spec fn entry_view(e: CachedDirEntry) -> EntryView
    decreases e,
{
    match e {
        CachedDirEntry::File(f) => EntryView::File(f@),
        CachedDirEntry::Directory(d) => EntryView::Directory(Box::new(dir_view(*d))),
    }
}

pub open spec fn entries_view(es: Seq<CachedDirEntry>) -> Seq<EntryView> {
    Seq::new(es.len(), |i: int| entry_view(es[i]))
}

pub open spec fn listing_view(listing: Seq<ListedEntry>) -> Seq<ListedView> {
    Seq::new(listing.len(), |i: int| listing[i]@)
}

impl View for CachedDir {
    type V = DirView;

    open spec fn view(&self) -> DirView {
        dir_view(*self)
    }
}

impl View for CachedDirEntry {
    type V = EntryView;

    open spec fn view(&self) -> EntryView {
        entry_view(*self)
    }
}

/// The unresolved directory at `path`, named by the final component of the
/// path. A path without a final component stands for no directory.
pub open spec fn visited(path: Seq<char>) -> Option<DirView> {
    match file_name_spec(path) {
        Some(name) => Some(DirView { path, name, entries: None }),
        None => None,
    }
}

/// The entry that a listed path of the given kind becomes. What is neither
/// a file nor a directory is dropped, and so are an entry that could not
/// be read and a path without a name.
pub open spec fn visited_entry(path: Seq<char>, kind: EntryKind) -> Option<EntryView> {
    match kind {
        EntryKind::Other => None,
        EntryKind::Unreadable => None,
        EntryKind::Directory => match visited(path) {
            Some(d) => Some(EntryView::Directory(Box::new(d))),
            None => None,
        },
        EntryKind::File => match file_name_spec(path) {
            Some(name) => Some(EntryView::File(name)),
            None => None,
        },
    }
}

/// The entry that a line of a listing of the directory at `dir_path`
/// becomes. A line whose name cannot stand for an entry is dropped, and
/// so is the line of an entry that could not be read.
pub open spec fn listed_entry(dir_path: Seq<char>, line: ListedView) -> Option<EntryView> {
    if is_entry_name(line.name) {
        visited_entry(join_spec(dir_path, line.name), line.kind)
    } else {
        None
    }
}

/// One of the first `n` lines of the listing has the name `name`.
pub open spec fn named_before(listing: Seq<ListedView>, n: int, name: Seq<char>) -> bool {
    exists|j: int| 0 <= j < n && j < listing.len() && (#[trigger] listing[j]).name == name
}

/// The entries that the first `n` lines of a listing of the directory at
/// `dir_path` become, in the order of the listing. Of two lines with one
/// name the first counts and the second is dropped.
pub open spec fn listed_entries(dir_path: Seq<char>, listing: Seq<ListedView>, n: nat) -> Seq<
    EntryView,
>
    decreases n,
{
    if n == 0 || n > listing.len() {
        Seq::empty()
    } else {
        let rest = listed_entries(dir_path, listing, (n - 1) as nat);
        if named_before(listing, n - 1, listing[n - 1].name) {
            rest
        } else {
            match listed_entry(dir_path, listing[n - 1]) {
                Some(e) => rest.push(e),
                None => rest,
            }
        }
    }
}

/// The name of an entry in its directory.
pub open spec fn name_of(e: EntryView) -> Seq<char> {
    match e {
        EntryView::File(f) => f,
        EntryView::Directory(d) => d.name,
    }
}

/// No two of the entries have the same name.
pub open spec fn names_distinct(es: Seq<EntryView>) -> bool {
    forall|i: int, j: int|
        0 <= i < j < es.len() ==> name_of(#[trigger] es[i]) != name_of(#[trigger] es[j])
}

/// The names of the files among the first `n` entries, in order.
pub open spec fn file_names(es: Seq<EntryView>, n: nat) -> Seq<Seq<char>>
    decreases n,
{
    if n == 0 || n > es.len() {
        Seq::empty()
    } else {
        let rest = file_names(es, (n - 1) as nat);
        match es[n - 1] {
            EntryView::File(f) => rest.push(f),
            EntryView::Directory(_) => rest,
        }
    }
}

/// The directories among the first `n` entries, in order.
pub open spec fn sub_dirs(es: Seq<EntryView>, n: nat) -> Seq<DirView>
    decreases n,
{
    if n == 0 || n > es.len() {
        Seq::empty()
    } else {
        let rest = sub_dirs(es, (n - 1) as nat);
        match es[n - 1] {
            EntryView::File(_) => rest,
            EntryView::Directory(d) => rest.push(*d),
        }
    }
}

/// The first directory called `name` among the entries at `from` and later.
pub open spec fn subdirectory(es: Seq<EntryView>, name: Seq<char>, from: int) -> Option<DirView>
    decreases es.len() - from,
{
    if from < 0 || from >= es.len() {
        None
    } else {
        match es[from] {
            EntryView::Directory(d) if d.name == name => Some(*d),
            _ => subdirectory(es, name, from + 1),
        }
    }
}

/// The directory after a listing of it has come in: an unresolved
/// directory takes the entries of the listing, a resolved one stays as it
/// is.
pub open spec fn resolved(dir: DirView, listing: Seq<ListedView>) -> DirView {
    match dir.entries {
        None => DirView {
            entries: Some(listed_entries(dir.path, listing, listing.len())),
            ..dir
        },
        Some(_) => dir,
    }
}

/// The tree after a listing of the directory at `path` has come in: every
/// unresolved directory of the tree with that path is resolved by it, and
/// nothing else changes.
pub open spec fn supplied(dir: DirView, path: Seq<char>, listing: Seq<ListedView>) -> DirView
    decreases dir, 0nat,
{
    match dir.entries {
        None => if dir.path == path {
            resolved(dir, listing)
        } else {
            dir
        },
        Some(es) => DirView {
            entries: Some(
                Seq::new(
                    es.len(),
                    |i: int|
                        if 0 <= i < es.len() {
                            supplied_entry(es[i], path, listing)
                        } else {
                            arbitrary()
                        },
                ),
            ),
            ..dir
        },
    }
}

pub open spec fn supplied_entry(e: EntryView, path: Seq<char>, listing: Seq<ListedView>) -> EntryView
    decreases e, 1nat,
{
    match e {
        EntryView::File(f) => EntryView::File(f),
        EntryView::Directory(d) => EntryView::Directory(Box::new(supplied(*d, path, listing))),
    }
}

/// An entry fits its directory: the name of a file holds no separator;
/// a directory is named by a name without separator, lies at the path of
/// its name in the directory above, and is well formed itself.
pub open spec fn entry_wf(e: EntryView, parent: Seq<char>) -> bool
    decreases e, 1nat,
{
    match e {
        EntryView::File(f) => is_entry_name(f),
        EntryView::Directory(d) => is_entry_name(d.name) && d.path == join_spec(parent, d.name)
            && dir_wf(*d),
    }
}

/// The first `n` entries fit the directory at `parent`.
pub open spec fn entries_wf(es: Seq<EntryView>, n: nat, parent: Seq<char>) -> bool
    decreases es, n,
{
    if n == 0 || n > es.len() {
        true
    } else {
        entries_wf(es, (n - 1) as nat, parent) && entry_wf(es[n - 1], parent)
    }
}

/// A directory of the mirror is well formed: every entry fits it and no
/// two entries have the same name, all the way down. A mirror that is
/// made by `visit` and filled by `resolve` and `supplied` is well formed.
pub open spec fn dir_wf(dir: DirView) -> bool
    decreases dir, 0nat,
{
    match dir.entries {
        None => true,
        Some(es) => entries_wf(es, es.len(), dir.path) && names_distinct(es),
    }
}

/// Each of the first `n` entries fits the directory.
pub proof fn lemma_entries_wf_at(es: Seq<EntryView>, n: nat, parent: Seq<char>, i: int)
    requires
        n <= es.len(),
        entries_wf(es, n, parent),
        0 <= i < n,
    ensures
        entry_wf(es[i], parent),
    decreases n,
{
    if i < n - 1 {
        lemma_entries_wf_at(es, (n - 1) as nat, parent, i);
    }
}

/// Entries that fit one by one fit together.
pub proof fn lemma_entries_wf_all(es: Seq<EntryView>, n: nat, parent: Seq<char>)
    requires
        n <= es.len(),
        forall|i: int| 0 <= i < n ==> entry_wf(#[trigger] es[i], parent),
    ensures
        entries_wf(es, n, parent),
    decreases n,
{
    if n > 0 {
        lemma_entries_wf_all(es, (n - 1) as nat, parent);
    }
}

/// The entries of a listing fit the directory that was listed, and each
/// has the name of one of the lines.
pub proof fn lemma_listed_wf(dir_path: Seq<char>, listing: Seq<ListedView>, n: nat, i: int)
    requires
        n <= listing.len(),
        0 <= i < listed_entries(dir_path, listing, n).len(),
    ensures
        entry_wf(listed_entries(dir_path, listing, n)[i], dir_path),
        named_before(listing, n as int, name_of(listed_entries(dir_path, listing, n)[i])),
    decreases n,
{
    if n > 0 {
        let rest = listed_entries(dir_path, listing, (n - 1) as nat);
        if i < rest.len() {
            lemma_listed_wf(dir_path, listing, (n - 1) as nat, i);
            let name = name_of(rest[i]);
            let j = choose|j: int|
                0 <= j < n - 1 && j < listing.len() && (#[trigger] listing[j]).name == name;
            assert(listing[j].name == name);
        } else {
            lemma_file_name_of_join(dir_path, listing[n - 1].name);
            assert(listing[n - 1].name == name_of(listed_entries(dir_path, listing, n)[i]));
        }
    }
}

/// No two entries of a listing have the same name.
pub proof fn lemma_listed_names(dir_path: Seq<char>, listing: Seq<ListedView>, n: nat)
    requires
        n <= listing.len(),
    ensures
        names_distinct(listed_entries(dir_path, listing, n)),
    decreases n,
{
    if n > 0 {
        lemma_listed_names(dir_path, listing, (n - 1) as nat);
        let rest = listed_entries(dir_path, listing, (n - 1) as nat);
        let all = listed_entries(dir_path, listing, n);
        if all.len() > rest.len() {
            lemma_file_name_of_join(dir_path, listing[n - 1].name);
            assert forall|i: int, j: int| 0 <= i < j < all.len() implies name_of(
                #[trigger] all[i],
            ) != name_of(#[trigger] all[j]) by {
                if j < rest.len() {
                    assert(name_of(rest[i]) != name_of(rest[j]));
                } else {
                    lemma_listed_wf(dir_path, listing, (n - 1) as nat, i);
                }
            }
        }
    }
}

/// A listing keeps a directory well formed.
pub proof fn lemma_resolved_wf(dir: DirView, listing: Seq<ListedView>)
    requires
        dir_wf(dir),
    ensures
        dir_wf(resolved(dir, listing)),
{
    if dir.entries is None {
        let es = listed_entries(dir.path, listing, listing.len());
        assert forall|i: int| 0 <= i < es.len() implies entry_wf(#[trigger] es[i], dir.path) by {
            lemma_listed_wf(dir.path, listing, listing.len(), i);
        }
        lemma_entries_wf_all(es, es.len(), dir.path);
        lemma_listed_names(dir.path, listing, listing.len());
    }
}

/// A listing that comes in for some path keeps a tree well formed.
pub proof fn lemma_supplied_wf(dir: DirView, path: Seq<char>, listing: Seq<ListedView>)
    requires
        dir_wf(dir),
    ensures
        dir_wf(supplied(dir, path, listing)),
        supplied(dir, path, listing).path == dir.path,
        supplied(dir, path, listing).name == dir.name,
    decreases dir,
{
    match dir.entries {
        None => {
            lemma_resolved_wf(dir, listing);
        },
        Some(es) => {
            let after = supplied(dir, path, listing).entries->0;
            assert forall|i: int| 0 <= i < after.len() implies entry_wf(
                #[trigger] after[i],
                dir.path,
            ) && name_of(after[i]) == name_of(es[i]) by {
                lemma_entries_wf_at(es, es.len(), dir.path, i);
                assert(after[i] == supplied_entry(es[i], path, listing));
                match es[i] {
                    EntryView::Directory(d) => {
                        lemma_supplied_wf(*d, path, listing);
                    },
                    EntryView::File(_) => {},
                }
            }
            lemma_entries_wf_all(after, after.len(), dir.path);
            assert forall|i: int, j: int| 0 <= i < j < after.len() implies name_of(
                #[trigger] after[i],
            ) != name_of(#[trigger] after[j]) by {
                assert(name_of(es[i]) != name_of(es[j]));
            }
        },
    }
}

impl CachedDirEntry {
    /// The entry for a listed path of the given kind, if it is a file or a
    /// directory with a name.
    pub fn visit(path: &str, kind: EntryKind) -> (r: Option<CachedDirEntry>)
        ensures
            match visited_entry(path@, kind) {
                Some(e) => r matches Some(entry) && entry@ == e,
                None => r is None,
            },
    {
        match kind {
            EntryKind::Other => None,
            EntryKind::Unreadable => None,
            EntryKind::Directory => match CachedDir::visit(path) {
                Some(d) => Some(CachedDirEntry::Directory(Box::new(d))),
                None => None,
            },
            EntryKind::File => match file_name(path) {
                Some(name) => Some(CachedDirEntry::File(name)),
                None => None,
            },
        }
    }
}

impl CachedDir {
    /// The unresolved directory at `path`.
    pub fn visit(path: &str) -> (r: Option<CachedDir>)
        ensures
            match visited(path@) {
                Some(d) => r matches Some(dir) && dir@ == d && dir_wf(dir@),
                None => r is None,
            },
    {
        match file_name(path) {
            Some(name) => Some(CachedDir { path: path.to_owned(), name, entries: None }),
            None => None,
        }
    }

    /// The entries that a listing of the directory at `dir_path` stands for.
    pub fn resolve_entries(dir_path: &str, listing: &Vec<ListedEntry>) -> (r: Vec<CachedDirEntry>)
        ensures
            entries_view(r@) == listed_entries(
                dir_path@,
                listing_view(listing@),
                listing@.len(),
            ),
    {
        let mut out: Vec<CachedDirEntry> = Vec::new();
        let mut i: usize = 0;
        assert(entries_view(out@) =~= Seq::<EntryView>::empty());
        while i < listing.len()
            invariant
                i <= listing.len(),
                entries_view(out@) == listed_entries(dir_path@, listing_view(listing@), i as nat),
            decreases listing.len() - i,
        {
            let line = &listing[i];
            assert(listing_view(listing@)[i as int] == line@);
            let ghost before = out@;
            if !CachedDir::listed_before(listing, i) && entry_name(line.name.as_str()) {
                let path = join(dir_path, line.name.as_str());
                match CachedDirEntry::visit(path.as_str(), line.kind) {
                    Some(entry) => {
                        out.push(entry);
                        assert(entries_view(out@) =~= entries_view(before).push(entry@));
                    },
                    None => {},
                }
            }
            i += 1;
        }
        out
    }

    /// Whether a line before the one at `at` has the same name.
    pub fn listed_before(listing: &Vec<ListedEntry>, at: usize) -> (r: bool)
        requires
            at < listing@.len(),
        ensures
            r == named_before(listing_view(listing@), at as int, listing@[at as int].name@),
    {
        let ghost lines = listing_view(listing@);
        let ghost name = listing@[at as int].name@;
        let mut j: usize = 0;
        while j < at
            invariant
                j <= at < listing@.len(),
                lines == listing_view(listing@),
                name == listing@[at as int].name@,
                !named_before(lines, j as int, name),
            decreases at - j,
        {
            if listing[j].name == listing[at].name {
                assert(lines[j as int].name == name);
                return true;
            }
            proof {
                assert forall|k: int| 0 <= k < j + 1 && k < lines.len() implies (
                #[trigger] lines[k]).name != name by {
                    if k < j {
                        assert(!named_before(lines, j as int, name));
                    }
                }
            }
            j += 1;
        }
        false
    }

    /// Whether the directory has been listed.
    pub fn is_resolved(&self) -> (r: bool)
        ensures
            r == self@.entries.is_some(),
    {
        self.entries.is_some()
    }

    /// Takes in a listing of this directory. The first listing stays: a
    /// directory that is already resolved ignores any later one.
    pub fn resolve(&mut self, listing: &Vec<ListedEntry>)
        ensures
            final(self)@ == resolved(old(self)@, listing_view(listing@)),
            dir_wf(old(self)@) ==> dir_wf(final(self)@),
    {
        proof {
            if dir_wf(self@) {
                lemma_resolved_wf(self@, listing_view(listing@));
            }
        }
        if self.entries.is_none() {
            let entries = CachedDir::resolve_entries(self.path.as_str(), listing);
            assert(dir_view(
                CachedDir { path: self.path, name: self.name, entries: Some(entries) },
            ).entries->0 =~= entries_view(entries@));
            self.entries = Some(entries);
        }
    }

    /// The entries of the directory, once it has been listed.
    pub fn entries(&self) -> (r: Option<&Vec<CachedDirEntry>>)
        ensures
            match r {
                Some(es) => self.entries == Some(*es),
                None => self.entries is None,
            },
    {
        match &self.entries {
            Some(es) => Some(es),
            None => None,
        }
    }

    /// The names of the files in the directory, in listing order; none
    /// while it is unresolved.
    pub fn files(&self) -> (r: Vec<&String>)
        ensures
            Seq::new(r@.len(), |i: int| r@[i]@) == match self@.entries {
                Some(es) => file_names(es, es.len()),
                None => Seq::empty(),
            },
    {
        let mut out: Vec<&String> = Vec::new();
        match &self.entries {
            None => {
                assert(Seq::new(out@.len(), |i: int| out@[i]@) =~= Seq::<Seq<char>>::empty());
            },
            Some(es) => {
                let ghost model = self@.entries->0;
                assert(model =~= entries_view(es@));
                let mut i: usize = 0;
                assert(Seq::new(out@.len(), |i: int| out@[i]@) =~= Seq::<Seq<char>>::empty());
                while i < es.len()
                    invariant
                        i <= es.len(),
                        model == entries_view(es@),
                        Seq::new(out@.len(), |i: int| out@[i]@) == file_names(model, i as nat),
                    decreases es.len() - i,
                {
                    let ghost before = out@;
                    match &es[i] {
                        CachedDirEntry::File(f) => {
                            out.push(f);
                            assert(Seq::new(out@.len(), |i: int| out@[i]@) =~= Seq::new(
                                before.len(),
                                |i: int| before[i]@,
                            ).push(f@));
                        },
                        CachedDirEntry::Directory(_) => {},
                    }
                    i += 1;
                }
            },
        }
        out
    }

    /// The directories in the directory, in listing order; none while it
    /// is unresolved.
    pub fn dirs(&self) -> (r: Vec<&CachedDir>)
        ensures
            Seq::new(r@.len(), |i: int| r@[i]@) == match self@.entries {
                Some(es) => sub_dirs(es, es.len()),
                None => Seq::empty(),
            },
    {
        let mut out: Vec<&CachedDir> = Vec::new();
        match &self.entries {
            None => {
                assert(Seq::new(out@.len(), |i: int| out@[i]@) =~= Seq::<DirView>::empty());
            },
            Some(es) => {
                let ghost model = self@.entries->0;
                assert(model =~= entries_view(es@));
                let mut i: usize = 0;
                assert(Seq::new(out@.len(), |i: int| out@[i]@) =~= Seq::<DirView>::empty());
                while i < es.len()
                    invariant
                        i <= es.len(),
                        model == entries_view(es@),
                        Seq::new(out@.len(), |i: int| out@[i]@) == sub_dirs(model, i as nat),
                    decreases es.len() - i,
                {
                    let ghost before = out@;
                    match &es[i] {
                        CachedDirEntry::File(_) => {},
                        CachedDirEntry::Directory(d) => {
                            out.push(&**d);
                            assert(Seq::new(out@.len(), |i: int| out@[i]@) =~= Seq::new(
                                before.len(),
                                |i: int| before[i]@,
                            ).push(d@));
                        },
                    }
                    i += 1;
                }
            },
        }
        out
    }

    /// The first directory called `name` in this directory; none while it
    /// is unresolved.
    pub fn join(&self, name: &str) -> (r: Option<&CachedDir>)
        ensures
            match self@.entries {
                Some(es) => match subdirectory(es, name@, 0) {
                    Some(d) => r matches Some(dir) && dir@ == d,
                    None => r is None,
                },
                None => r is None,
            },
    {
        match &self.entries {
            None => None,
            Some(es) => {
                let ghost model = self@.entries->0;
                assert(model =~= entries_view(es@));
                let wanted: String = name.to_owned();
                let mut i: usize = 0;
                while i < es.len()
                    invariant
                        i <= es.len(),
                        wanted@ == name@,
                        model == entries_view(es@),
                        self@.entries == Some(model),
                        subdirectory(model, name@, 0) == subdirectory(model, name@, i as int),
                    decreases es.len() - i,
                {
                    match &es[i] {
                        CachedDirEntry::Directory(d) => {
                            if d.name == wanted {
                                return Some(&**d);
                            }
                        },
                        CachedDirEntry::File(_) => {},
                    }
                    i += 1;
                }
                None
            },
        }
    }

    /// The tree after a listing of the directory at `path` has come in.
    pub fn supplied(self, path: &str, listing: &Vec<ListedEntry>) -> (r: CachedDir)
        ensures
            r@ == supplied(self@, path@, listing_view(listing@)),
            dir_wf(self@) ==> dir_wf(r@),
        decreases self,
    {
        proof {
            if dir_wf(self@) {
                lemma_supplied_wf(self@, path@, listing_view(listing@));
            }
        }
        let ghost before = self@;
        let CachedDir { path: own_path, name, entries } = self;
        match entries {
            None => {
                let wanted: String = path.to_owned();
                let same = own_path == wanted;
                let mut dir = CachedDir { path: own_path, name, entries: None };
                if same {
                    dir.resolve(listing);
                }
                dir
            },
            Some(es) => {
                let ghost all = es@;
                let ghost wanted = supplied(before, path@, listing_view(listing@)).entries->0;
                let mut out: Vec<CachedDirEntry> = Vec::new();
                for e in it: es
                    invariant
                        it.seq() == all,
                        self.entries == Some(es),
                        before == dir_view(self),
                        wanted == supplied(before, path@, listing_view(listing@)).entries->0,
                        out@.len() == it.index(),
                        forall|j: int| 0 <= j < out@.len() ==> (#[trigger] out@[j])@ == wanted[j],
                {
                    let ghost idx = it.index();
                    assert(0 <= idx < all.len());
                    assert(all[idx] == e);
                    assert(before.entries->0[idx] == entry_view(e));
                    assert(wanted[idx] == supplied_entry(entry_view(e), path@, listing_view(listing@)));
                    match e {
                        CachedDirEntry::File(f) => {
                            out.push(CachedDirEntry::File(f));
                        },
                        CachedDirEntry::Directory(b) => {
                            proof {
                                assert(decreases_to!(self => self.entries));
                                assert(decreases_to!(self.entries => self.entries->0));
                                assert(decreases_to!(self.entries->0 => self.entries->0@[idx]));
                            }
                            let inner: CachedDir = *b;
                            let next = inner.supplied(path, listing);
                            out.push(CachedDirEntry::Directory(Box::new(next)));
                        },
                    }
                }
                let r = CachedDir { path: own_path, name, entries: Some(out) };
                assert(r@.entries->0 =~= wanted);
                r
            },
        }
    }
}

} // verus!
