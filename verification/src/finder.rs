//! The search for the files of an icon in the mirrored theme directories.
//!
//! A search goes through four stages, each wider than the one before: the
//! `hicolor` theme, the `default` theme, the files directly in each root,
//! and at last every directory below each root. It ends with the first
//! stage in which any file matches. A stage can only run once every
//! directory it looks into has been listed; until then the search answers
//! with the paths that are still to be read.

use crate::descriptor::{apply_spec, DescriptorView, IconDescriptor};
use crate::path::{
    extension, extension_spec, file_stem, join, join_spec, lemma_file_name_of_join,
    lemma_join_longer, path_extension_spec, stem_spec,
};
use crate::text::{contains, is_substring, to_chars};
use crate::tree::{
    dir_view, dir_wf, entries_view, entries_wf, entry_view, entry_wf, lemma_entries_wf_at,
    lemma_supplied_wf, listed_entries, listing_view, name_of, names_distinct, subdirectory,
    supplied, supplied_entry, visited, CachedDir, CachedDirEntry, DirView, EntryView,
    ListedEntry, ListedView,
};
use vstd::prelude::*;

verus! {

/// A file that matches an icon name, with what its directories say of it.
#[derive(PartialEq, Eq, Debug)]
pub struct IconLocation {
    pub path: String,
    /// The file name without its extension.
    pub file_name: String,
    pub descriptor: IconDescriptor,
}

/// The mathematical content of an `IconLocation`.
pub struct LocationView {
    pub path: Seq<char>,
    pub file_name: Seq<char>,
    pub descriptor: DescriptorView,
}

impl View for IconLocation {
    type V = LocationView;

    open spec fn view(&self) -> LocationView {
        LocationView { path: self.path@, file_name: self.file_name@, descriptor: self.descriptor@ }
    }
}

impl Clone for IconLocation {
    fn clone(&self) -> (r: Self)
        ensures
            r == *self,
    {
        IconLocation {
            path: self.path.clone(),
            file_name: self.file_name.clone(),
            descriptor: self.descriptor.clone(),
        }
    }
}

pub open spec fn locations_view(s: Seq<IconLocation>) -> Seq<LocationView> {
    Seq::new(s.len(), |i: int| s[i]@)
}

pub open spec fn paths_view(s: Seq<String>) -> Seq<Seq<char>> {
    Seq::new(s.len(), |i: int| s[i]@)
}

/// A file is a candidate for an icon name when its stem holds the name and
/// its extension is not `xpm`.
pub open spec fn is_candidate(file: Seq<char>, icon: Seq<char>) -> bool {
    is_substring(stem_spec(file), icon) && extension_spec(file) != Some("xpm"@)
}

/// A location matches an icon name exactly when its stem is the name.
pub open spec fn is_exact(location: LocationView, icon: Seq<char>) -> bool {
    location.file_name == icon
}

pub open spec fn location_of(dir_path: Seq<char>, file: Seq<char>, desc: DescriptorView) -> LocationView {
    LocationView { path: join_spec(dir_path, file), file_name: stem_spec(file), descriptor: desc }
}

/// The candidates among the files of the first `n` entries of the
/// directory at `dir_path`, in order.
pub open spec fn file_candidates(
    es: Seq<EntryView>,
    n: nat,
    dir_path: Seq<char>,
    icon: Seq<char>,
    desc: DescriptorView,
) -> Seq<LocationView>
    decreases n,
{
    if n == 0 || n > es.len() {
        Seq::empty()
    } else {
        let rest = file_candidates(es, (n - 1) as nat, dir_path, icon, desc);
        match es[n - 1] {
            EntryView::File(f) if is_candidate(f, icon) => rest.push(
                location_of(dir_path, f, desc),
            ),
            _ => rest,
        }
    }
}

/// The candidates in a directory as far as it is resolved: with `deep`
/// those of its directories first, in order, then those among its own
/// files. Each carries the descriptor `desc` after the names of the
/// directories from this one down have been applied to it.
pub open spec fn dir_candidates(dir: DirView, icon: Seq<char>, deep: bool, desc: DescriptorView) -> Seq<
    LocationView,
>
    decreases dir, 0nat,
{
    let here = apply_spec(desc, dir.name);
    match dir.entries {
        None => Seq::empty(),
        Some(es) => (if deep {
            sub_candidates(es, es.len(), icon, here)
        } else {
            Seq::empty()
        }) + file_candidates(es, es.len(), dir.path, icon, here),
    }
}

/// The candidates below the directories among the first `n` entries.
pub open spec fn sub_candidates(es: Seq<EntryView>, n: nat, icon: Seq<char>, desc: DescriptorView) -> Seq<
    LocationView,
>
    decreases es, n,
{
    if n == 0 || n > es.len() {
        Seq::empty()
    } else {
        sub_candidates(es, (n - 1) as nat, icon, desc) + match es[n - 1] {
            EntryView::Directory(d) => dir_candidates(*d, icon, true, desc),
            EntryView::File(_) => Seq::empty(),
        }
    }
}

/// The paths of the unresolved directories that a search of `dir` runs
/// into: `dir` itself, or with `deep` those below it.
pub open spec fn dir_unresolved(dir: DirView, deep: bool) -> Seq<Seq<char>>
    decreases dir, 0nat,
{
    match dir.entries {
        None => seq![dir.path],
        Some(es) => if deep {
            sub_unresolved(es, es.len())
        } else {
            Seq::empty()
        },
    }
}

pub open spec fn sub_unresolved(es: Seq<EntryView>, n: nat) -> Seq<Seq<char>>
    decreases es, n,
{
    if n == 0 || n > es.len() {
        Seq::empty()
    } else {
        sub_unresolved(es, (n - 1) as nat) + match es[n - 1] {
            EntryView::Directory(d) => dir_unresolved(*d, true),
            EntryView::File(_) => Seq::empty(),
        }
    }
}

/// The theme that a stage is restricted to: stage 0 to `hicolor`, stage 1
/// to `default`, the later ones to none.
pub open spec fn stage_theme(stage: int) -> Option<Seq<char>> {
    if stage == 0 {
        Some("hicolor"@)
    } else if stage == 1 {
        Some("default"@)
    } else {
        None
    }
}

/// The descriptor that a stage starts from: nothing known but the theme
/// of the stage.
pub open spec fn stage_seed(stage: int) -> DescriptorView {
    DescriptorView { size: None, scale: 1, theme: stage_theme(stage) }
}

/// The directory that a stage searches below a root, with its depth: the
/// theme directory of the stage if the root has one, the root itself for
/// the stages without a theme (stage 2 shallow, stage 3 deep).
pub open spec fn stage_scope(root: DirView, stage: int) -> Option<(DirView, bool)> {
    match stage_theme(stage) {
        Some(theme) => match root.entries {
            Some(es) => match subdirectory(es, theme, 0) {
                Some(d) => Some((d, true)),
                None => None,
            },
            None => None,
        },
        None => if stage == 2 || stage == 3 {
            Some((root, stage == 3))
        } else {
            None
        },
    }
}

/// The paths that are to be read before a stage can run on a root.
pub open spec fn stage_unresolved(root: DirView, stage: int) -> Seq<Seq<char>> {
    if stage_theme(stage).is_some() && root.entries.is_none() {
        seq![root.path]
    } else {
        match stage_scope(root, stage) {
            Some((dir, deep)) => dir_unresolved(dir, deep),
            None => Seq::empty(),
        }
    }
}

/// The candidates that a stage finds below a root.
pub open spec fn stage_candidates(root: DirView, icon: Seq<char>, stage: int) -> Seq<LocationView> {
    match stage_scope(root, stage) {
        Some((dir, deep)) => dir_candidates(dir, icon, deep, stage_seed(stage)),
        None => Seq::empty(),
    }
}

pub open spec fn roots_unresolved(roots: Seq<DirView>, stage: int, n: nat) -> Seq<Seq<char>>
    decreases n,
{
    if n == 0 || n > roots.len() {
        Seq::empty()
    } else {
        roots_unresolved(roots, stage, (n - 1) as nat) + stage_unresolved(roots[n - 1], stage)
    }
}

pub open spec fn roots_candidates(roots: Seq<DirView>, icon: Seq<char>, stage: int, n: nat) -> Seq<
    LocationView,
>
    decreases n,
{
    if n == 0 || n > roots.len() {
        Seq::empty()
    } else {
        roots_candidates(roots, icon, stage, (n - 1) as nat) + stage_candidates(
            roots[n - 1],
            icon,
            stage,
        )
    }
}

/// Some candidate matches the icon name exactly.
pub open spec fn any_exact(found: Seq<LocationView>, icon: Seq<char>) -> bool {
    exists|i: int| 0 <= i < found.len() && is_exact(#[trigger] found[i], icon)
}

/// The candidates that a search hands out: the exact matches alone if
/// there is any, else all of them.
pub open spec fn exact_filter(found: Seq<LocationView>, icon: Seq<char>) -> Seq<LocationView> {
    if any_exact(found, icon) {
        found.filter(|l: LocationView| is_exact(l, icon))
    } else {
        found
    }
}

/// The answer of a search, as mathematical content.
pub enum FindView {
    Read { paths: Seq<Seq<char>>, stage: int },
    Found(Seq<LocationView>),
}

/// The answer of a search that starts at `stage`. A stage with unresolved
/// directories in its scope asks for them; a stage that finds candidates
/// ends the search with them, filtered; a stage that finds none passes on
/// to the next. After the last stage nothing is found.
pub open spec fn find_from(roots: Seq<DirView>, icon: Seq<char>, stage: int) -> FindView
    decreases 4 - stage,
{
    if stage < 0 || stage >= 4 {
        FindView::Found(Seq::empty())
    } else {
        let pending = roots_unresolved(roots, stage, roots.len());
        let found = roots_candidates(roots, icon, stage, roots.len());
        if pending.len() > 0 {
            FindView::Read { paths: pending, stage }
        } else if found.len() > 0 {
            FindView::Found(exact_filter(found, icon))
        } else {
            find_from(roots, icon, stage + 1)
        }
    }
}

/// What a search answers: the directories to list and hand over before
/// asking again, with the stage (0 to 3) that waits for them, or what it
/// found.
#[derive(Debug)]
pub enum FindStep {
    Read { paths: Vec<String>, stage: usize },
    Found(Vec<IconLocation>),
}

impl View for FindStep {
    type V = FindView;

    open spec fn view(&self) -> FindView {
        match self {
            FindStep::Read { paths, stage } => FindView::Read {
                paths: paths_view(paths@),
                stage: *stage as int,
            },
            FindStep::Found(locations) => FindView::Found(locations_view(locations@)),
        }
    }
}

/// The search over a set of root directories.
#[derive(Debug)]
pub struct IconFinder {
    pub dirs: Vec<CachedDir>,
}

impl View for IconFinder {
    type V = Seq<DirView>;

    open spec fn view(&self) -> Seq<DirView> {
        Seq::new(self.dirs@.len(), |i: int| self.dirs@[i]@)
    }
}

/// For each of the first `n` data directories its `icons` and its
/// `pixmaps`, in order.
pub open spec fn themed_paths(dirs: Seq<Seq<char>>, n: nat) -> Seq<Seq<char>>
    decreases n,
{
    if n == 0 || n > dirs.len() {
        Seq::empty()
    } else {
        themed_paths(dirs, (n - 1) as nat).push(join_spec(dirs[n - 1], "icons"@)).push(
            join_spec(dirs[n - 1], "pixmaps"@),
        )
    }
}

/// The directories that may hold icons, whether they exist or not: for
/// each data directory its `icons` and its `pixmaps`, then those of the
/// data home, then `.icons` in the home directory. `data` holds the data
/// directories and the data home, where they are known.
pub open spec fn base_paths(data: Option<(Seq<Seq<char>>, Seq<char>)>, home: Seq<char>) -> Seq<Seq<char>> {
    match data {
        Some((dirs, data_home)) => themed_paths(dirs, dirs.len()).push(
            join_spec(data_home, "icons"@),
        ).push(join_spec(data_home, "pixmaps"@)).push(join_spec(home, ".icons"@)),
        None => seq![join_spec(home, ".icons"@)],
    }
}

/// The directories that may hold icons, whether they exist or not.
pub fn icon_theme_base_paths(data: Option<(&Vec<String>, &str)>, home: &str) -> (r: Vec<String>)
    ensures
        paths_view(r@) == base_paths(
            match data {
                Some((dirs, data_home)) => Some((paths_view(dirs@), data_home@)),
                None => None,
            },
            home@,
        ),
{
    let mut out: Vec<String> = Vec::new();
    match data {
        Some((dirs, data_home)) => {
            let mut i: usize = 0;
            assert(paths_view(out@) =~= themed_paths(paths_view(dirs@), 0));
            while i < dirs.len()
                invariant
                    i <= dirs.len(),
                    paths_view(out@) == themed_paths(paths_view(dirs@), i as nat),
                decreases dirs.len() - i,
            {
                let ghost before = paths_view(out@);
                let icons = join(dirs[i].as_str(), "icons");
                let pixmaps = join(dirs[i].as_str(), "pixmaps");
                assert(paths_view(dirs@)[i as int] == dirs@[i as int]@);
                out.push(icons);
                out.push(pixmaps);
                assert(paths_view(out@) =~= before.push(icons@).push(pixmaps@));
                i += 1;
            }
            let ghost themed = paths_view(out@);
            let icons = join(data_home, "icons");
            let pixmaps = join(data_home, "pixmaps");
            let hidden = join(home, ".icons");
            out.push(icons);
            out.push(pixmaps);
            out.push(hidden);
            assert(paths_view(out@) =~= themed.push(icons@).push(pixmaps@).push(hidden@));
        },
        None => {
            out.push(join(home, ".icons"));
            assert(paths_view(out@) =~= base_paths(None, home@));
        },
    }
    out
}

/// Whether a file is a candidate for an icon name.
pub fn candidate(file: &str, icon: &Vec<char>) -> (r: bool)
    ensures
        r == is_candidate(file@, icon@),
{
    let stem = file_stem(file);
    let stem_chars = to_chars(stem.as_str());
    if !contains(&stem_chars, icon) {
        return false;
    }
    match extension(file) {
        Some(ext) => {
            let xpm: String = "xpm".to_owned();
            ext != xpm
        },
        None => true,
    }
}

/// Whether some location matches the icon name exactly.
pub fn has_exact(found: &Vec<IconLocation>, icon_name: &str) -> (r: bool)
    ensures
        r == any_exact(locations_view(found@), icon_name@),
{
    let wanted: String = icon_name.to_owned();
    let mut i: usize = 0;
    while i < found.len()
        invariant
            i <= found.len(),
            wanted@ == icon_name@,
            forall|j: int| 0 <= j < i ==> !is_exact(#[trigger] locations_view(found@)[j], icon_name@),
        decreases found.len() - i,
    {
        if found[i].file_name == wanted {
            assert(is_exact(locations_view(found@)[i as int], icon_name@));
            return true;
        }
        i += 1;
    }
    false
}

/// Keeps the exact matches alone if there is any, else everything.
pub fn keep_exact(found: Vec<IconLocation>, icon_name: &str) -> (r: Vec<IconLocation>)
    ensures
        locations_view(r@) == exact_filter(locations_view(found@), icon_name@),
{
    let wanted: String = icon_name.to_owned();
    let ghost pred = |l: LocationView| is_exact(l, icon_name@);
    let ghost all = locations_view(found@);
    let mut exact: Vec<IconLocation> = Vec::new();
    let mut i: usize = 0;
    assert(locations_view(exact@) =~= all.take(0).filter(pred)) by {
        reveal(Seq::filter);
    }
    while i < found.len()
        invariant
            i <= found.len(),
            wanted@ == icon_name@,
            all == locations_view(found@),
            pred == |l: LocationView| is_exact(l, icon_name@),
            locations_view(exact@) == all.take(i as int).filter(pred),
            forall|j: int| 0 <= j < i ==> !is_exact(#[trigger] all[j], icon_name@) || exact@.len() > 0,
            exact@.len() > 0 ==> exists|j: int| 0 <= j < i && is_exact(#[trigger] all[j], icon_name@),
        decreases found.len() - i,
    {
        let ghost before = exact@;
        if found[i].file_name == wanted {
            exact.push(found[i].clone());
            assert(locations_view(exact@) =~= locations_view(before).push(all[i as int]));
        }
        proof {
            assert(all.take(i + 1) =~= all.take(i as int).push(all[i as int]));
            Seq::lemma_filter_push(all.take(i as int), all[i as int], pred);
        }
        i += 1;
    }
    assert(all.take(found.len() as int) =~= all);
    if exact.len() > 0 {
        exact
    } else {
        found
    }
}

impl CachedDir {
    /// Appends to `out` the paths of the unresolved directories that a
    /// search of this directory runs into.
    pub fn unresolved(&self, deep: bool, out: &mut Vec<String>)
        ensures
            paths_view(final(out)@) == paths_view(old(out)@) + dir_unresolved(self@, deep),
        decreases self,
    {
        let ghost start = paths_view(out@);
        match &self.entries {
            None => {
                let ghost before = out@;
                out.push(self.path.clone());
                assert(paths_view(out@) =~= paths_view(before) + seq![self.path@]);
            },
            Some(es) => {
                let ghost model = self@.entries->0;
                if deep {
                    let mut i: usize = 0;
                    assert(paths_view(out@) =~= start + sub_unresolved(model, 0));
                    while i < es.len()
                        invariant
                            i <= es.len(),
                            self.entries == Some(*es),
                            model == dir_view(*self).entries->0,
                            paths_view(out@) == start + sub_unresolved(model, i as nat),
                        decreases es.len() - i,
                    {
                        let ghost before = paths_view(out@);
                        assert(model[i as int] == entry_view(es@[i as int]));
                        match &es[i] {
                            CachedDirEntry::Directory(d) => {
                                proof {
                                    assert(decreases_to!(self => self.entries));
                                    assert(decreases_to!(self.entries => self.entries->0));
                                    assert(decreases_to!(self.entries->0 => self.entries->0@[i as int]));
                                }
                                d.unresolved(true, out);
                                assert(paths_view(out@) =~= start + (sub_unresolved(model, i as nat)
                                    + dir_unresolved(d@, true)));
                            },
                            CachedDirEntry::File(_) => {
                                assert(paths_view(out@) =~= start + (sub_unresolved(model, i as nat)
                                    + Seq::<Seq<char>>::empty()));
                            },
                        }
                        i += 1;
                    }
                } else {
                    assert(paths_view(out@) =~= start + Seq::<Seq<char>>::empty());
                }
            },
        }
    }

    /// Appends to `out` the candidates for `icon_name` in this directory,
    /// as far as it is resolved, and returns how many they are.
    pub fn find(&self, icon_name: &str, out: &mut Vec<IconLocation>, deep: bool, desc: IconDescriptor) -> (found: usize)
        ensures
            locations_view(final(out)@) == locations_view(old(out)@) + dir_candidates(
                self@,
                icon_name@,
                deep,
                desc@,
            ),
            found == dir_candidates(self@, icon_name@, deep, desc@).len(),
        decreases self,
    {
        let ghost start = locations_view(out@);
        let here = desc.apply(self.name.as_str());
        let mut found: usize = 0;
        match &self.entries {
            None => {
                assert(locations_view(out@) =~= start + Seq::<LocationView>::empty());
            },
            Some(es) => {
                let ghost model = self@.entries->0;
                let ghost below = if deep {
                    sub_candidates(model, model.len(), icon_name@, here@)
                } else {
                    Seq::<LocationView>::empty()
                };
                assert(locations_view(out@) =~= start + sub_candidates(model, 0, icon_name@, here@));
                if deep {
                    let mut i: usize = 0;
                    while i < es.len()
                        invariant
                            i <= es.len(),
                            self.entries == Some(*es),
                            model == dir_view(*self).entries->0,
                            locations_view(out@) == start + sub_candidates(
                                model,
                                i as nat,
                                icon_name@,
                                here@,
                            ),
                            start.len() + found == out@.len(),
                        decreases es.len() - i,
                    {
                        assert(model[i as int] == entry_view(es@[i as int]));
                        match &es[i] {
                            CachedDirEntry::Directory(d) => {
                                proof {
                                    assert(decreases_to!(self => self.entries));
                                    assert(decreases_to!(self.entries => self.entries->0));
                                    assert(decreases_to!(self.entries->0 => self.entries->0@[i as int]));
                                }
                                let ghost grown = out@.len();
                                let n = d.find(icon_name, out, true, here.clone());
                                assert(locations_view(out@).len() == grown + n);
                                let total: usize = out.len();
                                assert(found + n <= total);
                                assert(locations_view(out@) =~= start + (sub_candidates(
                                    model,
                                    i as nat,
                                    icon_name@,
                                    here@,
                                ) + dir_candidates(d@, icon_name@, true, here@)));
                                found = found + n;
                            },
                            CachedDirEntry::File(_) => {
                                assert(locations_view(out@) =~= start + (sub_candidates(
                                    model,
                                    i as nat,
                                    icon_name@,
                                    here@,
                                ) + Seq::<LocationView>::empty()));
                            },
                        }
                        i += 1;
                    }
                }
                assert(locations_view(out@) =~= start + below + file_candidates(
                    model,
                    0,
                    self.path@,
                    icon_name@,
                    here@,
                ));
                let icon = to_chars(icon_name);
                let mut k: usize = 0;
                while k < es.len()
                    invariant
                        k <= es.len(),
                        icon@ == icon_name@,
                        model == entries_view(es@),
                        locations_view(out@) == start + below + file_candidates(
                            model,
                            k as nat,
                            self.path@,
                            icon_name@,
                            here@,
                        ),
                        start.len() + found == out@.len(),
                    decreases es.len() - k,
                {
                    let ghost before = out@;
                    let ghost sofar = file_candidates(model, k as nat, self.path@, icon_name@, here@);
                    match &es[k] {
                        CachedDirEntry::File(f) => {
                            if candidate(f.as_str(), &icon) {
                                let location = IconLocation {
                                    path: join(self.path.as_str(), f.as_str()),
                                    file_name: file_stem(f.as_str()),
                                    descriptor: here.clone(),
                                };
                                assert(location@ == location_of(self.path@, f@, here@));
                                out.push(location);
                                assert(locations_view(out@) =~= locations_view(before).push(
                                    location_of(self.path@, f@, here@),
                                ));
                                assert(locations_view(out@) =~= start + below + sofar.push(
                                    location_of(self.path@, f@, here@),
                                ));
                                let total: usize = out.len();
                                assert(found + 1 <= total);
                                found = found + 1;
                            }
                        },
                        CachedDirEntry::Directory(_) => {},
                    }
                    k += 1;
                }
                assert(locations_view(out@) =~= start + (below + file_candidates(
                    model,
                    model.len(),
                    self.path@,
                    icon_name@,
                    here@,
                )));
            },
        }
        found
    }
}

impl IconFinder {
    /// The search over the directories at the given paths, none of them
    /// listed yet. A root path without a final component is refused.
    pub fn new(roots: &Vec<String>) -> (r: Option<IconFinder>)
        ensures
            match r {
                Some(finder) => {
                    &&& finder@.len() == roots@.len()
                    &&& forall|i: int|
                        0 <= i < roots@.len() ==> visited(roots@[i]@) == Some(#[trigger] finder@[i])
                    &&& finder_wf(finder@)
                },
                None => exists|i: int| 0 <= i < roots@.len() && visited(#[trigger] roots@[i]@) is None,
            },
    {
        let mut dirs: Vec<CachedDir> = Vec::new();
        let mut i: usize = 0;
        while i < roots.len()
            invariant
                i <= roots.len(),
                dirs@.len() == i,
                forall|j: int| 0 <= j < i ==> visited(roots@[j]@) == Some(#[trigger] dirs@[j]@),
            decreases roots.len() - i,
        {
            match CachedDir::visit(roots[i].as_str()) {
                Some(dir) => {
                    dirs.push(dir);
                },
                None => {
                    return None;
                },
            }
            i += 1;
        }
        Some(IconFinder { dirs })
    }

    /// Appends to `out` the paths that are to be read before stage `step`
    /// can run on the root `dir`.
    pub fn start_unresolved(dir: &CachedDir, out: &mut Vec<String>, step: usize)
        ensures
            paths_view(final(out)@) == paths_view(old(out)@) + stage_unresolved(dir@, step as int),
    {
        let ghost start = paths_view(out@);
        if step == 0 || step == 1 {
            let theme = if step == 0 {
                "hicolor"
            } else {
                "default"
            };
            if !dir.is_resolved() {
                let ghost before = out@;
                out.push(dir.path.clone());
                assert(paths_view(out@) =~= paths_view(before) + seq![dir.path@]);
            } else {
                match dir.join(theme) {
                    Some(sub) => {
                        sub.unresolved(true, out);
                    },
                    None => {
                        assert(paths_view(out@) =~= start + Seq::<Seq<char>>::empty());
                    },
                }
            }
        } else if step == 2 {
            dir.unresolved(false, out);
        } else if step == 3 {
            dir.unresolved(true, out);
        } else {
            assert(paths_view(out@) =~= start + Seq::<Seq<char>>::empty());
        }
    }

    /// Appends to `out` the candidates that stage `step` finds below the
    /// root `dir`, and returns how many they are.
    pub fn start_find(dir: &CachedDir, icon_name: &str, out: &mut Vec<IconLocation>, step: usize) -> (found: usize)
        ensures
            locations_view(final(out)@) == locations_view(old(out)@) + stage_candidates(
                dir@,
                icon_name@,
                step as int,
            ),
            found == stage_candidates(dir@, icon_name@, step as int).len(),
    {
        let ghost start = locations_view(out@);
        if step == 0 || step == 1 {
            let theme = if step == 0 {
                "hicolor"
            } else {
                "default"
            };
            match dir.join(theme) {
                Some(sub) => {
                    let seed = IconDescriptor {
                        size: None,
                        scale: 1,
                        theme: Some(theme.to_owned()),
                    };
                    return sub.find(icon_name, out, true, seed);
                },
                None => {},
            }
        } else if step == 2 {
            return dir.find(icon_name, out, false, IconDescriptor::default());
        } else if step == 3 {
            return dir.find(icon_name, out, true, IconDescriptor::default());
        }
        assert(locations_view(out@) =~= start + Seq::<LocationView>::empty());
        0
    }

    /// Searches for the files of the icon `icon_name`.
    pub fn find(&self, icon_name: &str) -> (r: FindStep)
        ensures
            r@ == find_from(self@, icon_name@, 0),
            finder_wf(self@) ==> answer_under_roots(r@, self@, icon_name@),
            finder_wf(self@) && roots_apart(self@) ==> answer_apart(r@),
    {
        proof {
            if finder_wf(self@) && roots_apart(self@) {
                lemma_found_apart(self@, icon_name@, 0);
            }
            if finder_wf(self@) {
                let answer = find_from(self@, icon_name@, 0);
                assert forall|i: int|
                    answer is Found && 0 <= i < answer->Found_0.len() implies found_under_root(
                    #[trigger] answer->Found_0[i],
                    self@,
                    icon_name@,
                ) by {
                    lemma_found(self@, icon_name@, 0, i);
                }
                assert(answer_under_roots(answer, self@, icon_name@));
            }
        }
        let mut step: usize = 0;
        while step < 4
            invariant
                step <= 4,
                finder_wf(self@) ==> answer_under_roots(
                    find_from(self@, icon_name@, 0),
                    self@,
                    icon_name@,
                ),
                finder_wf(self@) && roots_apart(self@) ==> answer_apart(
                    find_from(self@, icon_name@, 0),
                ),
                find_from(self@, icon_name@, 0) == find_from(self@, icon_name@, step as int),
            decreases 4 - step,
        {
            let mut pending: Vec<String> = Vec::new();
            let mut i: usize = 0;
            assert(paths_view(pending@) =~= roots_unresolved(self@, step as int, 0));
            while i < self.dirs.len()
                invariant
                    i <= self.dirs.len(),
                    step < 4,
                    paths_view(pending@) == roots_unresolved(self@, step as int, i as nat),
                decreases self.dirs.len() - i,
            {
                IconFinder::start_unresolved(&self.dirs[i], &mut pending, step);
                i += 1;
            }
            if pending.len() > 0 {
                return FindStep::Read { paths: pending, stage: step };
            }
            let mut out: Vec<IconLocation> = Vec::new();
            let mut k: usize = 0;
            assert(locations_view(out@) =~= roots_candidates(self@, icon_name@, step as int, 0));
            while k < self.dirs.len()
                invariant
                    k <= self.dirs.len(),
                    step < 4,
                    locations_view(out@) == roots_candidates(
                        self@,
                        icon_name@,
                        step as int,
                        k as nat,
                    ),
                decreases self.dirs.len() - k,
            {
                IconFinder::start_find(&self.dirs[k], icon_name, &mut out, step);
                k += 1;
            }
            if out.len() > 0 {
                return FindStep::Found(keep_exact(out, icon_name));
            }
            step += 1;
        }
        let none: Vec<IconLocation> = Vec::new();
        assert(locations_view(none@) =~= Seq::<LocationView>::empty());
        FindStep::Found(none)
    }

    /// Takes in a listing of the directory at `path`: every unresolved
    /// directory with that path, in any root, is resolved by it.
    pub fn resolve(&mut self, path: &str, listing: &Vec<ListedEntry>)
        ensures
            final(self)@.len() == old(self)@.len(),
            forall|i: int|
                0 <= i < old(self)@.len() ==> #[trigger] final(self)@[i] == supplied(
                    old(self)@[i],
                    path@,
                    listing_view(listing@),
                ),
            finder_wf(old(self)@) ==> finder_wf(final(self)@),
    {
        proof {
            if finder_wf(self@) {
                assert forall|i: int| 0 <= i < self@.len() implies dir_wf(
                    supplied(#[trigger] self@[i], path@, listing_view(listing@)),
                ) by {
                    lemma_supplied_wf(self@[i], path@, listing_view(listing@));
                }
            }
        }
        let ghost before = self@;
        let mut dirs: Vec<CachedDir> = Vec::new();
        core::mem::swap(&mut dirs, &mut self.dirs);
        let mut out: Vec<CachedDir> = Vec::new();
        for dir in it: dirs
            invariant
                it.seq().len() == before.len(),
                forall|j: int| 0 <= j < before.len() ==> (#[trigger] it.seq()[j])@ == before[j],
                out@.len() == it.index(),
                forall|j: int|
                    0 <= j < out@.len() ==> (#[trigger] out@[j])@ == supplied(
                        before[j],
                        path@,
                        listing_view(listing@),
                    ),
        {
            out.push(dir.supplied(path, listing));
        }
        self.dirs = out;
    }
}

/// Every root of the search is a well-formed mirror.
pub open spec fn finder_wf(roots: Seq<DirView>) -> bool {
    forall|j: int| 0 <= j < roots.len() ==> dir_wf(#[trigger] roots[j])
}

/// What holds of a file that was found for an icon name below the
/// directory at `dir_path`: its path lies below that directory, its
/// extension is not `xpm`, and its stem holds the icon name.
pub open spec fn found_under(l: LocationView, dir_path: Seq<char>, icon: Seq<char>) -> bool {
    &&& dir_path.is_prefix_of(l.path)
    &&& path_extension_spec(l.path) != "xpm"@
    &&& is_substring(l.file_name, icon)
}

/// The file was found below one of the roots.
pub open spec fn found_under_root(l: LocationView, roots: Seq<DirView>, icon: Seq<char>) -> bool {
    exists|j: int| 0 <= j < roots.len() && found_under(l, (#[trigger] roots[j]).path, icon)
}

/// Every file that an answer hands out was found below one of the roots.
pub open spec fn answer_under_roots(answer: FindView, roots: Seq<DirView>, icon: Seq<char>) -> bool {
    answer matches FindView::Found(found) ==> forall|i: int|
        0 <= i < found.len() ==> found_under_root(#[trigger] found[i], roots, icon)
}

/// No two files that an answer hands out have the same path.
pub open spec fn answer_apart(answer: FindView) -> bool {
    answer matches FindView::Found(found) ==> paths_distinct(found)
}

/// What is found among the files of a directory lies in that directory.
pub proof fn lemma_file_candidates(
    es: Seq<EntryView>,
    n: nat,
    dir_path: Seq<char>,
    icon: Seq<char>,
    desc: DescriptorView,
    i: int,
)
    requires
        n <= es.len(),
        entries_wf(es, n, dir_path),
        0 <= i < file_candidates(es, n, dir_path, icon, desc).len(),
    ensures
        found_under(file_candidates(es, n, dir_path, icon, desc)[i], dir_path, icon),
    decreases n,
{
    let rest = file_candidates(es, (n - 1) as nat, dir_path, icon, desc);
    if i < rest.len() {
        lemma_file_candidates(es, (n - 1) as nat, dir_path, icon, desc, i);
    } else {
        lemma_entries_wf_at(es, n, dir_path, n - 1);
        let f = es[n - 1]->File_0;
        lemma_file_name_of_join(dir_path, f);
        reveal_strlit("xpm");
        assert("xpm"@.len() == 3);
    }
}

/// What is found in a well-formed directory lies below it, has an
/// extension other than `xpm`, and holds the icon name in its stem.
pub proof fn lemma_dir_candidates(dir: DirView, icon: Seq<char>, deep: bool, desc: DescriptorView, i: int)
    requires
        dir_wf(dir),
        0 <= i < dir_candidates(dir, icon, deep, desc).len(),
    ensures
        found_under(dir_candidates(dir, icon, deep, desc)[i], dir.path, icon),
    decreases dir, 0nat,
{
    let here = apply_spec(desc, dir.name);
    let es = dir.entries->0;
    let below = if deep {
        sub_candidates(es, es.len(), icon, here)
    } else {
        Seq::empty()
    };
    if i < below.len() {
        lemma_sub_candidates(es, es.len(), dir.path, icon, here, i);
    } else {
        lemma_file_candidates(es, es.len(), dir.path, icon, here, i - below.len());
    }
}

/// What is found below the directories of a well-formed directory lies
/// below that directory.
pub proof fn lemma_sub_candidates(
    es: Seq<EntryView>,
    n: nat,
    parent: Seq<char>,
    icon: Seq<char>,
    desc: DescriptorView,
    i: int,
)
    requires
        n <= es.len(),
        entries_wf(es, n, parent),
        0 <= i < sub_candidates(es, n, icon, desc).len(),
    ensures
        found_under(sub_candidates(es, n, icon, desc)[i], parent, icon),
    decreases es, n,
{
    let rest = sub_candidates(es, (n - 1) as nat, icon, desc);
    if i < rest.len() {
        lemma_sub_candidates(es, (n - 1) as nat, parent, icon, desc, i);
    } else {
        lemma_entries_wf_at(es, n, parent, n - 1);
        let d = *(es[n - 1]->Directory_0);
        lemma_dir_candidates(d, icon, true, desc, i - rest.len());
        lemma_file_name_of_join(parent, d.name);
        let l = dir_candidates(d, icon, true, desc)[i - rest.len()];
        assert(parent =~= l.path.subrange(0, parent.len() as int)) by {
            assert(d.path =~= l.path.subrange(0, d.path.len() as int));
            assert(parent =~= d.path.subrange(0, parent.len() as int));
        }
    }
}

/// The text in front of the name of every entry in the path of the entry.
pub open spec fn base_of(dir: Seq<char>) -> Seq<char> {
    join_spec(dir, Seq::empty())
}

/// The path leads through the entry `name` of the directory at `dir`: it
/// is the path of that entry, or with `deeper` a path below it.
pub open spec fn through(path: Seq<char>, dir: Seq<char>, name: Seq<char>, deeper: bool) -> bool {
    if deeper {
        (base_of(dir) + name + seq!['/']).is_prefix_of(path)
    } else {
        path == base_of(dir) + name
    }
}

/// The path leads through one of the first `n` entries: through a file
/// as its own path, through a directory as a path below it.
pub open spec fn through_entry(path: Seq<char>, dir: Seq<char>, es: Seq<EntryView>, n: nat, deeper: bool) -> bool {
    exists|k: int|
        0 <= k < n && k < es.len() && ((#[trigger] es[k]) is Directory) == deeper && through(
            path,
            dir,
            name_of(es[k]),
            deeper,
        )
}

/// No two of the locations have the same path.
pub open spec fn paths_distinct(found: Seq<LocationView>) -> bool {
    forall|i: int, j: int|
        0 <= i < j < found.len() ==> (#[trigger] found[i]).path != (#[trigger] found[j]).path
}

/// The characters of a path that leads through an entry.
proof fn lemma_through_chars(path: Seq<char>, dir: Seq<char>, name: Seq<char>, deeper: bool, t: int)
    requires
        through(path, dir, name, deeper),
        0 <= t <= name.len(),
    ensures
        !deeper ==> path.len() == base_of(dir).len() + name.len(),
        deeper ==> path.len() > base_of(dir).len() + name.len(),
        t < name.len() ==> path[base_of(dir).len() + t] == name[t],
        deeper && t == name.len() ==> path[base_of(dir).len() + t] == '/',
{
    let b = base_of(dir);
    if deeper {
        let front = b + name + seq!['/'];
        assert(front =~= path.subrange(0, front.len() as int));
        assert(path[b.len() + t] == front[b.len() + t]);
    }
}

/// A path leads through one entry of a directory only, and in one way.
pub proof fn lemma_through_apart(path: Seq<char>, dir: Seq<char>, a: Seq<char>, deep_a: bool, b: Seq<char>, deep_b: bool)
    requires
        crate::path::is_entry_name(a),
        crate::path::is_entry_name(b),
        through(path, dir, a, deep_a),
        through(path, dir, b, deep_b),
    ensures
        a == b,
        deep_a == deep_b,
{
    let base = base_of(dir).len();
    lemma_through_chars(path, dir, a, deep_a, 0);
    lemma_through_chars(path, dir, b, deep_b, 0);
    if a.len() < b.len() {
        lemma_through_chars(path, dir, b, deep_b, a.len() as int);
        if deep_a {
            lemma_through_chars(path, dir, a, deep_a, a.len() as int);
        }
        assert(false);
    } else if b.len() < a.len() {
        lemma_through_chars(path, dir, a, deep_a, b.len() as int);
        if deep_b {
            lemma_through_chars(path, dir, b, deep_b, b.len() as int);
        }
        assert(false);
    } else {
        assert forall|t: int| 0 <= t < a.len() implies a[t] == b[t] by {
            lemma_through_chars(path, dir, a, deep_a, t);
            lemma_through_chars(path, dir, b, deep_b, t);
        }
        assert(a =~= b);
    }
}

/// The path of every file found among the files of a well-formed
/// directory is the path of one of its files, and no two are the same.
pub proof fn lemma_file_candidates_apart(
    es: Seq<EntryView>,
    n: nat,
    dir_path: Seq<char>,
    icon: Seq<char>,
    desc: DescriptorView,
)
    requires
        n <= es.len(),
        entries_wf(es, n, dir_path),
        names_distinct(es),
    ensures
        paths_distinct(file_candidates(es, n, dir_path, icon, desc)),
        forall|i: int|
            0 <= i < file_candidates(es, n, dir_path, icon, desc).len() ==> through_entry(
                (#[trigger] file_candidates(es, n, dir_path, icon, desc)[i]).path,
                dir_path,
                es,
                n,
                false,
            ),
    decreases n,
{
    if n > 0 {
        lemma_file_candidates_apart(es, (n - 1) as nat, dir_path, icon, desc);
        let rest = file_candidates(es, (n - 1) as nat, dir_path, icon, desc);
        let all = file_candidates(es, n, dir_path, icon, desc);
        lemma_entries_wf_at(es, n, dir_path, n - 1);
        assert forall|i: int| 0 <= i < all.len() implies through_entry(
            (#[trigger] all[i]).path,
            dir_path,
            es,
            n,
            false,
        ) by {
            if i < rest.len() {
                assert(through_entry(rest[i].path, dir_path, es, (n - 1) as nat, false));
                let k = choose|k: int|
                    0 <= k < n - 1 && k < es.len() && ((#[trigger] es[k]) is Directory) == false
                        && through(rest[i].path, dir_path, name_of(es[k]), false);
                assert(through(all[i].path, dir_path, name_of(es[k]), false));
            } else {
                let f = es[n - 1]->File_0;
                assert(join_spec(dir_path, f) =~= base_of(dir_path) + f);
                assert(through(all[i].path, dir_path, name_of(es[n - 1]), false));
            }
        }
        assert forall|i: int, j: int| 0 <= i < j < all.len() implies (#[trigger] all[i]).path != (
        #[trigger] all[j]).path by {
            if j < rest.len() {
                assert(rest[i].path != rest[j].path);
            } else {
                assert(through_entry(rest[i].path, dir_path, es, (n - 1) as nat, false));
                let k = choose|k: int|
                    0 <= k < n - 1 && k < es.len() && ((#[trigger] es[k]) is Directory) == false
                        && through(rest[i].path, dir_path, name_of(es[k]), false);
                lemma_entries_wf_at(es, n, dir_path, k);
                assert(name_of(es[k]) != name_of(es[n - 1]));
                if all[i].path == all[j].path {
                    assert(through(all[j].path, dir_path, name_of(es[n - 1]), false));
                    lemma_through_apart(
                        all[j].path,
                        dir_path,
                        name_of(es[k]),
                        false,
                        name_of(es[n - 1]),
                        false,
                    );
                }
            }
        }
    }
}

/// The path of every file found in a well-formed directory leads through
/// one of its entries, and no two files found have the same path.
pub proof fn lemma_dir_candidates_apart(dir: DirView, icon: Seq<char>, deep: bool, desc: DescriptorView)
    requires
        dir_wf(dir),
    ensures
        paths_distinct(dir_candidates(dir, icon, deep, desc)),
        forall|i: int|
            0 <= i < dir_candidates(dir, icon, deep, desc).len() ==> base_of(dir.path).is_prefix_of(
                (#[trigger] dir_candidates(dir, icon, deep, desc)[i]).path,
            ),
    decreases dir, 0nat,
{
    if dir.entries is Some {
        let here = apply_spec(desc, dir.name);
        let es = dir.entries->0;
        let below = if deep {
            sub_candidates(es, es.len(), icon, here)
        } else {
            Seq::empty()
        };
        let files = file_candidates(es, es.len(), dir.path, icon, here);
        let all = dir_candidates(dir, icon, deep, desc);
        if deep {
            lemma_sub_candidates_apart(es, es.len(), dir.path, icon, here);
        }
        lemma_file_candidates_apart(es, es.len(), dir.path, icon, here);
        assert forall|i: int| 0 <= i < all.len() implies base_of(dir.path).is_prefix_of(
            (#[trigger] all[i]).path,
        ) by {
            let deeper = i < below.len();
            let l = if deeper {
                below[i]
            } else {
                files[i - below.len()]
            };
            assert(all[i] == l);
            assert(through_entry(l.path, dir.path, es, es.len(), deeper));
            let k = choose|k: int|
                0 <= k < es.len() && k < es.len() && ((#[trigger] es[k]) is Directory) == deeper
                    && through(l.path, dir.path, name_of(es[k]), deeper);
            lemma_through_chars(l.path, dir.path, name_of(es[k]), deeper, 0);
            if deeper {
                let front = base_of(dir.path) + name_of(es[k]) + seq!['/'];
                assert(front =~= l.path.subrange(0, front.len() as int));
            }
            assert(base_of(dir.path) =~= l.path.subrange(0, base_of(dir.path).len() as int));
        }
        assert forall|i: int, j: int| 0 <= i < j < all.len() implies (#[trigger] all[i]).path != (
        #[trigger] all[j]).path by {
            if j < below.len() {
                assert(below[i].path != below[j].path);
            } else if i >= below.len() {
                assert(files[i - below.len()].path != files[j - below.len()].path);
            } else {
                let a = below[i];
                let b = files[j - below.len()];
                assert(through_entry(a.path, dir.path, es, es.len(), true));
                assert(through_entry(b.path, dir.path, es, es.len(), false));
                let ka = choose|k: int|
                    0 <= k < es.len() && k < es.len() && ((#[trigger] es[k]) is Directory) == true
                        && through(a.path, dir.path, name_of(es[k]), true);
                let kb = choose|k: int|
                    0 <= k < es.len() && k < es.len() && ((#[trigger] es[k]) is Directory) == false
                        && through(b.path, dir.path, name_of(es[k]), false);
                lemma_entries_wf_at(es, es.len(), dir.path, ka);
                lemma_entries_wf_at(es, es.len(), dir.path, kb);
                if a.path == b.path {
                    lemma_through_apart(
                        a.path,
                        dir.path,
                        name_of(es[ka]),
                        true,
                        name_of(es[kb]),
                        false,
                    );
                }
            }
        }
    }
}

/// The path of every file found below the directories of a well-formed
/// directory leads through one of them, and no two files found have the
/// same path.
pub proof fn lemma_sub_candidates_apart(
    es: Seq<EntryView>,
    n: nat,
    parent: Seq<char>,
    icon: Seq<char>,
    desc: DescriptorView,
)
    requires
        n <= es.len(),
        entries_wf(es, n, parent),
        names_distinct(es),
    ensures
        paths_distinct(sub_candidates(es, n, icon, desc)),
        forall|i: int|
            0 <= i < sub_candidates(es, n, icon, desc).len() ==> through_entry(
                (#[trigger] sub_candidates(es, n, icon, desc)[i]).path,
                parent,
                es,
                n,
                true,
            ),
    decreases es, n,
{
    if n > 0 {
        lemma_sub_candidates_apart(es, (n - 1) as nat, parent, icon, desc);
        let rest = sub_candidates(es, (n - 1) as nat, icon, desc);
        let all = sub_candidates(es, n, icon, desc);
        lemma_entries_wf_at(es, n, parent, n - 1);
        let block = match es[n - 1] {
            EntryView::Directory(d) => dir_candidates(*d, icon, true, desc),
            EntryView::File(_) => Seq::empty(),
        };
        assert(all == rest + block);
        if es[n - 1] is Directory {
            let d = *(es[n - 1]->Directory_0);
            lemma_dir_candidates_apart(d, icon, true, desc);
            assert(join_spec(parent, d.name) =~= base_of(parent) + d.name);
            assert(d.path.len() > 0 && d.path.last() == d.name.last());
            assert(base_of(d.path) =~= base_of(parent) + d.name + seq!['/']);
        }
        assert forall|i: int| 0 <= i < all.len() implies through_entry(
            (#[trigger] all[i]).path,
            parent,
            es,
            n,
            true,
        ) by {
            if i < rest.len() {
                assert(through_entry(rest[i].path, parent, es, (n - 1) as nat, true));
                let k = choose|k: int|
                    0 <= k < n - 1 && k < es.len() && ((#[trigger] es[k]) is Directory) == true
                        && through(rest[i].path, parent, name_of(es[k]), true);
                assert(through(all[i].path, parent, name_of(es[k]), true));
            } else {
                assert(all[i] == block[i - rest.len()]);
                assert(through(all[i].path, parent, name_of(es[n - 1]), true));
            }
        }
        assert forall|i: int, j: int| 0 <= i < j < all.len() implies (#[trigger] all[i]).path != (
        #[trigger] all[j]).path by {
            if j < rest.len() {
                assert(rest[i].path != rest[j].path);
            } else if i >= rest.len() {
                assert(block[i - rest.len()].path != block[j - rest.len()].path);
            } else {
                assert(all[j] == block[j - rest.len()]);
                assert(through_entry(rest[i].path, parent, es, (n - 1) as nat, true));
                let k = choose|k: int|
                    0 <= k < n - 1 && k < es.len() && ((#[trigger] es[k]) is Directory) == true
                        && through(rest[i].path, parent, name_of(es[k]), true);
                lemma_entries_wf_at(es, n, parent, k);
                assert(name_of(es[k]) != name_of(es[n - 1]));
                if all[i].path == all[j].path {
                    assert(through(all[j].path, parent, name_of(es[n - 1]), true));
                    lemma_through_apart(
                        all[j].path,
                        parent,
                        name_of(es[k]),
                        true,
                        name_of(es[n - 1]),
                        true,
                    );
                }
            }
        }
    }
}

/// No two files that a stage finds below a well-formed root have the same
/// path.
pub proof fn lemma_stage_candidates_apart(root: DirView, icon: Seq<char>, stage: int)
    requires
        dir_wf(root),
    ensures
        paths_distinct(stage_candidates(root, icon, stage)),
{
    match stage_scope(root, stage) {
        Some((dir, deep)) => {
            if stage_theme(stage) is Some {
                let es = root.entries->0;
                let at = lemma_subdirectory(es, stage_theme(stage)->0, 0);
                lemma_entries_wf_at(es, es.len(), root.path, at);
            }
            lemma_dir_candidates_apart(dir, icon, deep, stage_seed(stage));
        },
        None => {},
    }
}

/// No root lies in or at another: the text in front of the entries of one
/// root is not the beginning of that of another.
pub open spec fn roots_apart(roots: Seq<DirView>) -> bool {
    forall|a: int, b: int|
        0 <= a < roots.len() && 0 <= b < roots.len() && a != b ==> !base_of(
            (#[trigger] roots[a]).path,
        ).is_prefix_of(base_of((#[trigger] roots[b]).path))
}

/// The path lies below one of the first `n` roots.
pub open spec fn below_root(path: Seq<char>, roots: Seq<DirView>, n: nat) -> bool {
    exists|j: int| 0 <= j < n && j < roots.len() && base_of((#[trigger] roots[j]).path).is_prefix_of(path)
}

/// Of two beginnings of one text the shorter is a beginning of the longer.
proof fn lemma_prefixes(a: Seq<char>, b: Seq<char>, path: Seq<char>)
    requires
        a.is_prefix_of(path),
        b.is_prefix_of(path),
    ensures
        a.is_prefix_of(b) || b.is_prefix_of(a),
{
    if a.len() <= b.len() {
        assert(a =~= b.subrange(0, a.len() as int)) by {
            assert(a =~= path.subrange(0, a.len() as int));
            assert(b =~= path.subrange(0, b.len() as int));
        }
    } else {
        assert(b =~= a.subrange(0, b.len() as int)) by {
            assert(a =~= path.subrange(0, a.len() as int));
            assert(b =~= path.subrange(0, b.len() as int));
        }
    }
}

/// What a stage finds below a well-formed root lies below the root, in
/// the sense that counts the separator.
pub proof fn lemma_stage_below_root(root: DirView, icon: Seq<char>, stage: int, i: int)
    requires
        dir_wf(root),
        0 <= i < stage_candidates(root, icon, stage).len(),
    ensures
        base_of(root.path).is_prefix_of(stage_candidates(root, icon, stage)[i].path),
{
    let (dir, deep) = stage_scope(root, stage)->0;
    if stage_theme(stage) is Some {
        let es = root.entries->0;
        let at = lemma_subdirectory(es, stage_theme(stage)->0, 0);
        lemma_entries_wf_at(es, es.len(), root.path, at);
        lemma_dir_candidates_apart(dir, icon, deep, stage_seed(stage));
        let l = stage_candidates(root, icon, stage)[i];
        assert(join_spec(root.path, dir.name) =~= base_of(root.path) + dir.name);
        assert(base_of(dir.path).is_prefix_of(l.path));
        assert(base_of(root.path) =~= l.path.subrange(0, base_of(root.path).len() as int)) by {
            assert(base_of(dir.path) =~= l.path.subrange(0, base_of(dir.path).len() as int));
            assert(base_of(root.path) =~= dir.path.subrange(0, base_of(root.path).len() as int));
            assert(dir.path =~= base_of(dir.path).subrange(0, dir.path.len() as int));
        }
    } else {
        lemma_dir_candidates_apart(dir, icon, deep, stage_seed(stage));
    }
}

/// No two files that a stage finds below well-formed roots that lie
/// apart have the same path.
pub proof fn lemma_roots_candidates_apart(roots: Seq<DirView>, icon: Seq<char>, stage: int, n: nat)
    requires
        finder_wf(roots),
        roots_apart(roots),
        n <= roots.len(),
    ensures
        paths_distinct(roots_candidates(roots, icon, stage, n)),
        forall|i: int|
            0 <= i < roots_candidates(roots, icon, stage, n).len() ==> below_root(
                (#[trigger] roots_candidates(roots, icon, stage, n)[i]).path,
                roots,
                n,
            ),
    decreases n,
{
    if n > 0 {
        lemma_roots_candidates_apart(roots, icon, stage, (n - 1) as nat);
        let rest = roots_candidates(roots, icon, stage, (n - 1) as nat);
        let block = stage_candidates(roots[n - 1], icon, stage);
        let all = roots_candidates(roots, icon, stage, n);
        lemma_stage_candidates_apart(roots[n - 1], icon, stage);
        assert forall|i: int| 0 <= i < all.len() implies below_root(
            (#[trigger] all[i]).path,
            roots,
            n,
        ) by {
            if i < rest.len() {
                assert(below_root(rest[i].path, roots, (n - 1) as nat));
                let j = choose|j: int|
                    0 <= j < n - 1 && j < roots.len() && base_of(
                        (#[trigger] roots[j]).path,
                    ).is_prefix_of(rest[i].path);
                assert(base_of(roots[j].path).is_prefix_of(all[i].path));
            } else {
                lemma_stage_below_root(roots[n - 1], icon, stage, i - rest.len());
                assert(base_of(roots[n - 1].path).is_prefix_of(all[i].path));
            }
        }
        assert forall|i: int, j: int| 0 <= i < j < all.len() implies (#[trigger] all[i]).path != (
        #[trigger] all[j]).path by {
            if j < rest.len() {
                assert(rest[i].path != rest[j].path);
            } else if i >= rest.len() {
                assert(block[i - rest.len()].path != block[j - rest.len()].path);
            } else {
                assert(below_root(rest[i].path, roots, (n - 1) as nat));
                let k = choose|k: int|
                    0 <= k < n - 1 && k < roots.len() && base_of(
                        (#[trigger] roots[k]).path,
                    ).is_prefix_of(rest[i].path);
                lemma_stage_below_root(roots[n - 1], icon, stage, j - rest.len());
                if all[i].path == all[j].path {
                    lemma_prefixes(base_of(roots[k].path), base_of(roots[n - 1].path), all[i].path);
                }
            }
        }
    }
}

/// What is kept of locations with distinct paths has distinct paths.
pub proof fn lemma_filter_apart(found: Seq<LocationView>, pred: spec_fn(LocationView) -> bool)
    requires
        paths_distinct(found),
    ensures
        paths_distinct(found.filter(pred)),
    decreases found.len(),
{
    reveal(Seq::filter);
    if found.len() > 0 {
        let front = found.drop_last();
        assert forall|i: int, j: int| 0 <= i < j < front.len() implies (#[trigger] front[i]).path != (
        #[trigger] front[j]).path by {
            assert(found[i].path != found[j].path);
        }
        lemma_filter_apart(front, pred);
        let kept = front.filter(pred);
        let all = found.filter(pred);
        if pred(found.last()) {
            assert forall|i: int, j: int| 0 <= i < j < all.len() implies (#[trigger] all[i]).path != (
            #[trigger] all[j]).path by {
                if j < kept.len() {
                    assert(kept[i].path != kept[j].path);
                } else {
                    assert(kept.contains(kept[i]));
                    front.lemma_filter_contains_rev(pred, kept[i]);
                    let k = choose|k: int| 0 <= k < front.len() && front[k] == kept[i];
                    assert(found[k].path != found[found.len() - 1].path);
                }
            }
        }
    }
}

/// No two files that a search over well-formed roots that lie apart hands
/// out have the same path.
pub proof fn lemma_found_apart(roots: Seq<DirView>, icon: Seq<char>, stage: int)
    requires
        finder_wf(roots),
        roots_apart(roots),
    ensures
        find_from(roots, icon, stage) matches FindView::Found(found) ==> paths_distinct(found),
    decreases 4 - stage,
{
    if 0 <= stage < 4 {
        let pending = roots_unresolved(roots, stage, roots.len());
        let all = roots_candidates(roots, icon, stage, roots.len());
        if pending.len() == 0 && all.len() > 0 {
            lemma_roots_candidates_apart(roots, icon, stage, roots.len());
            lemma_filter_apart(all, |l: LocationView| is_exact(l, icon));
        } else if pending.len() == 0 {
            lemma_found_apart(roots, icon, stage + 1);
        }
    }
}

/// A directory that is looked up by name is an entry of that name.
pub proof fn lemma_subdirectory(es: Seq<EntryView>, name: Seq<char>, from: int) -> (at: int)
    requires
        0 <= from,
        subdirectory(es, name, from) is Some,
    ensures
        from <= at < es.len(),
        es[at] == EntryView::Directory(Box::new(subdirectory(es, name, from)->0)),
        subdirectory(es, name, from)->0.name == name,
    decreases es.len() - from,
{
    match es[from] {
        EntryView::Directory(d) => {
            if d.name == name {
                from
            } else {
                lemma_subdirectory(es, name, from + 1)
            }
        },
        _ => lemma_subdirectory(es, name, from + 1),
    }
}

/// What a stage finds below a well-formed root lies below the root, and
/// in a stage that is restricted to a theme below the directory of that
/// theme in the root.
pub proof fn lemma_stage_candidates(root: DirView, icon: Seq<char>, stage: int, i: int)
    requires
        dir_wf(root),
        0 <= i < stage_candidates(root, icon, stage).len(),
    ensures
        found_under(stage_candidates(root, icon, stage)[i], root.path, icon),
        stage_theme(stage) matches Some(theme) ==> join_spec(root.path, theme).is_prefix_of(
            stage_candidates(root, icon, stage)[i].path,
        ),
{
    let l = stage_candidates(root, icon, stage)[i];
    match stage_theme(stage) {
        Some(theme) => {
            let es = root.entries->0;
            let at = lemma_subdirectory(es, theme, 0);
            let d = subdirectory(es, theme, 0)->0;
            lemma_entries_wf_at(es, es.len(), root.path, at);
            lemma_dir_candidates(d, icon, true, stage_seed(stage), i);
            lemma_file_name_of_join(root.path, theme);
            assert(root.path =~= l.path.subrange(0, root.path.len() as int)) by {
                assert(d.path =~= l.path.subrange(0, d.path.len() as int));
                assert(root.path =~= d.path.subrange(0, root.path.len() as int));
            }
        },
        None => {
            lemma_dir_candidates(root, icon, stage == 3, stage_seed(stage), i);
        },
    }
}

/// What a stage finds below well-formed roots lies below one of them.
pub proof fn lemma_roots_candidates(roots: Seq<DirView>, icon: Seq<char>, stage: int, n: nat, i: int)
    requires
        finder_wf(roots),
        n <= roots.len(),
        0 <= i < roots_candidates(roots, icon, stage, n).len(),
    ensures
        found_under_root(roots_candidates(roots, icon, stage, n)[i], roots, icon),
    decreases n,
{
    let rest = roots_candidates(roots, icon, stage, (n - 1) as nat);
    if i < rest.len() {
        lemma_roots_candidates(roots, icon, stage, (n - 1) as nat, i);
    } else {
        lemma_stage_candidates(roots[n - 1], icon, stage, i - rest.len());
        assert(found_under(roots_candidates(roots, icon, stage, n)[i], roots[n - 1].path, icon));
    }
}

/// Every file that a search over well-formed roots hands out lies below
/// one of the roots, has an extension other than `xpm`, and holds the icon
/// name in its stem.
pub proof fn lemma_found(roots: Seq<DirView>, icon: Seq<char>, stage: int, i: int)
    requires
        finder_wf(roots),
        find_from(roots, icon, stage) matches FindView::Found(found) && 0 <= i < found.len(),
    ensures
        found_under_root(find_from(roots, icon, stage)->Found_0[i], roots, icon),
    decreases 4 - stage,
{
    if 0 <= stage < 4 {
        let pending = roots_unresolved(roots, stage, roots.len());
        let all = roots_candidates(roots, icon, stage, roots.len());
        if pending.len() == 0 && all.len() > 0 {
            lemma_exact_filter(all, icon);
            let l = exact_filter(all, icon)[i];
            assert(all.contains(l));
            let k = choose|k: int| 0 <= k < all.len() && all[k] == l;
            lemma_roots_candidates(roots, icon, stage, roots.len(), k);
        } else if pending.len() == 0 {
            lemma_found(roots, icon, stage + 1, i);
        }
    }
}

/// The directories of a fresh listing of the directory at `dir_path` are
/// unresolved, and none of them has the path of that directory.
pub proof fn lemma_listed_fresh(dir_path: Seq<char>, listing: Seq<ListedView>, n: nat, i: int)
    requires
        n <= listing.len(),
        0 <= i < listed_entries(dir_path, listing, n).len(),
    ensures
        listed_entries(dir_path, listing, n)[i] matches EntryView::Directory(d) ==> d.entries is None
            && d.path != dir_path,
    decreases n,
{
    if n > 0 {
        let rest = listed_entries(dir_path, listing, (n - 1) as nat);
        if i < rest.len() {
            lemma_listed_fresh(dir_path, listing, (n - 1) as nat, i);
        } else if crate::path::is_entry_name(listing[n - 1].name) {
            lemma_join_longer(dir_path, listing[n - 1].name);
        }
    }
}

/// Where no directory among the first `n` entries runs into the path
/// `path`, the entries together do not.
pub proof fn lemma_sub_unresolved_without(es: Seq<EntryView>, n: nat, path: Seq<char>)
    requires
        n <= es.len(),
        forall|i: int|
            0 <= i < n ==> ((#[trigger] es[i]) matches EntryView::Directory(d) ==> !dir_unresolved(
                *d,
                true,
            ).contains(path)),
    ensures
        !sub_unresolved(es, n).contains(path),
    decreases n,
{
    if n > 0 {
        lemma_sub_unresolved_without(es, (n - 1) as nat, path);
        let rest = sub_unresolved(es, (n - 1) as nat);
        let last = match es[n - 1] {
            EntryView::Directory(d) => dir_unresolved(*d, true),
            EntryView::File(_) => Seq::empty(),
        };
        assert(!last.contains(path));
        if (rest + last).contains(path) {
            let k = choose|k: int| 0 <= k < (rest + last).len() && (rest + last)[k] == path;
            if k < rest.len() {
                assert(rest[k] == path);
            } else {
                assert(last[k - rest.len()] == path);
            }
        }
    }
}

/// A listing is asked for once: after the listing of the directory at
/// `path` has come in, no search of the tree runs into that path again.
pub proof fn lemma_supplied_clears(dir: DirView, path: Seq<char>, listing: Seq<ListedView>, deep: bool)
    ensures
        !dir_unresolved(supplied(dir, path, listing), deep).contains(path),
    decreases dir,
{
    let after = supplied(dir, path, listing);
    match dir.entries {
        None => {
            if dir.path == path {
                let es = after.entries->0;
                if deep {
                    assert forall|i: int| 0 <= i < es.len() implies ((#[trigger] es[i]) matches EntryView::Directory(
                        d,
                    ) ==> !dir_unresolved(*d, true).contains(path)) by {
                        lemma_listed_fresh(dir.path, listing, listing.len(), i);
                        match es[i] {
                            EntryView::Directory(d) => {
                                assert(dir_unresolved(*d, true) =~= seq![d.path]);
                                if dir_unresolved(*d, true).contains(path) {
                                    assert(dir_unresolved(*d, true)[0] == path);
                                }
                            },
                            EntryView::File(_) => {},
                        }
                    }
                    lemma_sub_unresolved_without(es, es.len(), path);
                }
            } else {
                assert(dir_unresolved(after, deep) =~= seq![dir.path]);
                if dir_unresolved(after, deep).contains(path) {
                    assert(dir_unresolved(after, deep)[0] == path);
                }
            }
        },
        Some(before) => {
            let es = after.entries->0;
            if deep {
                assert forall|i: int| 0 <= i < es.len() implies ((#[trigger] es[i]) matches EntryView::Directory(
                    d,
                ) ==> !dir_unresolved(*d, true).contains(path)) by {
                    assert(es[i] == supplied_entry(before[i], path, listing));
                    match before[i] {
                        EntryView::Directory(d) => {
                            lemma_supplied_clears(*d, path, listing, true);
                        },
                        EntryView::File(_) => {},
                    }
                }
                lemma_sub_unresolved_without(es, es.len(), path);
            }
        },
    }
}

/// Where nothing below the first `n` entries is unresolved, nothing is
/// below any one of them.
pub proof fn lemma_sub_unresolved_empty(es: Seq<EntryView>, n: nat, i: int)
    requires
        n <= es.len(),
        0 <= i < n,
        sub_unresolved(es, n).len() == 0,
    ensures
        es[i] matches EntryView::Directory(d) ==> dir_unresolved(*d, true).len() == 0,
    decreases n,
{
    if i < n - 1 {
        lemma_sub_unresolved_empty(es, (n - 1) as nat, i);
    }
}

/// A directory is listed once: on a tree in which every directory is
/// resolved a listing that comes in changes nothing, whatever its path and
/// content.
pub proof fn lemma_supplied_complete(dir: DirView, path: Seq<char>, listing: Seq<crate::tree::ListedView>)
    requires
        dir_unresolved(dir, true).len() == 0,
    ensures
        supplied(dir, path, listing) == dir,
    decreases dir,
{
    let es = dir.entries->0;
    let after = supplied(dir, path, listing).entries->0;
    assert forall|i: int| 0 <= i < es.len() implies after[i] == es[i] by {
        lemma_sub_unresolved_empty(es, es.len(), i);
        match es[i] {
            EntryView::Directory(d) => {
                lemma_supplied_complete(*d, path, listing);
            },
            EntryView::File(_) => {},
        }
    }
    assert(after =~= es);
}

/// Where some candidate matches the icon name exactly, a search hands out
/// the exact matches and nothing else, in their order; where none does,
/// it hands out every candidate.
pub proof fn lemma_exact_filter(found: Seq<LocationView>, icon: Seq<char>)
    ensures
        any_exact(found, icon) ==> forall|i: int|
            0 <= i < exact_filter(found, icon).len() ==> is_exact(
                #[trigger] exact_filter(found, icon)[i],
                icon,
            ),
        any_exact(found, icon) ==> exact_filter(found, icon).len() > 0,
        !any_exact(found, icon) ==> exact_filter(found, icon) == found,
        forall|i: int|
            0 <= i < found.len() && is_exact(#[trigger] found[i], icon) ==> exact_filter(
                found,
                icon,
            ).contains(found[i]),
        forall|i: int|
            0 <= i < exact_filter(found, icon).len() ==> found.contains(
                #[trigger] exact_filter(found, icon)[i],
            ),
{
    broadcast use vstd::seq_lib::group_filter_ensures;

    let pred = |l: LocationView| is_exact(l, icon);
    if any_exact(found, icon) {
        let w = choose|i: int| 0 <= i < found.len() && is_exact(#[trigger] found[i], icon);
        assert(pred(found[w]));
        assert(found.filter(pred).contains(found[w]));
        assert forall|i: int| 0 <= i < found.filter(pred).len() implies found.contains(
            #[trigger] found.filter(pred)[i],
        ) by {
            assert(found.filter(pred).contains(found.filter(pred)[i]));
            found.lemma_filter_contains_rev(pred, found.filter(pred)[i]);
        }
        assert forall|i: int| 0 <= i < found.filter(pred).len() implies is_exact(
            #[trigger] found.filter(pred)[i],
            icon,
        ) by {
            assert(pred(found.filter(pred)[i]));
        }
    } else {
        assert forall|i: int| 0 <= i < found.len() implies exact_filter(found, icon).contains(
            #[trigger] found[i],
        ) by {
            assert(exact_filter(found, icon)[i] == found[i]);
        }
    }
    assert forall|i: int| 0 <= i < found.len() && is_exact(#[trigger] found[i], icon) implies exact_filter(
        found,
        icon,
    ).contains(found[i]) by {
        assert(pred(found[i]));
    }
}

} // verus!
