//! The choice among the files found for one icon.
//!
//! The best fit for the wanted size wins. Among equally good fits the one
//! with the smaller theme name wins (no theme before any theme), and among
//! those the one whose path comes first, component by component.

use crate::descriptor::{outranks, score_fits, size_score, DescriptorView, IconDescOrd};
use crate::finder::{
    any_exact, find_from, has_exact, locations_view, paths_view, FindStep, FindView, IconFinder,
    IconLocation, LocationView,
};
use crate::tree::DirView;
use crate::path::{is_absolute, is_absolute_spec};
use crate::text::{lemma_lex_strict, lemma_lex_total, lex_less, lex_less_exec, to_chars};
use vstd::prelude::*;

verus! {

/// The size, in pixels, that every icon is rendered to and ranked against.
pub const PREFERRED_ICON_SIZE: u16 = 32;

/// The sort key of a descriptor against the wanted size `target`.
pub open spec fn key_of(d: DescriptorView, target: u16) -> IconDescOrd {
    IconDescOrd { size_score: size_score(d.size, target) as u16, scale: d.scale }
}

/// Theme `a` sorts strictly before theme `b`: no theme before any theme,
/// two themes by their characters.
pub open spec fn theme_less(a: Option<Seq<char>>, b: Option<Seq<char>>) -> bool {
    match (a, b) {
        (None, Some(_)) => true,
        (Some(x), Some(y)) => lex_less(x, y, false),
        _ => false,
    }
}

/// Location `a` is strictly preferred to location `b`.
pub open spec fn better(a: LocationView, b: LocationView, target: u16) -> bool {
    let ka = key_of(a.descriptor, target);
    let kb = key_of(b.descriptor, target);
    ||| outranks(ka, kb)
    ||| (ka == kb && theme_less(a.descriptor.theme, b.descriptor.theme))
    ||| (ka == kb && a.descriptor.theme == b.descriptor.theme && lex_less(a.path, b.path, true))
}

/// No location of `found` is preferred to the one at `at`.
pub open spec fn is_best(found: Seq<LocationView>, at: int, target: u16) -> bool {
    &&& 0 <= at < found.len()
    &&& forall|j: int| 0 <= j < found.len() ==> !better(#[trigger] found[j], found[at], target)
}

/// Every location of `found` has a score that fits.
pub open spec fn all_fit(found: Seq<LocationView>, target: u16) -> bool {
    forall|j: int| 0 <= j < found.len() ==> score_fits((#[trigger] found[j]).descriptor.size, target)
}

/// The file to render for a source that is not an absolute path: the path
/// of a best location, or the source itself, taken as a path, where
/// nothing was found.
pub open spec fn is_choice(path: Seq<char>, source: Seq<char>, found: Seq<LocationView>) -> bool {
    if found.len() == 0 {
        path == source
    } else {
        exists|at: int| is_best(found, at, PREFERRED_ICON_SIZE) && path == (#[trigger] found[at]).path
    }
}

/// What `locate` answers: the directories to list and hand over before
/// asking again, with the stage of the search that waits for them, or the
/// path of the file to render. A located file is `ambiguous` when it was
/// searched for and no file matched the name exactly.
#[derive(Debug)]
pub enum LocateStep {
    Read { paths: Vec<String>, stage: usize },
    Located { path: String, ambiguous: bool },
}

/// Preference is transitive.
pub proof fn lemma_better_transitive(a: LocationView, b: LocationView, c: LocationView, target: u16)
    requires
        better(a, b, target),
        better(b, c, target),
    ensures
        better(a, c, target),
{
    lemma_lex_strict(a.path, b.path, c.path, true);
    if a.descriptor.theme is Some && b.descriptor.theme is Some && c.descriptor.theme is Some {
        lemma_lex_strict(
            a.descriptor.theme->0,
            b.descriptor.theme->0,
            c.descriptor.theme->0,
            false,
        );
    }
}

/// Of two locations that differ in key, theme or path one is preferred to
/// the other, and never both ways.
pub proof fn lemma_better_total(a: LocationView, b: LocationView, target: u16)
    ensures
        better(a, b, target) || better(b, a, target) || (key_of(a.descriptor, target) == key_of(
            b.descriptor,
            target,
        ) && a.descriptor.theme == b.descriptor.theme && a.path == b.path),
        !(better(a, b, target) && better(b, a, target)),
{
    lemma_lex_total(a.path, b.path, true);
    lemma_lex_strict(a.path, b.path, a.path, true);
    if a.descriptor.theme is Some && b.descriptor.theme is Some {
        lemma_lex_total(a.descriptor.theme->0, b.descriptor.theme->0, false);
        lemma_lex_strict(a.descriptor.theme->0, b.descriptor.theme->0, a.descriptor.theme->0, false);
    }
}

/// The choice is determined: any two best locations have the same path,
/// and so the same file is rendered whichever of them is picked.
pub proof fn lemma_best_is_unique(found: Seq<LocationView>, i: int, k: int, target: u16)
    requires
        is_best(found, i, target),
        is_best(found, k, target),
    ensures
        found[i].path == found[k].path,
{
    lemma_better_total(found[i], found[k], target);
}

/// The characters of a theme name, if there is one.
pub open spec fn theme_view(theme: Option<String>) -> Option<Seq<char>> {
    match theme {
        Some(t) => Some(t@),
        None => None,
    }
}

fn theme_before(a: &Option<String>, b: &Option<String>) -> (r: bool)
    ensures
        r == theme_less(theme_view(*a), theme_view(*b)),
{
    match (a, b) {
        (None, Some(_)) => true,
        (Some(x), Some(y)) => {
            let xs = to_chars(x.as_str());
            let ys = to_chars(y.as_str());
            lex_less_exec(&xs, &ys, false)
        },
        _ => false,
    }
}

fn same_theme(a: &Option<String>, b: &Option<String>) -> (r: bool)
    ensures
        r == (theme_view(*a) == theme_view(*b)),
{
    match (a, b) {
        (None, None) => true,
        (Some(x), Some(y)) => *x == *y,
        _ => false,
    }
}

/// Whether location `a` is strictly preferred to location `b`.
pub fn is_better(a: &IconLocation, b: &IconLocation, target: u16) -> (r: bool)
    requires
        score_fits(a.descriptor.size, target),
        score_fits(b.descriptor.size, target),
    ensures
        r == better(a@, b@, target),
{
    let ka = a.descriptor.ord(target);
    let kb = b.descriptor.ord(target);
    assert(ka == key_of(a@.descriptor, target));
    assert(kb == key_of(b@.descriptor, target));
    if ka.size_score != kb.size_score {
        return ka.size_score > kb.size_score;
    }
    if ka.scale != kb.scale {
        return ka.scale > kb.scale;
    }
    if theme_before(&a.descriptor.theme, &b.descriptor.theme) {
        return true;
    }
    if !same_theme(&a.descriptor.theme, &b.descriptor.theme) {
        return false;
    }
    let pa = to_chars(a.path.as_str());
    let pb = to_chars(b.path.as_str());
    lex_less_exec(&pa, &pb, true)
}

/// The position of the first best location for the wanted size `target`;
/// none where nothing was found.
pub fn select_best(found: &Vec<IconLocation>, target: u16) -> (r: Option<usize>)
    requires
        all_fit(locations_view(found@), target),
    ensures
        match r {
            Some(at) => {
                &&& is_best(locations_view(found@), at as int, target)
                &&& forall|j: int|
                    0 <= j < at ==> better(
                        locations_view(found@)[at as int],
                        #[trigger] locations_view(found@)[j],
                        target,
                    )
            },
            None => found@.len() == 0,
        },
{
    if found.len() == 0 {
        return None;
    }
    let ghost all = locations_view(found@);
    let mut best: usize = 0;
    let mut k: usize = 1;
    proof {
        lemma_better_total(all[0], all[0], target);
    }
    while k < found.len()
        invariant
            1 <= k <= found.len(),
            best < k,
            all == locations_view(found@),
            all_fit(all, target),
            forall|j: int| 0 <= j < k ==> !better(#[trigger] all[j], all[best as int], target),
            forall|j: int| 0 <= j < best ==> better(all[best as int], #[trigger] all[j], target),
        decreases found.len() - k,
    {
        assert(all[k as int] == found@[k as int]@);
        assert(all[best as int] == found@[best as int]@);
        if is_better(&found[k], &found[best], target) {
            proof {
                assert forall|j: int| 0 <= j < k + 1 implies !better(
                    #[trigger] all[j],
                    all[k as int],
                    target,
                ) by {
                    if better(all[j], all[k as int], target) {
                        lemma_better_total(all[k as int], all[k as int], target);
                        lemma_better_transitive(all[j], all[k as int], all[best as int], target);
                    }
                }
                assert forall|j: int| 0 <= j < k implies better(
                    all[k as int],
                    #[trigger] all[j],
                    target,
                ) by {
                    lemma_better_total(all[j], all[best as int], target);
                    if j != best {
                        if better(all[best as int], all[j], target) {
                            lemma_better_transitive(all[k as int], all[best as int], all[j], target);
                        }
                    }
                }
            }
            best = k;
        }
        k += 1;
    }
    Some(best)
}

/// The file to render for a source that is not an absolute path, given
/// what the search found for it.
pub fn choose_icon_path(source: &str, found: &Vec<IconLocation>) -> (r: String)
    ensures
        is_choice(r@, source@, locations_view(found@)),
{
    assert(all_fit(locations_view(found@), PREFERRED_ICON_SIZE));
    match select_best(found, PREFERRED_ICON_SIZE) {
        Some(at) => {
            assert(locations_view(found@)[at as int] == found@[at as int]@);
            found[at].path.clone()
        },
        None => source.to_owned(),
    }
}

/// What `locate` answers for a source over the given roots: an absolute
/// path is taken as it is, without a search; any other source is searched
/// for as an icon name.
pub open spec fn is_located(step: LocateStep, source: Seq<char>, roots: Seq<DirView>) -> bool {
    if is_absolute_spec(source) {
        step matches LocateStep::Located { path, ambiguous } && path@ == source && !ambiguous
    } else {
        match find_from(roots, source, 0) {
            FindView::Read { paths, stage } => {
                &&& step matches LocateStep::Read { paths: asked, stage: waiting }
                &&& paths_view(asked@) == paths
                &&& waiting == stage
            },
            FindView::Found(found) => {
                &&& step matches LocateStep::Located { path, ambiguous }
                &&& is_choice(path@, source, found)
                &&& ambiguous == !any_exact(found, source)
            },
        }
    }
}

impl IconFinder {
    /// The file to render for the icon source `source`, or the directories
    /// that are to be listed before that can be told.
    pub fn locate(&self, source: &str) -> (r: LocateStep)
        ensures
            is_located(r, source@, self@),
    {
        if is_absolute(source) {
            return LocateStep::Located { path: source.to_owned(), ambiguous: false };
        }
        match self.find(source) {
            FindStep::Read { paths, stage } => LocateStep::Read { paths, stage },
            FindStep::Found(found) => LocateStep::Located {
                path: choose_icon_path(source, &found),
                ambiguous: !has_exact(&found, source),
            },
        }
    }
}

} // verus!
