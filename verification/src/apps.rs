//! Applications as the launcher knows them, and how the entries of their
//! desktop files become applications.

use crate::digest::{base64_standard, base64_text, sha256, sha256_digest};
use crate::text::{split, split_spec};
use vstd::prelude::*;
use vstd::string::StringSliceAdditionalSpecFns;

verus! {

/// The stable identity of an application: a digest of its name, comment,
/// icon, generic name and keywords, as text.
#[derive(PartialEq, Eq, PartialOrd, Ord, Hash, Debug, Default)]
pub struct AppId(pub String);

impl View for AppId {
    type V = Seq<char>;

    open spec fn view(&self) -> Seq<char> {
        self.0@
    }
}

impl Clone for AppId {
    fn clone(&self) -> (r: Self)
        ensures
            r == *self,
    {
        AppId(self.0.clone())
    }
}

impl AppId {
    /// Whether two identities are the same.
    pub fn same(&self, other: &AppId) -> (r: bool)
        ensures
            r == (self@ == other@),
    {
        self.0 == other.0
    }
}

/// An application that can be launched.
#[derive(PartialEq, Eq, Debug)]
pub struct App {
    pub id: AppId,
    /// Path of the desktop file that describes the application.
    pub path: String,
    pub name: String,
    /// The command line that starts the application.
    pub command: String,
    /// Where the icon comes from: a bare name, a name relative to a theme,
    /// or an absolute path.
    pub icon: Option<String>,
    pub comment: Option<String>,
    pub generic_name: Option<String>,
    pub keywords: Option<String>,
    pub categories: Option<Vec<String>>,
    pub terminal: bool,
}

/// The mathematical content of an `App`.
pub struct AppView {
    pub id: Seq<char>,
    pub path: Seq<char>,
    pub name: Seq<char>,
    pub command: Seq<char>,
    pub icon: Option<Seq<char>>,
    pub comment: Option<Seq<char>>,
    pub generic_name: Option<Seq<char>>,
    pub keywords: Option<Seq<char>>,
    pub categories: Option<Seq<Seq<char>>>,
    pub terminal: bool,
}

pub open spec fn text_view(text: Option<String>) -> Option<Seq<char>> {
    match text {
        Some(t) => Some(t@),
        None => None,
    }
}

pub open spec fn texts_view(texts: Seq<String>) -> Seq<Seq<char>> {
    Seq::new(texts.len(), |i: int| texts[i]@)
}

impl View for App {
    type V = AppView;

    open spec fn view(&self) -> AppView {
        AppView {
            id: self.id@,
            path: self.path@,
            name: self.name@,
            command: self.command@,
            icon: text_view(self.icon),
            comment: text_view(self.comment),
            generic_name: text_view(self.generic_name),
            keywords: text_view(self.keywords),
            categories: match self.categories {
                Some(c) => Some(texts_view(c@)),
                None => None,
            },
            terminal: self.terminal,
        }
    }
}

/// The keys and values of one section of a desktop file, in the order of
/// the file.
#[derive(Debug)]
pub struct Properties {
    pub entries: Vec<(String, String)>,
}

impl View for Properties {
    type V = Seq<(Seq<char>, Seq<char>)>;

    open spec fn view(&self) -> Seq<(Seq<char>, Seq<char>)> {
        Seq::new(self.entries@.len(), |i: int| (self.entries@[i].0@, self.entries@[i].1@))
    }
}

/// The first value of a key among the entries at `from` and later.
pub open spec fn value_of(entries: Seq<(Seq<char>, Seq<char>)>, key: Seq<char>, from: int) -> Option<
    Seq<char>,
>
    decreases entries.len() - from,
{
    if from < 0 || from >= entries.len() {
        None
    } else if entries[from].0 == key {
        Some(entries[from].1)
    } else {
        value_of(entries, key, from + 1)
    }
}

/// A key is set if its first value is `true`.
pub open spec fn is_set(entries: Seq<(Seq<char>, Seq<char>)>, key: Seq<char>) -> bool {
    value_of(entries, key, 0) == Some("true"@)
}

/// The bytes of a text, or none where there is no text.
pub open spec fn text_bytes(text: Option<Seq<char>>) -> Seq<u8> {
    match text {
        Some(t) => vstd::utf8::encode_utf8(t),
        None => Seq::empty(),
    }
}

/// The identity of an application: the digest of its name, comment, icon,
/// generic name and keywords one after the other, in base64.
pub open spec fn app_id_of(
    name: Seq<char>,
    comment: Option<Seq<char>>,
    icon: Option<Seq<char>>,
    generic_name: Option<Seq<char>>,
    keywords: Option<Seq<char>>,
) -> Seq<char> {
    base64_text(
        sha256_digest(
            vstd::utf8::encode_utf8(name) + text_bytes(comment) + text_bytes(icon) + text_bytes(
                generic_name,
            ) + text_bytes(keywords),
        ),
    )
}

/// Why the entries of a desktop file are no application.
#[derive(PartialEq, Eq, Debug)]
pub enum ParseError {
    /// The entries have no `Name`.
    NoName,
}

/// The application that the entries of the desktop file at `path` stand
/// for. Entries that are not to be shown (`NoDisplay` is `true`) stand for
/// none; entries without `Name` are an error; entries without `Exec`
/// stand for none.
pub open spec fn parsed(path: Seq<char>, entries: Seq<(Seq<char>, Seq<char>)>) -> Result<
    Option<AppView>,
    ParseError,
> {
    if is_set(entries, "NoDisplay"@) {
        Ok(None)
    } else if value_of(entries, "Name"@, 0) is None {
        Err(ParseError::NoName)
    } else if value_of(entries, "Exec"@, 0) is None {
        Ok(None)
    } else {
        let name = value_of(entries, "Name"@, 0)->0;
        let comment = value_of(entries, "Comment"@, 0);
        let icon = value_of(entries, "Icon"@, 0);
        let generic_name = value_of(entries, "GenericName"@, 0);
        let keywords = value_of(entries, "Keywords"@, 0);
        Ok(
            Some(
                AppView {
                    id: app_id_of(name, comment, icon, generic_name, keywords),
                    path,
                    name,
                    command: value_of(entries, "Exec"@, 0)->0,
                    icon,
                    comment,
                    generic_name,
                    keywords,
                    categories: match value_of(entries, "Categories"@, 0) {
                        Some(c) => Some(split_spec(c, ';')),
                        None => None,
                    },
                    terminal: is_set(entries, "Terminal"@),
                },
            ),
        )
    }
}

impl Properties {
    /// The first value of a key.
    pub fn get(&self, key: &str) -> (r: Option<&String>)
        ensures
            text_view(
                match r {
                    Some(v) => Some(*v),
                    None => None,
                },
            ) == value_of(self@, key@, 0),
    {
        let wanted: String = key.to_owned();
        let mut i: usize = 0;
        while i < self.entries.len()
            invariant
                i <= self.entries.len(),
                wanted@ == key@,
                value_of(self@, key@, 0) == value_of(self@, key@, i as int),
            decreases self.entries.len() - i,
        {
            if self.entries[i].0 == wanted {
                return Some(&self.entries[i].1);
            }
            i += 1;
        }
        None
    }

    /// Whether the first value of a key is `true`.
    pub fn is_set(&self, key: &str) -> (r: bool)
        ensures
            r == is_set(self@, key@),
    {
        match self.get(key) {
            Some(value) => {
                let yes: String = "true".to_owned();
                *value == yes
            },
            None => false,
        }
    }
}

fn push_text(out: &mut Vec<u8>, text: &Option<String>)
    ensures
        final(out)@ == old(out)@ + text_bytes(text_view(*text)),
{
    match text {
        Some(t) => {
            out.extend_from_slice(t.as_str().as_bytes());
        },
        None => {
            assert(out@ =~= old(out)@ + Seq::<u8>::empty());
        },
    }
}

fn cloned_text(text: Option<&String>) -> (r: Option<String>)
    ensures
        text_view(r) == text_view(
            match text {
                Some(t) => Some(*t),
                None => None,
            },
        ),
{
    match text {
        Some(t) => Some(t.clone()),
        None => None,
    }
}

impl App {
    /// The identity of an application with these texts.
    pub fn make_id(
        name: &str,
        comment: &Option<String>,
        icon: &Option<String>,
        generic_name: &Option<String>,
        keywords: &Option<String>,
    ) -> (r: AppId)
        ensures
            r@ == app_id_of(
                name@,
                text_view(*comment),
                text_view(*icon),
                text_view(*generic_name),
                text_view(*keywords),
            ),
    {
        let mut data: Vec<u8> = Vec::new();
        data.extend_from_slice(name.as_bytes());
        assert(data@ =~= vstd::utf8::encode_utf8(name@));
        push_text(&mut data, comment);
        push_text(&mut data, icon);
        push_text(&mut data, generic_name);
        push_text(&mut data, keywords);
        let digest = sha256(data.as_slice());
        AppId(base64_standard(digest.as_slice()))
    }

    /// The application that the entries of the desktop file at `path`
    /// stand for.
    pub fn parse(path: String, properties: &Properties) -> (r: Result<Option<App>, ParseError>)
        ensures
            match parsed(path@, properties@) {
                Ok(Some(app)) => r matches Ok(Some(a)) && a@ == app,
                Ok(None) => r matches Ok(None),
                Err(e) => r == Err::<Option<App>, ParseError>(e),
            },
    {
        if properties.is_set("NoDisplay") {
            return Ok(None);
        }
        let terminal = properties.is_set("Terminal");
        let name = match properties.get("Name") {
            Some(name) => name.clone(),
            None => {
                return Err(ParseError::NoName);
            },
        };
        let comment = cloned_text(properties.get("Comment"));
        let icon = cloned_text(properties.get("Icon"));
        let generic_name = cloned_text(properties.get("GenericName"));
        let keywords = cloned_text(properties.get("Keywords"));
        let command = match properties.get("Exec") {
            Some(command) => command.clone(),
            None => {
                return Ok(None);
            },
        };
        let categories = match properties.get("Categories") {
            Some(list) => Some(split(list.as_str(), ';')),
            None => None,
        };
        let id = App::make_id(name.as_str(), &comment, &icon, &generic_name, &keywords);
        Ok(
            Some(
                App {
                    id,
                    path,
                    name,
                    command,
                    icon,
                    comment,
                    generic_name,
                    keywords,
                    categories,
                    terminal,
                },
            ),
        )
    }

    /// Whether the application ranks lower in a search: one that runs in a
    /// terminal, or one of the category `Settings`.
    pub fn is_penalized(&self) -> (r: bool)
        ensures
            r == (self.terminal || (self@.categories matches Some(c) && c.contains("Settings"@))),
    {
        if self.terminal {
            return true;
        }
        match &self.categories {
            Some(categories) => {
                let wanted: String = "Settings".to_owned();
                let mut i: usize = 0;
                while i < categories.len()
                    invariant
                        i <= categories.len(),
                        wanted@ == "Settings"@,
                        !self.terminal,
                        self.categories == Some(*categories),
                        forall|j: int| 0 <= j < i ==> texts_view(categories@)[j] != "Settings"@,
                    decreases categories.len() - i,
                {
                    if categories[i] == wanted {
                        assert(texts_view(categories@)[i as int] == "Settings"@);
                        assert(texts_view(categories@).contains("Settings"@));
                        return true;
                    }
                    i += 1;
                }
                false
            },
            None => false,
        }
    }
}

/// The applications of the system, each identity once.
#[derive(Debug)]
pub struct AppManager {
    pub applications: Vec<App>,
}

pub open spec fn apps_view(apps: Seq<App>) -> Seq<AppView> {
    Seq::new(apps.len(), |i: int| apps[i]@)
}

/// The position of the first application with the identity `id` at `from`
/// or later; the length of the list if there is none.
pub open spec fn position_of(apps: Seq<AppView>, id: Seq<char>, from: int) -> int
    decreases apps.len() - from,
{
    if from < 0 || from >= apps.len() {
        apps.len() as int
    } else if apps[from].id == id {
        from
    } else {
        position_of(apps, id, from + 1)
    }
}

impl AppManager {
    /// No applications.
    pub fn new() -> (r: AppManager)
        ensures
            r.applications@.len() == 0,
    {
        AppManager { applications: Vec::new() }
    }

    /// The position of the application with an identity.
    pub fn position(&self, id: &AppId) -> (r: Option<usize>)
        ensures
            match r {
                Some(i) => i == position_of(apps_view(self.applications@), id@, 0) && i
                    < self.applications@.len() && self.applications@[i as int].id@ == id@,
                None => position_of(apps_view(self.applications@), id@, 0)
                    == self.applications@.len(),
            },
    {
        let mut i: usize = 0;
        while i < self.applications.len()
            invariant
                i <= self.applications.len(),
                position_of(apps_view(self.applications@), id@, 0) == position_of(
                    apps_view(self.applications@),
                    id@,
                    i as int,
                ),
            decreases self.applications.len() - i,
        {
            if self.applications[i].id.same(id) {
                return Some(i);
            }
            i += 1;
        }
        None
    }

    /// The application with an identity.
    pub fn get(&self, id: &AppId) -> (r: Option<&App>)
        ensures
            match r {
                Some(app) => {
                    &&& position_of(apps_view(self.applications@), id@, 0) < self.applications@.len()
                    &&& *app == self.applications@[position_of(
                        apps_view(self.applications@),
                        id@,
                        0,
                    )]
                    &&& app.id@ == id@
                },
                None => position_of(apps_view(self.applications@), id@, 0)
                    == self.applications@.len(),
            },
    {
        match self.position(id) {
            Some(i) => Some(&self.applications[i]),
            None => None,
        }
    }

    /// Takes in an application: in place of the one with the same
    /// identity, or at the end.
    pub fn insert(&mut self, app: App)
        ensures
            ({
                let before = apps_view(old(self).applications@);
                let at = position_of(before, app.id@, 0);
                apps_view(final(self).applications@) == if at < before.len() {
                    before.update(at, app@)
                } else {
                    before.push(app@)
                }
            }),
    {
        let ghost before = apps_view(self.applications@);
        match self.position(&app.id) {
            Some(i) => {
                self.applications.set(i, app);
                assert(apps_view(self.applications@) =~= before.update(i as int, app@));
            },
            None => {
                self.applications.push(app);
                assert(apps_view(self.applications@) =~= before.push(app@));
            },
        }
    }
}

} // verus!
