//! The project hub: the open project, the choices of a start, and the workspace of a project.

use vstd::prelude::*;
use vstd::string::*;

use crate::paths::{are_same_path, join_path, joined, path_pieces, pieces, same_path};
use crate::text::{
    ascending, chars_of, concat, insert_ascending, join, join_texts,
    lemma_split_join, split, split_text, string_between, texts, trim_text, trimmed,
};

verus! {

/// How many recent projects are remembered.
pub const MAX_RECENT_PROJECTS: usize = 10;

/// The file with the path of the last project.
pub const LAST_PROJECT_KEY: &'static str = "project_path";

/// The file with the paths of recent projects, one in a line.
pub const RECENT_PROJECTS_KEY: &'static str = "recent_projects";

/// The file of a project.
pub const PROJECT_FILE_NAME: &'static str = "modproject.json";

/// The open project.
#[derive(Debug, Clone, PartialEq, Eq)]
pub struct CurrentProject {
    /// Where it is saved; none when it was never saved.
    pub path: Option<String>,
    /// Whether there are edits since it was saved or loaded.
    pub dirty: bool,
    pub name: String,
}

impl CurrentProject {
    /// A project without a path, a name or edits.
    pub fn new() -> (r: CurrentProject)
        ensures
            r.path is None,
            !r.dirty,
            r.name@.len() == 0,
    {
        CurrentProject { path: None, dirty: false, name: String::new() }
    }

    /// A project that stands at a path.
    pub fn with_path(path: String, name: String) -> (r: CurrentProject)
        ensures
            r == (CurrentProject { path: Some(path), dirty: false, name }),
    {
        CurrentProject { path: Some(path), dirty: false, name }
    }

    /// Whether the project was ever saved.
    pub fn has_path(&self) -> (r: bool)
        ensures
            r == self.path is Some,
    {
        self.path.is_some()
    }

    /// Whether there are unsaved edits.
    pub fn is_dirty(&self) -> (r: bool)
        ensures
            r == self.dirty,
    {
        self.dirty
    }

    /// Takes note of an edit.
    pub fn mark_dirty(&mut self)
        ensures
            *final(self) == (CurrentProject { dirty: true, ..*old(self) }),
    {
        self.dirty = true;
    }

    /// Takes note that the project was saved at a path.
    pub fn mark_saved(&mut self, path: String)
        ensures
            *final(self) == (CurrentProject { path: Some(path), dirty: false, ..*old(self) }),
    {
        self.path = Some(path);
        self.dirty = false;
    }

    /// Takes note that another project was loaded.
    pub fn mark_loaded(&mut self, path: Option<String>, name: String)
        ensures
            *final(self) == (CurrentProject { path, dirty: false, name }),
    {
        self.path = path;
        self.name = name;
        self.dirty = false;
    }

    /// Takes note that there is nothing to save.
    pub fn mark_clean(&mut self)
        ensures
            *final(self) == (CurrentProject { dirty: false, ..*old(self) }),
    {
        self.dirty = false;
    }

    /// Whether saving has to ask where to.
    pub fn needs_save_as(&self) -> (r: bool)
        ensures
            r == self.path is None,
    {
        self.path.is_none()
    }

    /// Whether switching to another project has to warn.
    pub fn needs_warning(&self) -> (r: bool)
        ensures
            r == self.dirty,
    {
        self.dirty
    }
}

/// What the hub can do.
#[derive(Debug, Clone, PartialEq, Eq)]
pub enum HubAction {
    /// Open the last project again.
    ResumeLast(String),
    /// Start empty in a folder.
    New(String),
    /// Open a project file.
    Open(String),
    /// Import a mod folder as a project.
    ImportMod(String),
    /// Open a recent project again.
    OpenRecent(String),
    /// Go on without a project.
    BrowseWithoutProject,
}

impl HubAction {
    /// Whether the action replaces the edits in memory. All do but going on without a project.
    pub fn discards_edits(&self) -> (r: bool)
        ensures
            r == !(self is BrowseWithoutProject),
    {
        match self {
            HubAction::BrowseWithoutProject => false,
            _ => true,
        }
    }

    /// The action in words.
    pub fn label(&self) -> (r: String)
        ensures
            r@ == match *self {
                HubAction::ResumeLast(path) => "Resume "@ + path@,
                HubAction::New(path) => "New project at "@ + path@,
                HubAction::Open(path) => "Open "@ + path@,
                HubAction::ImportMod(path) => "Import "@ + path@,
                HubAction::OpenRecent(path) => "Open "@ + path@,
                HubAction::BrowseWithoutProject => "Browse without project"@,
            },
    {
        match self {
            HubAction::ResumeLast(path) => concat("Resume ", path.as_str()),
            HubAction::New(path) => concat("New project at ", path.as_str()),
            HubAction::Open(path) => concat("Open ", path.as_str()),
            HubAction::ImportMod(path) => concat("Import ", path.as_str()),
            HubAction::OpenRecent(path) => concat("Open ", path.as_str()),
            HubAction::BrowseWithoutProject => "Browse without project".to_owned(),
        }
    }
}

/// Whether an action has to warn first: there are unsaved edits, and it would discard them.
pub fn needs_hub_warning(dirty: bool, action: &HubAction) -> (r: bool)
    ensures
        r == (dirty && !(action is BrowseWithoutProject)),
{
    dirty && action.discards_edits()
}

/// One row of the hub.
#[derive(Debug, Clone, PartialEq, Eq)]
pub enum HubChoice {
    ResumeLast(String),
    New,
    Open,
    ImportMod,
    Recent(String),
    BrowseWithoutProject,
}

/// A row, with its path as characters.
pub enum ChoiceView {
    ResumeLast(Seq<char>),
    New,
    Open,
    ImportMod,
    Recent(Seq<char>),
    BrowseWithoutProject,
}

impl View for HubChoice {
    type V = ChoiceView;

    open spec fn view(&self) -> ChoiceView {
        match *self {
            HubChoice::ResumeLast(path) => ChoiceView::ResumeLast(path@),
            HubChoice::New => ChoiceView::New,
            HubChoice::Open => ChoiceView::Open,
            HubChoice::ImportMod => ChoiceView::ImportMod,
            HubChoice::Recent(path) => ChoiceView::Recent(path@),
            HubChoice::BrowseWithoutProject => ChoiceView::BrowseWithoutProject,
        }
    }
}

impl HubChoice {
    /// The title of the row.
    pub fn title(&self) -> (r: &'static str)
        ensures
            r@ == match *self {
                HubChoice::ResumeLast(_) => "Resume last"@,
                HubChoice::New => "New"@,
                HubChoice::Open => "Open"@,
                HubChoice::ImportMod => "Import mod"@,
                HubChoice::Recent(_) => "Recent"@,
                HubChoice::BrowseWithoutProject => "Browse without project"@,
            },
    {
        match self {
            HubChoice::ResumeLast(_) => "Resume last",
            HubChoice::New => "New",
            HubChoice::Open => "Open",
            HubChoice::ImportMod => "Import mod",
            HubChoice::Recent(_) => "Recent",
            HubChoice::BrowseWithoutProject => "Browse without project",
        }
    }
}

/// The rows of a list, with their paths as characters.
pub open spec fn choice_views(list: Seq<HubChoice>) -> Seq<ChoiceView> {
    list.map_values(|choice: HubChoice| choice@)
}

/// The state of the hub.
#[derive(Debug, Clone)]
pub struct HubState {
    /// Whether the hub is shown.
    pub show: bool,
    /// The last project, if it is still there.
    pub last: Option<String>,
    /// The recent projects that are still there, the latest first.
    pub recent: Vec<String>,
}

/// The texts of a list whose flags are set.
pub open spec fn flagged(list: Seq<Seq<char>>, flags: Seq<bool>) -> Seq<Seq<char>>
    decreases list.len(),
{
    if list.len() == 0 {
        Seq::empty()
    } else {
        let front = flagged(list.drop_last(), flags);
        if flags[list.len() - 1] {
            front.push(list.last())
        } else {
            front
        }
    }
}

/// The rows for recent projects, but for the last one, which has a row of its own.
pub open spec fn recent_rows(recent: Seq<Seq<char>>, last: Option<String>) -> Seq<ChoiceView>
    decreases recent.len(),
{
    if recent.len() == 0 {
        Seq::empty()
    } else {
        let front = recent_rows(recent.drop_last(), last);
        if last matches Some(last) && same_path(recent.last(), last@) {
            front
        } else {
            front.push(ChoiceView::Recent(recent.last()))
        }
    }
}

/// The rows before those for recent projects.
pub open spec fn first_rows(last: Option<String>) -> Seq<ChoiceView> {
    (match last {
        Some(last) => seq![ChoiceView::ResumeLast(last@)],
        None => Seq::empty(),
    }) + seq![ChoiceView::New, ChoiceView::Open, ChoiceView::ImportMod]
}

/// The rows of the hub.
pub open spec fn hub_rows(last: Option<String>, recent: Seq<Seq<char>>) -> Seq<ChoiceView> {
    first_rows(last) + recent_rows(recent, last) + seq![ChoiceView::BrowseWithoutProject]
}

impl HubState {
    /// The hub at a start. Projects that are no longer there are dropped; the flags say which are.
    pub fn cold_start(
        last: Option<String>,
        last_is_file: bool,
        recent: &Vec<String>,
        recent_is_file: &Vec<bool>,
    ) -> (r: HubState)
        requires
            recent@.len() == recent_is_file@.len(),
        ensures
            r.show,
            r.last == if last_is_file {
                last
            } else {
                None
            },
            texts(r.recent@) == flagged(texts(recent@), recent_is_file@),
    {
        let mut kept: Vec<String> = Vec::new();
        let mut i: usize = 0;
        let ghost all = texts(recent@);
        assert(all.take(0) =~= Seq::empty());
        assert(texts(kept@) =~= Seq::empty());
        while i < recent.len()
            invariant
                i <= recent.len(),
                recent@.len() == recent_is_file@.len(),
                all == texts(recent@),
                texts(kept@) == flagged(all.take(i as int), recent_is_file@),
            decreases recent.len() - i,
        {
            let ghost was = texts(kept@);
            assert(all.take(i + 1).drop_last() =~= all.take(i as int));
            assert(all.take(i + 1).last() == recent@[i as int]@);
            if recent_is_file[i] {
                kept.push(recent[i].clone());
                assert(texts(kept@) =~= was.push(recent@[i as int]@));
            }
            i = i + 1;
        }
        assert(all.take(all.len() as int) =~= all);
        let last = if last_is_file {
            last
        } else {
            None
        };
        HubState { show: true, last, recent: kept }
    }

    /// The rows of the hub, in order. The last project is not listed twice.
    pub fn choices(&self) -> (r: Vec<HubChoice>)
        ensures
            choice_views(r@) == hub_rows(self.last, texts(self.recent@)),
    {
        let mut r: Vec<HubChoice> = Vec::new();
        if let Some(last) = &self.last {
            r.push(HubChoice::ResumeLast(last.clone()));
        }
        r.push(HubChoice::New);
        r.push(HubChoice::Open);
        r.push(HubChoice::ImportMod);
        let ghost first = first_rows(self.last);
        assert(choice_views(r@) =~= first);
        let ghost all = texts(self.recent@);
        let mut i: usize = 0;
        assert(all.take(0) =~= Seq::empty());
        assert(choice_views(r@) =~= first + recent_rows(all.take(0), self.last));
        while i < self.recent.len()
            invariant
                i <= self.recent@.len(),
                all == texts(self.recent@),
                choice_views(r@) == first + recent_rows(all.take(i as int), self.last),
            decreases self.recent.len() - i,
        {
            let ghost was = choice_views(r@);
            assert(all.take(i + 1).drop_last() =~= all.take(i as int));
            assert(all.take(i + 1).last() == self.recent@[i as int]@);
            let is_last = match &self.last {
                Some(last) => are_same_path(self.recent[i].as_str(), last.as_str()),
                None => false,
            };
            if !is_last {
                r.push(HubChoice::Recent(self.recent[i].clone()));
                assert(choice_views(r@) =~= was.push(
                    ChoiceView::Recent(self.recent@[i as int]@),
                ));
            }
            assert(choice_views(r@) =~= first + recent_rows(all.take(i + 1), self.last));
            i = i + 1;
        }
        assert(all.take(all.len() as int) =~= all);
        r.push(HubChoice::BrowseWithoutProject);
        assert(choice_views(r@) =~= hub_rows(self.last, texts(self.recent@)));
        r
    }
}

/// The hub can always start a project, open one, import one, and go on without one; and the last
/// project is offered once.
pub proof fn law_the_hub_always_offers_a_start(last: Option<String>, recent: Seq<Seq<char>>)
    ensures
        hub_rows(last, recent).contains(ChoiceView::New),
        hub_rows(last, recent).contains(ChoiceView::Open),
        hub_rows(last, recent).contains(ChoiceView::ImportMod),
        hub_rows(last, recent).last() == ChoiceView::BrowseWithoutProject,
        last matches Some(path) ==> hub_rows(last, recent)[0] == ChoiceView::ResumeLast(path@)
            && forall|p: Seq<char>| #[trigger]
            hub_rows(last, recent).contains(ChoiceView::Recent(p)) ==> !same_path(p, path@),
{
    let rows = hub_rows(last, recent);
    let k: int = if last is Some {
        1
    } else {
        0
    };
    assert(rows[k] == ChoiceView::New);
    assert(rows[k + 1] == ChoiceView::Open);
    assert(rows[k + 2] == ChoiceView::ImportMod);
    if last is Some {
        lemma_recent_rows(recent, last);
        assert forall|p: Seq<char>| #[trigger] rows.contains(ChoiceView::Recent(p)) implies
            !same_path(p, last->0@) by {
            let i = rows.index_of(ChoiceView::Recent(p));
            let listed = recent_rows(recent, last);
            assert(rows[i] == ChoiceView::Recent(p));
            if i >= 4 && i < 4 + listed.len() {
                assert(listed[i - 4] == ChoiceView::Recent(p));
            }
        }
    }
}

proof fn lemma_recent_rows(recent: Seq<Seq<char>>, last: Option<String>)
    requires
        last is Some,
    ensures
        forall|i: int|
            0 <= i < recent_rows(recent, last).len() ==> (#[trigger] recent_rows(
                recent,
                last,
            )[i] matches ChoiceView::Recent(p) && !same_path(p, last->0@)),
    decreases recent.len(),
{
    if recent.len() > 0 {
        lemma_recent_rows(recent.drop_last(), last);
    }
}

/// The last project, as its file names it: the text without white space at its ends, unless that
/// leaves nothing.
pub fn load_last_project(body: Option<&str>) -> (r: Option<String>)
    ensures
        match r {
            Some(path) => body matches Some(text) && path@ == trimmed(text@) && path@.len() > 0,
            None => body matches Some(text) ==> trimmed(text@).len() == 0,
        },
{
    match body {
        Some(text) => {
            let path = trim_text(text);
            if path.as_str().is_empty() {
                None
            } else {
                Some(path)
            }
        },
        None => None,
    }
}

/// A line without the carriage return it ends with, where it has one.
pub open spec fn bare_line(line: Seq<char>) -> Seq<char> {
    if line.len() > 0 && line.last() == '\r' {
        line.drop_last()
    } else {
        line
    }
}

/// The paths of a list of lines: each without white space at its ends, and none that is empty. The
/// last of the `all` lines of a text has no line end, so that it keeps its carriage return.
pub open spec fn paths_in(lines: Seq<Seq<char>>, all: nat) -> Seq<Seq<char>>
    decreases lines.len(),
{
    if lines.len() == 0 {
        Seq::empty()
    } else {
        let front = paths_in(lines.drop_last(), all);
        let path = trimmed(
            if lines.len() < all {
                bare_line(lines.last())
            } else {
                lines.last()
            },
        );
        if path.len() == 0 {
            front
        } else {
            front.push(path)
        }
    }
}

/// The recent projects that a text lists.
pub open spec fn recent_of(body: Seq<char>) -> Seq<Seq<char>> {
    paths_in(split(body, '\n'), split(body, '\n').len())
}

fn without_return(line: &str) -> (r: String)
    ensures
        r@ == bare_line(line@),
{
    let v = chars_of(line);
    if v.len() > 0 && v[v.len() - 1] == '\r' {
        let r = string_between(&v, 0, v.len() - 1);
        assert(r@ =~= line@.drop_last());
        r
    } else {
        line.to_owned()
    }
}

/// The recent projects, as their file lists them, one in a line; none where there is no file.
pub fn load_recent_projects(body: Option<&str>) -> (r: Vec<String>)
    ensures
        texts(r@) == match body {
            Some(text) => recent_of(text@),
            None => Seq::empty(),
        },
{
    let mut r: Vec<String> = Vec::new();
    assert(texts(r@) =~= Seq::empty());
    let text = match body {
        Some(text) => text,
        None => {
            return r;
        },
    };
    let lines = split_text(text, '\n');
    let ghost all = texts(lines@);
    assert(all.len() == lines@.len());
    let mut i: usize = 0;
    assert(all.take(0) =~= Seq::empty());
    while i < lines.len()
        invariant
            i <= lines.len(),
            all == texts(lines@),
            texts(r@) == paths_in(all.take(i as int), all.len()),
        decreases lines.len() - i,
    {
        let ghost was = texts(r@);
        assert(all.take(i + 1).drop_last() =~= all.take(i as int));
        assert(all.take(i + 1).last() == lines@[i as int]@);
        let path = if i < lines.len() - 1 {
            let line = without_return(lines[i].as_str());
            trim_text(line.as_str())
        } else {
            trim_text(lines[i].as_str())
        };
        if !path.as_str().is_empty() {
            let ghost text = path@;
            r.push(path);
            assert(texts(r@) =~= was.push(text));
        }
        i = i + 1;
    }
    assert(all.take(all.len() as int) =~= all);
    r
}

/// The text that lists the recent projects.
pub fn save_recent_projects(recent: &Vec<String>) -> (body: String)
    ensures
        body@ == join(texts(recent@), "\n"@),
{
    join_texts(recent, "\n")
}

/// The paths of a list but for one.
pub open spec fn paths_without(list: Seq<Seq<char>>, path: Seq<char>) -> Seq<Seq<char>>
    decreases list.len(),
{
    if list.len() == 0 {
        Seq::empty()
    } else {
        let front = paths_without(list.drop_last(), path);
        if same_path(list.last(), path) {
            front
        } else {
            front.push(list.last())
        }
    }
}

/// The recent projects after one was opened or saved: it leads, it is listed once, and the list is
/// not longer than may be.
pub open spec fn pushed(recent: Seq<Seq<char>>, path: Seq<char>) -> Seq<Seq<char>> {
    let all = seq![path] + paths_without(recent, path);
    if all.len() > MAX_RECENT_PROJECTS {
        all.take(MAX_RECENT_PROJECTS as int)
    } else {
        all
    }
}

/// The recent projects after one was opened or saved. It becomes the last project too.
pub fn push_recent(recent: &Vec<String>, path: &str) -> (r: Vec<String>)
    ensures
        texts(r@) == pushed(texts(recent@), path@),
{
    let mut kept: Vec<String> = Vec::new();
    kept.push(path.to_owned());
    let ghost all = texts(recent@);
    let mut i: usize = 0;
    assert(all.take(0) =~= Seq::empty());
    assert(texts(kept@) =~= seq![path@] + paths_without(all.take(0), path@));
    while i < recent.len()
        invariant
            i <= recent.len(),
            all == texts(recent@),
            texts(kept@) == seq![path@] + paths_without(all.take(i as int), path@),
        decreases recent.len() - i,
    {
        let ghost was = texts(kept@);
        assert(all.take(i + 1).drop_last() =~= all.take(i as int));
        assert(all.take(i + 1).last() == recent@[i as int]@);
        if !are_same_path(recent[i].as_str(), path) {
            kept.push(recent[i].clone());
            assert(texts(kept@) =~= was.push(recent@[i as int]@));
        }
        assert(texts(kept@) =~= seq![path@] + paths_without(all.take(i + 1), path@));
        i = i + 1;
    }
    assert(all.take(all.len() as int) =~= all);
    let ghost full = texts(kept@);
    if kept.len() > MAX_RECENT_PROJECTS {
        kept.truncate(MAX_RECENT_PROJECTS);
        assert(texts(kept@) =~= full.take(MAX_RECENT_PROJECTS as int));
    }
    kept
}

proof fn lemma_paths_without(list: Seq<Seq<char>>, path: Seq<char>)
    ensures
        paths_without(list, path).len() <= list.len(),
        forall|i: int|
            0 <= i < paths_without(list, path).len() ==> !same_path(
                #[trigger] paths_without(list, path)[i],
                path,
            ),
    decreases list.len(),
{
    if list.len() > 0 {
        lemma_paths_without(list.drop_last(), path);
    }
}

/// A project that was opened leads the recent ones, is not listed again behind, and there are never
/// more than may be.
pub proof fn law_a_recent_project_is_listed_once(recent: Seq<Seq<char>>, path: Seq<char>)
    ensures
        pushed(recent, path).len() > 0,
        pushed(recent, path)[0] == path,
        forall|i: int|
            0 < i < pushed(recent, path).len() ==> !same_path(
                #[trigger] pushed(recent, path)[i],
                path,
            ),
        pushed(recent, path).len() <= MAX_RECENT_PROJECTS,
{
    lemma_paths_without(recent, path);
    let rest = paths_without(recent, path);
    assert forall|i: int| 0 < i < pushed(recent, path).len() implies !same_path(
        #[trigger] pushed(recent, path)[i],
        path,
    ) by {
        assert(pushed(recent, path)[i] == rest[i - 1]);
    }
}

/// Whether a path can stand in a line of its own.
pub open spec fn fits_a_line(path: Seq<char>) -> bool {
    path.len() > 0 && trimmed(path) == path && !path.contains('\n') && path.last() != '\r'
}

proof fn lemma_paths_in_lines(lines: Seq<Seq<char>>, all: nat)
    requires
        forall|i: int| 0 <= i < lines.len() ==> fits_a_line(#[trigger] lines[i]),
    ensures
        paths_in(lines, all) == lines,
    decreases lines.len(),
{
    if lines.len() > 0 {
        lemma_paths_in_lines(lines.drop_last(), all);
        assert(fits_a_line(lines[lines.len() - 1]));
        assert(lines.drop_last().push(lines.last()) =~= lines);
    } else {
        assert(lines =~= Seq::empty());
    }
}

/// What is saved of the recent projects is what is loaded again.
pub proof fn law_recent_projects_survive_saving(recent: Seq<Seq<char>>)
    requires
        forall|i: int| 0 <= i < recent.len() ==> fits_a_line(#[trigger] recent[i]),
    ensures
        recent_of(join(recent, "\n"@)) == recent,
{
    if recent.len() == 0 {
        let body = join(recent, "\n"@);
        assert(body =~= Seq::empty());
        let lines = split(body, '\n');
        assert(lines =~= seq![Seq::<char>::empty()]);
        assert(lines.drop_last() =~= Seq::empty());
        reveal_with_fuel(paths_in, 2);
        assert(trimmed(Seq::<char>::empty()) =~= Seq::empty());
        assert(recent =~= Seq::empty());
    } else {
        assert forall|i: int| 0 <= i < recent.len() implies !(#[trigger] recent[i]).contains(
            '\n',
        ) by {
            assert(fits_a_line(recent[i]));
        }
        reveal_strlit("\n");
        assert("\n"@ =~= seq!['\n']);
        lemma_split_join(recent, '\n');
        lemma_paths_in_lines(recent, recent.len());
    }
}

/// The path of the project file in a workspace.
pub fn workspace_file(workspace: &str) -> (r: String)
    ensures
        r@ == joined(workspace@, PROJECT_FILE_NAME@),
{
    join_path(workspace, PROJECT_FILE_NAME)
}

/// The directory of a workspace whose files are shipped as they are.
pub fn workspace_romfs(workspace: &str) -> (r: String)
    ensures
        r@ == joined(workspace@, "romfs"@),
{
    join_path(workspace, "romfs")
}

/// What a workspace says of itself.
pub const WORKSPACE_README: &'static str = "\
# Visionary project workspace\n\
\n\
This folder holds every edit for the project.\n\
\n\
- `modproject.json` — every edit the tool supports (moves, params, roster,\n\
  names, portraits, effect values/textures). Edited in Visionary, saved with\n\
  Ctrl+S.\n\
- `assets/` — portable images managed by Visionary. Keep beside the JSON.\n\
- `reference/` — import reference copies (source text, notes). Never exported.\n\
- `romfs/` — MANUAL overlay in arc layout. Drop files the tool does not model\n\
  here and they ship verbatim on export:\n\
  - models: `romfs/fighter/<fighter>/model/...` (*.numdlb, *.numshb, *.nusktb…)\n\
  - animations: `romfs/fighter/<fighter>/motion/...` (*.nuanmb, *.nushdb…)\n\
  - sound: `romfs/sound/...`\n\
  - binary effect/message overrides: `romfs/effect/...`, `romfs/ui/message/...`\n\
\n\
See Windows → Project Files in Visionary for the full map.\n";

/// What to make of a workspace.
#[derive(Debug, Clone, PartialEq, Eq)]
pub struct WorkspacePlan {
    /// The directories to make.
    pub directories: Vec<String>,
    /// The readme to write, where there is none.
    pub readme: Option<String>,
    /// Whether to write an empty project.
    pub write_project: bool,
    /// The path of the project file.
    pub file: String,
}

/// What to make of a workspace. What is there is kept.
pub fn scaffold_workspace(workspace: &str, has_readme: bool, has_project: bool) -> (r: WorkspacePlan)
    ensures
        texts(r.directories@) == seq![
            workspace@,
            joined(workspace@, "assets"@),
            joined(workspace@, "reference"@),
            joined(workspace@, "romfs"@),
        ],
        match r.readme {
            Some(path) => !has_readme && path@ == joined(workspace@, "README.txt"@),
            None => has_readme,
        },
        r.write_project == !has_project,
        r.file@ == joined(workspace@, PROJECT_FILE_NAME@),
{
    let mut directories: Vec<String> = Vec::new();
    directories.push(workspace.to_owned());
    directories.push(join_path(workspace, "assets"));
    directories.push(join_path(workspace, "reference"));
    directories.push(join_path(workspace, "romfs"));
    assert(texts(directories@) =~= seq![
        workspace@,
        joined(workspace@, "assets"@),
        joined(workspace@, "reference"@),
        joined(workspace@, "romfs"@),
    ]);
    let readme = if has_readme {
        None
    } else {
        Some(join_path(workspace, "README.txt"))
    };
    WorkspacePlan { directories, readme, write_project: !has_project, file: workspace_file(workspace) }
}

/// The relative paths of a list that are not taken.
pub open spec fn free_paths(files: Seq<(String, bool)>) -> Seq<Seq<char>>
    decreases files.len(),
{
    if files.len() == 0 {
        Seq::empty()
    } else {
        let front = free_paths(files.drop_last());
        if files.last().1 {
            front
        } else {
            front.push(files.last().0@)
        }
    }
}

/// The relative paths of a list that are taken, with slashes between their pieces.
pub open spec fn taken_paths(files: Seq<(String, bool)>) -> Set<Seq<char>>
    decreases files.len(),
{
    if files.len() == 0 {
        Set::empty()
    } else {
        let front = taken_paths(files.drop_last());
        if files.last().1 {
            front.insert(join(pieces(files.last().0@), "/"@))
        } else {
            front
        }
    }
}

/// Which files of an overlay are copied into an exported mod, and which are skipped. `files` holds
/// the relative path of each file, and whether the export has written one there. What the export
/// has written stays; what is skipped for it is listed in order, nothing twice.
pub fn merge_romfs_overlay(files: &Vec<(String, bool)>) -> (r: (Vec<String>, Vec<String>))
    ensures
        texts(r.0@) == free_paths(files@),
        ascending(texts(r.1@)),
        texts(r.1@).to_set() == taken_paths(files@),
{
    let mut copied: Vec<String> = Vec::new();
    let mut skipped: Vec<String> = Vec::new();
    let mut i: usize = 0;
    assert(files@.take(0) =~= Seq::empty());
    assert(texts(copied@) =~= Seq::empty());
    assert(texts(skipped@).to_set() =~= Set::empty());
    while i < files.len()
        invariant
            i <= files.len(),
            texts(copied@) == free_paths(files@.take(i as int)),
            ascending(texts(skipped@)),
            texts(skipped@).to_set() == taken_paths(files@.take(i as int)),
        decreases files.len() - i,
    {
        let ghost was = texts(copied@);
        assert(files@.take(i + 1).drop_last() =~= files@.take(i as int));
        if files[i].1 {
            let parts = path_pieces(files[i].0.as_str());
            let path = join_texts(&parts, "/");
            insert_ascending(&mut skipped, path.as_str());
        } else {
            copied.push(files[i].0.clone());
            assert(texts(copied@) =~= was.push(files@[i as int].0@));
        }
        i = i + 1;
    }
    assert(files@.take(files@.len() as int) =~= files@);
    (copied, skipped)
}

/// What the export has written is never overwritten by an overlay, and every other file of the
/// overlay is shipped.
pub proof fn law_generated_files_win(files: Seq<(String, bool)>, i: int)
    requires
        0 <= i < files.len(),
    ensures
        !files[i].1 ==> free_paths(files).contains(files[i].0@),
        files[i].1 ==> taken_paths(files).contains(join(pieces(files[i].0@), "/"@)),
        files[i].1 && (forall|j: int|
            0 <= j < files.len() && (#[trigger] files[j]).0@ == files[i].0@ ==> files[j].1)
            ==> !free_paths(files).contains(files[i].0@),
    decreases files.len(),
{
    let front = files.drop_last();
    if i < files.len() - 1 {
        law_generated_files_win(front, i);
        if !files[i].1 {
            let k = free_paths(front).index_of(files[i].0@);
            assert(free_paths(files)[k] == files[i].0@);
        }
    } else if !files[i].1 {
        assert(free_paths(files).last() == files[i].0@);
    }
    if files[i].1 && (forall|j: int|
        0 <= j < files.len() && (#[trigger] files[j]).0@ == files[i].0@ ==> files[j].1) {
        lemma_free_paths_are_free(files);
        if free_paths(files).contains(files[i].0@) {
            let k = free_paths(files).index_of(files[i].0@);
            assert(free_paths(files)[k] == files[i].0@);
        }
    }
}

proof fn lemma_free_paths_are_free(files: Seq<(String, bool)>)
    ensures
        forall|k: int|
            0 <= k < free_paths(files).len() ==> exists|j: int|
                0 <= j < files.len() && (#[trigger] files[j]).0@ == #[trigger] free_paths(files)[k]
                    && !files[j].1,
    decreases files.len(),
{
    if files.len() > 0 {
        let front = files.drop_last();
        lemma_free_paths_are_free(front);
        assert forall|k: int| 0 <= k < free_paths(files).len() implies exists|j: int|
            0 <= j < files.len() && (#[trigger] files[j]).0@ == #[trigger] free_paths(files)[k]
                && !files[j].1 by {
            if k < free_paths(front).len() {
                assert(free_paths(files)[k] == free_paths(front)[k]);
                let j = choose|j: int|
                    0 <= j < front.len() && (#[trigger] front[j]).0@ == free_paths(front)[k]
                        && !front[j].1;
                assert(files[j] == front[j]);
            } else {
                assert(files[files.len() - 1].0@ == free_paths(files)[k]);
            }
        }
    }
}

/// How an edit is handled.
#[derive(Debug, Clone, Copy, PartialEq, Eq, Structural)]
pub enum WorkspaceSupport {
    /// Edited in the application.
    Supported,
    /// Copied for reading, never exported.
    Reference,
    /// Put into the overlay by hand, and shipped as it is.
    Manual,
}

/// One row of the map of a workspace.
#[derive(Debug, Clone, Copy, PartialEq, Eq)]
pub struct WorkspaceEntry {
    pub kind: &'static str,
    pub support: WorkspaceSupport,
    /// Where it stands in the workspace.
    pub workspace_path: &'static str,
    /// What it is shipped as.
    pub game_path: &'static str,
    pub notes: &'static str,
}

/// A row, with its texts as characters.
pub open spec fn row_texts(entry: WorkspaceEntry) -> (
    Seq<char>,
    WorkspaceSupport,
    Seq<char>,
    Seq<char>,
    Seq<char>,
) {
    (entry.kind@, entry.support, entry.workspace_path@, entry.game_path@, entry.notes@)
}

fn workspace_entry(
    kind: &'static str,
    support: WorkspaceSupport,
    workspace_path: &'static str,
    game_path: &'static str,
    notes: &'static str,
) -> (r: WorkspaceEntry)
    ensures
        row_texts(r) == (kind@, support, workspace_path@, game_path@, notes@),
{
    WorkspaceEntry { kind, support, workspace_path, game_path, notes }
}

/// Every kind of edit, and where it goes.
pub open spec fn map_rows() -> Seq<
    (Seq<char>, WorkspaceSupport, Seq<char>, Seq<char>, Seq<char>),
> {
    seq![
        (
            "Fighter moves (ACMD)"@,
            WorkspaceSupport::Supported,
            "modproject.json"@,
            "plugin.nro (built on export)"@,
            "Hitboxes, effects, sounds per move."@,
        ),
        (
            "Fighter params"@,
            WorkspaceSupport::Supported,
            "modproject.json"@,
            "fighter/common/param/fighter_param.prc"@,
            "Weight, speeds, jumps — sparse diffs."@,
        ),
        (
            "Roster order / visibility / row fields"@,
            WorkspaceSupport::Supported,
            "modproject.json"@,
            "ui/param/database/ui_chara_db.prc"@,
            "Rebuilt from base + overrides on export."@,
        ),
        (
            "Display names"@,
            WorkspaceSupport::Supported,
            "modproject.json"@,
            "ui/message/msg_name.xmsbt"@,
            "Adopted from .xmsbt on import."@,
        ),
        (
            "Portraits / stock icons"@,
            WorkspaceSupport::Supported,
            "assets/roster_ui/..."@,
            "ui/replace/chara/.../*.bntx"@,
            "PNGs managed by Visionary."@,
        ),
        (
            "Effect textures"@,
            WorkspaceSupport::Supported,
            "assets/textures/..."@,
            "effect pool BNTX"@,
            "Replacements + additions."@,
        ),
        (
            "Source reference"@,
            WorkspaceSupport::Reference,
            "reference/..."@,
            "—"@,
            "Copied on import for reading; never exported."@,
        ),
        (
            "Models"@,
            WorkspaceSupport::Manual,
            "romfs/fighter/<fighter>/model/..."@,
            "fighter/<fighter>/model/..."@,
            "Not modelled — drop .numdlb/.numshb/.nusktb here; ships verbatim."@,
        ),
        (
            "Animations"@,
            WorkspaceSupport::Manual,
            "romfs/fighter/<fighter>/motion/..."@,
            "fighter/<fighter>/motion/..."@,
            "Not modelled — drop .nuanmb/.nusmab here; ships verbatim."@,
        ),
        (
            "Sound / streams"@,
            WorkspaceSupport::Manual,
            "romfs/sound/..."@,
            "sound/..."@,
            "Not modelled — ships verbatim."@,
        ),
        (
            "Binary effects / messages"@,
            WorkspaceSupport::Manual,
            "romfs/effect/... · romfs/ui/message/..."@,
            "effect/... · ui/message/*.msbt"@,
            "Compiled .eff/.msbt are reference-only; manual overrides ship verbatim."@,
        ),
        (
            "Compiled plugins"@,
            WorkspaceSupport::Reference,
            "reference/..."@,
            "*.nro"@,
            "Reference-only by design; editor shows vanilla scripts."@,
        ),
    ]
}

/// Every kind of edit, and where it goes, those that the application does not edit among them.
pub fn workspace_map() -> (r: Vec<WorkspaceEntry>)
    ensures
        r@.map_values(|entry: WorkspaceEntry| row_texts(entry)) == map_rows(),
{
    let mut r: Vec<WorkspaceEntry> = Vec::new();
    r.push(
        workspace_entry(
            "Fighter moves (ACMD)",
            WorkspaceSupport::Supported,
            "modproject.json",
            "plugin.nro (built on export)",
            "Hitboxes, effects, sounds per move.",
        ),
    );
    r.push(
        workspace_entry(
            "Fighter params",
            WorkspaceSupport::Supported,
            "modproject.json",
            "fighter/common/param/fighter_param.prc",
            "Weight, speeds, jumps — sparse diffs.",
        ),
    );
    r.push(
        workspace_entry(
            "Roster order / visibility / row fields",
            WorkspaceSupport::Supported,
            "modproject.json",
            "ui/param/database/ui_chara_db.prc",
            "Rebuilt from base + overrides on export.",
        ),
    );
    r.push(
        workspace_entry(
            "Display names",
            WorkspaceSupport::Supported,
            "modproject.json",
            "ui/message/msg_name.xmsbt",
            "Adopted from .xmsbt on import.",
        ),
    );
    r.push(
        workspace_entry(
            "Portraits / stock icons",
            WorkspaceSupport::Supported,
            "assets/roster_ui/...",
            "ui/replace/chara/.../*.bntx",
            "PNGs managed by Visionary.",
        ),
    );
    r.push(
        workspace_entry(
            "Effect textures",
            WorkspaceSupport::Supported,
            "assets/textures/...",
            "effect pool BNTX",
            "Replacements + additions.",
        ),
    );
    r.push(
        workspace_entry(
            "Source reference",
            WorkspaceSupport::Reference,
            "reference/...",
            "—",
            "Copied on import for reading; never exported.",
        ),
    );
    r.push(
        workspace_entry(
            "Models",
            WorkspaceSupport::Manual,
            "romfs/fighter/<fighter>/model/...",
            "fighter/<fighter>/model/...",
            "Not modelled — drop .numdlb/.numshb/.nusktb here; ships verbatim.",
        ),
    );
    r.push(
        workspace_entry(
            "Animations",
            WorkspaceSupport::Manual,
            "romfs/fighter/<fighter>/motion/...",
            "fighter/<fighter>/motion/...",
            "Not modelled — drop .nuanmb/.nusmab here; ships verbatim.",
        ),
    );
    r.push(
        workspace_entry(
            "Sound / streams",
            WorkspaceSupport::Manual,
            "romfs/sound/...",
            "sound/...",
            "Not modelled — ships verbatim.",
        ),
    );
    r.push(
        workspace_entry(
            "Binary effects / messages",
            WorkspaceSupport::Manual,
            "romfs/effect/... · romfs/ui/message/...",
            "effect/... · ui/message/*.msbt",
            "Compiled .eff/.msbt are reference-only; manual overrides ship verbatim.",
        ),
    );
    r.push(
        workspace_entry(
            "Compiled plugins",
            WorkspaceSupport::Reference,
            "reference/...",
            "*.nro",
            "Reference-only by design; editor shows vanilla scripts.",
        ),
    );
    assert(r@.map_values(|entry: WorkspaceEntry| row_texts(entry)) =~= map_rows());
    r
}

/// How many of the first `n` flags are set.
pub open spec fn set_before(flags: Seq<bool>, n: int) -> nat
    decreases n,
{
    if n <= 0 {
        0
    } else if flags[n - 1] {
        set_before(flags, n - 1) + 1
    } else {
        set_before(flags, n - 1)
    }
}

/// Of a list of projects, those stay whose files are there, in their order: as many as have their
/// flag set, each behind those before it that stay too.
pub proof fn law_projects_that_are_there_stay(list: Seq<Seq<char>>, flags: Seq<bool>, i: int)
    requires
        list.len() <= flags.len(),
        0 <= i < list.len(),
    ensures
        flagged(list, flags).len() == set_before(flags, list.len() as int),
        flags[i] ==> set_before(flags, i) < flagged(list, flags).len() && flagged(
            list,
            flags,
        )[set_before(flags, i) as int] == list[i],
    decreases list.len(),
{
    let front = list.drop_last();
    if front.len() == 0 {
        reveal_with_fuel(flagged, 2);
        reveal_with_fuel(set_before, 2);
    } else if i < front.len() {
        law_projects_that_are_there_stay(front, flags, i);
    } else {
        law_projects_that_are_there_stay(front, flags, 0);
    }
}

/// The hub shows a row for each recent project but those that are the last one, in their order, and
/// for no other project.
pub proof fn law_every_other_recent_project_has_a_row(
    recent: Seq<Seq<char>>,
    last: Option<String>,
    path: Seq<char>,
)
    ensures
        last is None ==> recent_rows(recent, last) == recent.map_values(
            |p: Seq<char>| ChoiceView::Recent(p),
        ),
        recent_rows(recent, last).contains(ChoiceView::Recent(path)) <==> recent.contains(path)
            && !(last is Some && same_path(path, last->0@)),
        recent_rows(recent, last).len() <= recent.len(),
    decreases recent.len(),
{
    let rows = recent_rows(recent, last);
    let row = ChoiceView::Recent(path);
    if recent.len() == 0 {
        assert(rows =~= recent.map_values(|p: Seq<char>| ChoiceView::Recent(p)));
        assert(!rows.contains(row));
    } else {
        let front = recent.drop_last();
        law_every_other_recent_project_has_a_row(front, last, path);
        let was = recent_rows(front, last);
        let kept = !(last is Some && same_path(recent.last(), last->0@));
        assert(rows == if kept {
            was.push(ChoiceView::Recent(recent.last()))
        } else {
            was
        });
        assert(recent.contains(path) <==> front.contains(path) || path == recent.last()) by {
            if front.contains(path) {
                let i = choose|i: int| 0 <= i < front.len() && front[i] == path;
                assert(recent[i] == path);
            }
            if path == recent.last() {
                assert(recent[recent.len() - 1] == path);
            }
            if recent.contains(path) && path != recent.last() {
                let i = choose|i: int| 0 <= i < recent.len() && recent[i] == path;
                assert(front[i] == path);
            }
        }
        assert(rows.contains(row) <==> was.contains(row) || (kept && path == recent.last())) by {
            if was.contains(row) {
                let i = choose|i: int| 0 <= i < was.len() && was[i] == row;
                assert(rows[i] == row);
            }
            if kept && path == recent.last() {
                assert(rows[was.len() as int] == row);
            }
            if rows.contains(row) {
                let i = choose|i: int| 0 <= i < rows.len() && rows[i] == row;
                if i < was.len() {
                    assert(was[i] == row);
                }
            }
        }
        if last is None {
            assert(rows =~= recent.map_values(|p: Seq<char>| ChoiceView::Recent(p)));
        }
    }
}

proof fn lemma_all_others_stay(list: Seq<Seq<char>>, path: Seq<char>)
    requires
        forall|i: int| 0 <= i < list.len() ==> !same_path(#[trigger] list[i], path),
    ensures
        paths_without(list, path) == list,
    decreases list.len(),
{
    if list.len() > 0 {
        let front = list.drop_last();
        assert forall|i: int| 0 <= i < front.len() implies !same_path(#[trigger] front[i], path) by {
            assert(list[i] == front[i]);
        }
        lemma_all_others_stay(front, path);
        assert(!same_path(list[list.len() - 1], path));
        assert(paths_without(list, path) =~= list);
    } else {
        assert(paths_without(list, path) =~= list);
    }
}

/// Opening a project that is not among the recent ones moves each of them down by one place; the
/// tenth falls out.
pub proof fn law_opening_moves_the_others_down(recent: Seq<Seq<char>>, path: Seq<char>, i: int)
    requires
        forall|k: int| 0 <= k < recent.len() ==> !same_path(#[trigger] recent[k], path),
        0 <= i < recent.len(),
    ensures
        recent.len() <= 9 ==> pushed(recent, path).len() == recent.len() + 1,
        recent.len() > 9 ==> pushed(recent, path).len() == 10,
        i < 9 ==> pushed(recent, path)[i + 1] == recent[i],
{
    lemma_all_others_stay(recent, path);
}

/// Opening the project that was opened last changes nothing.
pub proof fn law_opening_again_changes_nothing(recent: Seq<Seq<char>>, path: Seq<char>)
    ensures
        pushed(pushed(recent, path), path) == pushed(recent, path),
{
    law_a_recent_project_is_listed_once(recent, path);
    let once = pushed(recent, path);
    let rest = once.skip(1);
    assert forall|i: int| 0 <= i < rest.len() implies !same_path(#[trigger] rest[i], path) by {
        assert(rest[i] == once[i + 1]);
    }
    lemma_all_others_stay(rest, path);
    assert(once =~= seq![path] + rest);
    lemma_paths_without_leads(rest, path);
    assert(pushed(once, path) =~= once);
}

proof fn lemma_paths_without_leads(rest: Seq<Seq<char>>, path: Seq<char>)
    ensures
        paths_without(seq![path] + rest, path) == paths_without(rest, path),
    decreases rest.len(),
{
    let all = seq![path] + rest;
    if rest.len() == 0 {
        assert(all =~= seq![path]);
        assert(all.drop_last() =~= Seq::empty());
        reveal_with_fuel(paths_without, 2);
        assert(same_path(path, path));
        assert(paths_without(all, path) =~= paths_without(rest, path));
    } else {
        lemma_paths_without_leads(rest.drop_last(), path);
        assert(all.drop_last() =~= seq![path] + rest.drop_last());
        assert(all.last() == rest.last());
    }
}

/// The user is warned exactly where unsaved edits would be lost: browsing keeps them, every other
/// choice discards them.
pub proof fn law_unsaved_edits_are_warned_of(
    dirty: bool,
    action: &HubAction,
    warns: bool,
    discards: bool,
)
    requires
        call_ensures(needs_hub_warning, (dirty, action), warns),
        call_ensures(HubAction::discards_edits, (action,), discards),
    ensures
        warns <==> dirty && discards,
        discards <==> !(action is BrowseWithoutProject),
{
}

/// The last project is what the text holds but for the white space around it, and none where it
/// holds nothing else.
pub proof fn law_the_last_project_is_read_as_it_is(body: Option<&str>, r: Option<String>)
    requires
        call_ensures(load_last_project, (body,), r),
    ensures
        body is None ==> r is None,
        body is Some && trimmed(body->0@).len() > 0 ==> r is Some && r->0@ == trimmed(body->0@),
        body is Some && trimmed(body->0@).len() == 0 ==> r is None,
{
}

/// The hub opens at a cold start, with the last project only where its file is there.
pub proof fn law_a_project_that_is_gone_is_not_offered(
    last: Option<String>,
    last_is_file: bool,
    recent: &Vec<String>,
    flags: &Vec<bool>,
    r: HubState,
)
    requires
        call_ensures(HubState::cold_start, (last, last_is_file, recent, flags), r),
        recent@.len() == flags@.len(),
    ensures
        r.show,
        !last_is_file ==> r.last is None,
        last_is_file ==> r.last == last,
{
}

} // verus!
