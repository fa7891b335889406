//! The mod library: imported mods in load order. Later entries win.

use vstd::prelude::*;
use vstd::string::*;

use crate::paths::{
    are_same_path, extension, file_name, file_name_of, is_plain_name, join_path, joined,
    law_a_joined_name_is_the_file_name, law_a_name_is_its_stem_and_extension, same_path, stem,
    stem_of,
};
use crate::roster::manifest::{
    fighter_names, fighter_of_path, path_fighter, ModManifest, RootDetection,
};
use crate::text::{
    ascending, ascending_has, ascii_lower, before, concat, dec, dec_text, insert_ascending, join,
    join_texts, lemma_ascending_is_unique, same, starts_with, texts, to_ascii_lower,
};

verus! {

/// Identifies a mod within one library.
#[derive(Debug, Clone, Copy, PartialEq, Eq, PartialOrd, Ord, Hash, Structural)]
pub struct ProviderId(pub u32);

/// Where a mod's files came from.
#[derive(Debug, Clone, PartialEq, Eq)]
pub enum ModSource {
    /// A folder, used in place.
    Folder(String),
    /// An archive, and the folder it was extracted to.
    Archive { archive: String, extracted: String },
}

impl ModSource {
    /// The directory that is scanned.
    pub open spec fn base(&self) -> Seq<char> {
        match self {
            ModSource::Folder(path) => path@,
            ModSource::Archive { archive, extracted } => extracted@,
        }
    }

    /// What is shown as the mod's origin.
    pub open spec fn origin(&self) -> Seq<char> {
        match self {
            ModSource::Folder(path) => path@,
            ModSource::Archive { archive, extracted } => archive@,
        }
    }

    /// The directory the scan starts from.
    pub fn scan_base(&self) -> (r: &str)
        ensures
            r@ == self.base(),
    {
        match self {
            ModSource::Folder(path) => path.as_str(),
            ModSource::Archive { archive, extracted } => extracted.as_str(),
        }
    }

    /// What to show as the origin of the mod.
    pub fn origin_path(&self) -> (r: &str)
        ensures
            r@ == self.origin(),
    {
        match self {
            ModSource::Folder(path) => path.as_str(),
            ModSource::Archive { archive, extracted } => archive.as_str(),
        }
    }
}

/// One imported mod.
#[derive(Debug)]
pub struct ImportedMod {
    pub id: ProviderId,
    pub name: String,
    pub source: ModSource,
    /// The directory that the game directories stand in.
    pub root: String,
    pub detection: RootDetection,
    pub enabled: bool,
    pub manifest: ModManifest,
}

/// The plural ending of a count.
pub open spec fn plural(n: int) -> Seq<char> {
    if n == 1 {
        ""@
    } else {
        "s"@
    }
}

impl ImportedMod {
    /// Whether the mod ships a compiled plugin.
    pub fn ships_plugin(&self) -> (r: bool)
        ensures
            r == (self.manifest.plugins@.len() > 0),
    {
        self.manifest.plugins.len() > 0
    }

    /// The parts of a mod's summary.
    pub open spec fn summary_parts(&self) -> Seq<Seq<char>> {
        let files = self.manifest.paths@.len();
        let fighters = self.manifest.fighters@.len();
        seq![
            dec(files) + " file"@ + plural(files as int) + " across "@ + dec(fighters)
                + " fighter"@ + plural(fighters as int),
        ] + (if self.manifest.provides_ui {
            seq!["ships UI files"@]
        } else {
            seq![]
        }) + (if self.manifest.plugins@.len() > 0 {
            seq![dec(self.manifest.plugins@.len()) + " plugin(s)"@]
        } else {
            seq![]
        })
    }

    /// Summarises what the mod provides.
    pub fn summary(&self) -> (r: String)
        ensures
            r@ == join(self.summary_parts(), " · "@),
    {
        let files: usize = self.manifest.paths.len();
        let fighters: usize = self.manifest.fighters.len();
        let mut first = dec_text(files as u64);
        first.append(" file");
        first.append(
            if files == 1 {
                ""
            } else {
                "s"
            },
        );
        first.append(" across ");
        first.append(dec_text(fighters as u64).as_str());
        first.append(" fighter");
        first.append(
            if fighters == 1 {
                ""
            } else {
                "s"
            },
        );
        let mut parts: Vec<String> = Vec::new();
        parts.push(first);
        if self.manifest.provides_ui {
            parts.push("ships UI files".to_owned());
        }
        if self.ships_plugin() {
            let mut part = dec_text(self.manifest.plugins.len() as u64);
            part.append(" plugin(s)");
            parts.push(part);
        }
        assert(texts(parts@) =~= self.summary_parts());
        join_texts(&parts, " · ")
    }
}

/// One game path that more than one enabled mod provides.
#[derive(Debug, Clone, PartialEq, Eq)]
pub struct Conflict {
    pub game_path: String,
    /// Every enabled provider in load order. The last one wins.
    pub providers: Vec<ProviderId>,
}

impl Conflict {
    /// The provider that wins.
    pub fn winner(&self) -> (r: Option<ProviderId>)
        ensures
            r == if self.providers@.len() == 0 {
                None
            } else {
                Some(self.providers@.last())
            },
    {
        if self.providers.len() == 0 {
            None
        } else {
            Some(self.providers[self.providers.len() - 1])
        }
    }
}

/// A mod that was located and scanned but has no id yet.
#[derive(Debug)]
pub struct PreparedMod {
    pub name: String,
    pub source: ModSource,
    pub root: String,
    pub detection: RootDetection,
    pub manifest: ModManifest,
}

/// The name of a mod that was given none: that of its folder or archive without extension.
pub open spec fn default_name(origin: Seq<char>) -> Seq<char> {
    match file_name(origin) {
        Some(name) => stem(name),
        None => "mod"@,
    }
}

/// The message for a mod without game files.
pub open spec fn no_game_files(source: ModSource, detection: RootDetection) -> Seq<char> {
    source.origin() + " contains no game files ("@ + detection.description() + ")"@
}

/// Whether `r` is what comes of taking up a mod whose files were located and scanned: refused where
/// it has neither game files nor plugins.
pub open spec fn prepares(
    source: ModSource,
    name: Option<String>,
    root: String,
    detection: RootDetection,
    manifest: ModManifest,
    r: Result<PreparedMod, String>,
) -> bool {
    match r {
        Ok(prepared) => {
            &&& !(manifest.paths@.len() == 0 && manifest.plugins@.len() == 0)
            &&& prepared.name@ == match name {
                Some(name) => name@,
                None => default_name(source.origin()),
            }
            &&& prepared.source == source
            &&& prepared.root == root
            &&& prepared.detection == detection
            &&& prepared.manifest == manifest
        },
        Err(message) => {
            &&& manifest.paths@.len() == 0
            &&& manifest.plugins@.len() == 0
            &&& message@ == no_game_files(source, detection)
        },
    }
}

/// Takes up a mod whose files were located and scanned. A mod with neither game files nor plugins
/// is refused.
pub fn prepare(
    source: ModSource,
    name: Option<String>,
    root: String,
    detection: RootDetection,
    manifest: ModManifest,
) -> (r: Result<PreparedMod, String>)
    ensures
        prepares(source, name, root, detection, manifest, r),
{
    if manifest.paths.len() == 0 && manifest.plugins.len() == 0 {
        let mut message = source.origin_path().to_owned();
        message.append(" contains no game files (");
        message.append(detection.describe().as_str());
        message.append(")");
        return Err(message);
    }
    let name = match name {
        Some(name) => name,
        None => match file_name_of(source.origin_path()) {
            Some(file) => stem_of(file.as_str()),
            None => "mod".to_owned(),
        },
    };
    Ok(PreparedMod { name, source, root, detection, manifest })
}

/// The imported mods in load order.
#[derive(Debug)]
pub struct ModLibrary {
    pub mods: Vec<ImportedMod>,
    /// No id from here on was ever given.
    pub next_id: u32,
}

impl Default for ModLibrary {
    fn default() -> (r: ModLibrary)
        ensures
            r.mods@.len() == 0,
            r.next_id == 0,
    {
        ModLibrary { mods: Vec::new(), next_id: 0 }
    }
}

/// The id that the next mod gets: past every id in use and every id given before.
pub open spec fn free_id(mods: Seq<ImportedMod>, next_id: int) -> int
    decreases mods.len(),
{
    if mods.len() == 0 {
        next_id
    } else {
        let rest = free_id(mods.drop_last(), next_id);
        if mods.last().id.0 + 1 > rest {
            mods.last().id.0 + 1
        } else {
            rest
        }
    }
}

/// Whether a mod was added to a library: behind the others, enabled, under an id that was never
/// given.
pub open spec fn inserts(
    was: ModLibrary,
    now: ModLibrary,
    prepared: PreparedMod,
    id: ProviderId,
) -> bool {
    &&& id.0 == free_id(was.mods@, was.next_id as int)
    &&& now.next_id == id.0 + 1
    &&& now.mods@ == was.mods@.push(
        ImportedMod {
            id,
            name: prepared.name,
            source: prepared.source,
            root: prepared.root,
            detection: prepared.detection,
            enabled: true,
            manifest: prepared.manifest,
        },
    )
}

/// Whether `r` is what comes of importing a folder: its mod stands behind the others, or the library
/// is as it was.
pub open spec fn imports(
    was: ModLibrary,
    now: ModLibrary,
    source: ModSource,
    name: Option<String>,
    root: String,
    detection: RootDetection,
    manifest: ModManifest,
    r: Result<ProviderId, String>,
) -> bool {
    match r {
        Ok(id) => {
            let last = now.mods@.last();
            &&& !(manifest.paths@.len() == 0 && manifest.plugins@.len() == 0)
            &&& id.0 == free_id(was.mods@, was.next_id as int)
            &&& now.next_id == id.0 + 1
            &&& now.mods@.len() == was.mods@.len() + 1
            &&& now.mods@.drop_last() == was.mods@
            &&& last.id == id
            &&& last.name@ == match name {
                Some(name) => name@,
                None => default_name(source.origin()),
            }
            &&& last.source == source
            &&& last.root == root
            &&& last.detection == detection
            &&& last.enabled
            &&& last.manifest == manifest
        },
        Err(message) => {
            &&& manifest.paths@.len() == 0
            &&& manifest.plugins@.len() == 0
            &&& message@ == no_game_files(source, detection)
            &&& now == was
        },
    }
}

/// Importing a folder is preparing it and inserting the result. What cannot be prepared is not
/// imported and leaves the library as it was, the id that it gives next too.
pub proof fn law_importing_is_preparing_and_inserting(
    was: ModLibrary,
    now: ModLibrary,
    source: ModSource,
    name: Option<String>,
    root: String,
    detection: RootDetection,
    manifest: ModManifest,
    r: Result<ProviderId, String>,
)
    ensures
        imports(was, now, source, name, root, detection, manifest, r) <==> match r {
            Ok(id) => exists|prepared: PreparedMod|
                prepares(source, name, root, detection, manifest, Ok(prepared))
                    && #[trigger] inserts(was, now, prepared, id),
            Err(message) => prepares(source, name, root, detection, manifest, Err(message)) && now
                == was,
        },
{
    if let Ok(id) = r {
        if imports(was, now, source, name, root, detection, manifest, r) {
            let last = now.mods@.last();
            let prepared = PreparedMod { name: last.name, source, root, detection, manifest };
            assert(now.mods@ =~= now.mods@.drop_last().push(last));
            assert(inserts(was, now, prepared, id));
        }
        if exists|prepared: PreparedMod|
            prepares(source, name, root, detection, manifest, Ok(prepared))
                && #[trigger] inserts(was, now, prepared, id) {
            let prepared = choose|prepared: PreparedMod|
                prepares(source, name, root, detection, manifest, Ok(prepared))
                    && #[trigger] inserts(was, now, prepared, id);
            assert(now.mods@.drop_last() =~= was.mods@);
        }
    }
}

/// The enabled mods in load order.
pub open spec fn enabled_of(mods: Seq<ImportedMod>) -> Seq<ImportedMod>
    decreases mods.len(),
{
    if mods.len() == 0 {
        Seq::empty()
    } else if mods.last().enabled {
        enabled_of(mods.drop_last()).push(mods.last())
    } else {
        enabled_of(mods.drop_last())
    }
}

/// The place of the first mod of an id.
pub open spec fn place_of(mods: Seq<ImportedMod>, id: ProviderId) -> Option<int>
    decreases mods.len(),
{
    if mods.len() == 0 {
        None
    } else {
        match place_of(mods.drop_last(), id) {
            Some(at) => Some(at),
            None => if mods.last().id == id {
                Some(mods.len() - 1)
            } else {
                None
            },
        }
    }
}

/// The mods without those of an id.
pub open spec fn without_id(mods: Seq<ImportedMod>, id: ProviderId) -> Seq<ImportedMod>
    decreases mods.len(),
{
    if mods.len() == 0 {
        Seq::empty()
    } else if mods.last().id == id {
        without_id(mods.drop_last(), id)
    } else {
        without_id(mods.drop_last(), id).push(mods.last())
    }
}

/// The mods with two neighbours swapped.
pub open spec fn swapped(mods: Seq<ImportedMod>, at: int) -> Seq<ImportedMod> {
    mods.update(at, mods[at + 1]).update(at + 1, mods[at])
}

/// The mods with the one of an id moved one place later, where it is not the last.
pub open spec fn moved_later(mods: Seq<ImportedMod>, id: ProviderId) -> Seq<ImportedMod> {
    match place_of(mods, id) {
        Some(at) => if at + 1 < mods.len() {
            swapped(mods, at)
        } else {
            mods
        },
        None => mods,
    }
}

/// The mods with the one of an id moved one place earlier, where it is not the first.
pub open spec fn moved_earlier(mods: Seq<ImportedMod>, id: ProviderId) -> Seq<ImportedMod> {
    match place_of(mods, id) {
        Some(at) => if at > 0 {
            swapped(mods, at - 1)
        } else {
            mods
        },
        None => mods,
    }
}

/// The mods whose flag is set.
pub open spec fn flagged(mods: Seq<ImportedMod>, flags: Seq<bool>) -> Seq<ImportedMod>
    decreases mods.len(),
{
    if mods.len() == 0 {
        Seq::empty()
    } else if flags[mods.len() - 1] {
        flagged(mods.drop_last(), flags).push(mods.last())
    } else {
        flagged(mods.drop_last(), flags)
    }
}

/// Whether a mod provides a game path.
pub open spec fn provides(entry: ImportedMod, path: Seq<char>) -> bool {
    texts(entry.manifest.paths@).contains(path)
}

/// The enabled providers of a game path in load order.
pub open spec fn providers_of(mods: Seq<ImportedMod>, path: Seq<char>) -> Seq<ProviderId>
    decreases mods.len(),
{
    if mods.len() == 0 {
        Seq::empty()
    } else {
        let before = providers_of(mods.drop_last(), path);
        if mods.last().enabled && provides(mods.last(), path) {
            before.push(mods.last().id)
        } else {
            before
        }
    }
}

/// The enabled providers of a fighter in load order.
pub open spec fn fighter_providers(mods: Seq<ImportedMod>, fighter: Seq<char>) -> Seq<ProviderId>
    decreases mods.len(),
{
    if mods.len() == 0 {
        Seq::empty()
    } else {
        let before = fighter_providers(mods.drop_last(), fighter);
        if mods.last().enabled && fighter_names(mods.last().manifest.fighters@).contains(fighter) {
            before.push(mods.last().id)
        } else {
            before
        }
    }
}

/// The paths of a list of conflicts.
pub open spec fn conflict_paths(conflicts: Seq<Conflict>) -> Seq<Seq<char>> {
    Seq::new(conflicts.len(), |i: int| conflicts[i].game_path@)
}

/// Whether a list holds, in ascending order of the paths, every path that more than one enabled mod
/// provides, with its providers in load order.
pub open spec fn is_conflict_list(conflicts: Seq<Conflict>, mods: Seq<ImportedMod>) -> bool {
    &&& ascending(conflict_paths(conflicts))
    &&& forall|i: int|
        0 <= i < conflicts.len() ==> {
            &&& (#[trigger] conflicts[i]).providers@ == providers_of(
                mods,
                conflicts[i].game_path@,
            )
            &&& conflicts[i].providers@.len() > 1
        }
    &&& forall|path: Seq<char>| #[trigger]
        providers_of(mods, path).len() > 1 ==> conflict_paths(conflicts).contains(path)
}

proof fn lemma_place_stays(mods: Seq<ImportedMod>, id: ProviderId, i: int)
    requires
        0 <= i <= mods.len(),
        place_of(mods.take(i), id) is Some,
    ensures
        place_of(mods, id) == place_of(mods.take(i), id),
    decreases mods.len() - i,
{
    if i == mods.len() {
        assert(mods.take(i) =~= mods);
    } else {
        assert(mods.take(i + 1).drop_last() =~= mods.take(i));
        lemma_place_stays(mods, id, i + 1);
    }
}

proof fn lemma_place_bounds(mods: Seq<ImportedMod>, id: ProviderId)
    ensures
        match place_of(mods, id) {
            Some(at) => 0 <= at < mods.len() && mods[at].id == id && forall|j: int|
                0 <= j < at ==> (#[trigger] mods[j]).id != id,
            None => forall|j: int| 0 <= j < mods.len() ==> (#[trigger] mods[j]).id != id,
        },
    decreases mods.len(),
{
    if mods.len() > 0 {
        lemma_place_bounds(mods.drop_last(), id);
        assert forall|j: int| 0 <= j < mods.len() - 1 implies mods[j] == mods.drop_last()[j] by {}
    }
}

proof fn lemma_free_id_bounds(mods: Seq<ImportedMod>, next_id: int)
    ensures
        free_id(mods, next_id) >= next_id,
        forall|i: int| 0 <= i < mods.len() ==> (#[trigger] mods[i]).id.0 < free_id(mods, next_id),
    decreases mods.len(),
{
    if mods.len() > 0 {
        lemma_free_id_bounds(mods.drop_last(), next_id);
        assert forall|i: int| 0 <= i < mods.len() implies (#[trigger] mods[i]).id.0 < free_id(
            mods,
            next_id,
        ) by {
            if i < mods.len() - 1 {
                assert(mods[i] == mods.drop_last()[i]);
            }
        }
    }
}

proof fn lemma_free_id_grows(mods: Seq<ImportedMod>, next_id: int, i: int)
    requires
        0 <= i <= mods.len(),
    ensures
        free_id(mods.take(i), next_id) <= free_id(mods, next_id),
    decreases mods.len() - i,
{
    if i < mods.len() {
        assert(mods.take(i + 1).drop_last() =~= mods.take(i));
        lemma_free_id_grows(mods, next_id, i + 1);
    } else {
        assert(mods.take(i) =~= mods);
    }
}

fn find_place(mods: &Vec<ImportedMod>, id: ProviderId) -> (r: Option<usize>)
    ensures
        match r {
            Some(at) => place_of(mods@, id) == Some(at as int) && at < mods@.len(),
            None => place_of(mods@, id) is None,
        },
{
    let mut i: usize = 0;
    assert(mods@.take(0) =~= Seq::empty());
    while i < mods.len()
        invariant
            i <= mods.len(),
            place_of(mods@.take(i as int), id) is None,
        decreases mods.len() - i,
    {
        assert(mods@.take(i + 1).drop_last() =~= mods@.take(i as int));
        if mods[i].id == id {
            proof {
                lemma_place_stays(mods@, id, i + 1);
            }
            return Some(i);
        }
        i = i + 1;
    }
    assert(mods@.take(mods@.len() as int) =~= mods@);
    None
}

impl ModLibrary {
    /// Whether the lists of every manifest ascend.
    pub open spec fn wf(&self) -> bool {
        forall|i: int| 0 <= i < self.mods@.len() ==> (#[trigger] self.mods@[i]).manifest.wf()
    }

    /// Whether no mod was imported.
    pub fn is_empty(&self) -> (r: bool)
        ensures
            r == (self.mods@.len() == 0),
    {
        self.mods.len() == 0
    }

    /// The enabled mods in load order.
    pub fn enabled(&self) -> (r: Vec<&ImportedMod>)
        ensures
            r@.len() == enabled_of(self.mods@).len(),
            forall|i: int| 0 <= i < r@.len() ==> *(#[trigger] r@[i]) == enabled_of(self.mods@)[i],
    {
        let mut r: Vec<&ImportedMod> = Vec::new();
        let mut i: usize = 0;
        assert(self.mods@.take(0) =~= Seq::empty());
        while i < self.mods.len()
            invariant
                i <= self.mods.len(),
                r@.len() == enabled_of(self.mods@.take(i as int)).len(),
                forall|j: int|
                    0 <= j < r@.len() ==> *(#[trigger] r@[j]) == enabled_of(
                        self.mods@.take(i as int),
                    )[j],
            decreases self.mods.len() - i,
        {
            assert(self.mods@.take(i + 1).drop_last() =~= self.mods@.take(i as int));
            if self.mods[i].enabled {
                r.push(&self.mods[i]);
            }
            i = i + 1;
        }
        assert(self.mods@.take(self.mods@.len() as int) =~= self.mods@);
        r
    }

    /// The mod of an id.
    pub fn get(&self, id: ProviderId) -> (r: Option<&ImportedMod>)
        ensures
            match r {
                Some(entry) => place_of(self.mods@, id) is Some && *entry
                    == self.mods@[place_of(self.mods@, id)->0],
                None => place_of(self.mods@, id) is None,
            },
    {
        match find_place(&self.mods, id) {
            Some(at) => Some(&self.mods[at]),
            None => None,
        }
    }

    /// What a mod is called.
    pub open spec fn called(&self, id: ProviderId) -> Seq<char> {
        match place_of(self.mods@, id) {
            Some(at) => self.mods@[at].name@,
            None => "mod "@ + dec(id.0 as nat),
        }
    }

    /// The name of a mod; its number where it is not there.
    pub fn name_of(&self, id: ProviderId) -> (r: String)
        ensures
            r@ == self.called(id),
    {
        match self.get(id) {
            Some(entry) => entry.name.clone(),
            None => {
                let number = dec_text(id.0 as u64);
                concat("mod ", number.as_str())
            },
        }
    }

    /// Takes an id that was never given.
    fn allocate_id(&mut self) -> (r: ProviderId)
        requires
            free_id(old(self).mods@, old(self).next_id as int) < u32::MAX,
        ensures
            r.0 == free_id(old(self).mods@, old(self).next_id as int),
            final(self).next_id == r.0 + 1,
            final(self).mods == old(self).mods,
    {
        let mut next: u32 = self.next_id;
        let mut i: usize = 0;
        assert(self.mods@.take(0) =~= Seq::empty());
        while i < self.mods.len()
            invariant
                i <= self.mods@.len(),
                self.mods == old(self).mods,
                self.next_id == old(self).next_id,
                free_id(self.mods@, self.next_id as int) < u32::MAX,
                next == free_id(self.mods@.take(i as int), self.next_id as int),
            decreases self.mods.len() - i,
        {
            proof {
                assert(self.mods@.take(i + 1).drop_last() =~= self.mods@.take(i as int));
                lemma_free_id_bounds(self.mods@, self.next_id as int);
            }
            let past: u32 = self.mods[i].id.0 + 1;
            if past > next {
                next = past;
            }
            i = i + 1;
        }
        assert(self.mods@.take(self.mods@.len() as int) =~= self.mods@);
        self.next_id = next + 1;
        ProviderId(next)
    }

    /// Adds a scanned mod behind the others, enabled, under an id that was never given.
    pub fn insert(&mut self, prepared: PreparedMod) -> (r: ProviderId)
        requires
            free_id(old(self).mods@, old(self).next_id as int) < u32::MAX,
        ensures
            inserts(*old(self), *final(self), prepared, r),
    {
        let id = self.allocate_id();
        self.mods.push(
            ImportedMod {
                id,
                name: prepared.name,
                source: prepared.source,
                root: prepared.root,
                detection: prepared.detection,
                enabled: true,
                manifest: prepared.manifest,
            },
        );
        id
    }

    /// Imports a folder that was located and scanned.
    pub fn import_directory(
        &mut self,
        source: ModSource,
        name: Option<String>,
        root: String,
        detection: RootDetection,
        manifest: ModManifest,
    ) -> (r: Result<ProviderId, String>)
        requires
            free_id(old(self).mods@, old(self).next_id as int) < u32::MAX,
        ensures
            imports(*old(self), *final(self), source, name, root, detection, manifest, r),
    {
        let ghost was = self.mods@;
        match prepare(source, name, root, detection, manifest) {
            Ok(prepared) => {
                let id = self.insert(prepared);
                assert(self.mods@.drop_last() =~= was);
                Ok(id)
            },
            Err(message) => Err(message),
        }
    }

    /// Removes a mod. Its id is not given again.
    pub fn remove(&mut self, id: ProviderId)
        ensures
            final(self).mods@ == without_id(old(self).mods@, id),
            final(self).next_id == old(self).next_id,
    {
        let ghost was = self.mods@;
        let mut i: usize = 0;
        let mut seen: Ghost<int> = Ghost(0);
        assert(was.take(0) =~= Seq::empty());
        assert(was.skip(0) =~= was);
        assert(self.mods@ =~= without_id(was.take(0), id) + was.skip(0));
        while i < self.mods.len()
            invariant
                i <= self.mods@.len(),
                0 <= seen@ <= was.len(),
                i == without_id(was.take(seen@), id).len(),
                self.mods@ == without_id(was.take(seen@), id) + was.skip(seen@),
                self.next_id == old(self).next_id,
            decreases was.len() - seen@,
        {
            let ghost kept = without_id(was.take(seen@), id);
            assert(self.mods@.len() == kept.len() + (was.len() - seen@));
            assert(self.mods@[i as int] == was[seen@]);
            assert(was.take(seen@ + 1).drop_last() =~= was.take(seen@));
            if self.mods[i].id == id {
                self.mods.remove(i);
                assert(self.mods@ =~= kept + was.skip(seen@ + 1));
            } else {
                assert(self.mods@ =~= kept.push(was[seen@]) + was.skip(seen@ + 1));
                i = i + 1;
            }
            proof {
                seen@ = seen@ + 1;
            }
        }
        proof {
            assert(seen@ == was.len());
            assert(was.take(was.len() as int) =~= was);
            assert(self.mods@ =~= without_id(was, id));
        }
    }

    /// Moves a mod one place later in load order. Later wins, so this promotes it.
    pub fn move_later(&mut self, id: ProviderId)
        ensures
            final(self).next_id == old(self).next_id,
            final(self).mods@ == moved_later(old(self).mods@, id),
    {
        let ghost was = self.mods@;
        match find_place(&self.mods, id) {
            Some(at) => {
                if at < self.mods.len() - 1 {
                    let entry = self.mods.remove(at);
                    self.mods.insert(at + 1, entry);
                    assert(self.mods@ =~= swapped(was, at as int));
                }
            },
            None => {},
        }
    }

    /// Moves a mod one place earlier in load order.
    pub fn move_earlier(&mut self, id: ProviderId)
        ensures
            final(self).next_id == old(self).next_id,
            final(self).mods@ == moved_earlier(old(self).mods@, id),
    {
        let ghost was = self.mods@;
        match find_place(&self.mods, id) {
            Some(at) => {
                if at > 0 {
                    let entry = self.mods.remove(at);
                    self.mods.insert(at - 1, entry);
                    assert(self.mods@ =~= swapped(was, at - 1));
                }
            },
            None => {},
        }
    }

    /// Drops the mods whose files are gone; `present` says which are there.
    pub fn retain_present(&mut self, present: &Vec<bool>)
        requires
            present@.len() == old(self).mods@.len(),
        ensures
            final(self).mods@ == flagged(old(self).mods@, present@),
            final(self).next_id == old(self).next_id,
    {
        let ghost was = self.mods@;
        let mut i: usize = 0;
        let mut seen: usize = 0;
        assert(was.take(0) =~= Seq::empty());
        assert(was.skip(0) =~= was);
        assert(self.mods@ =~= flagged(was.take(0), present@) + was.skip(0));
        while seen < present.len()
            invariant
                seen <= present@.len(),
                present@.len() == was.len(),
                i == flagged(was.take(seen as int), present@).len(),
                self.mods@ == flagged(was.take(seen as int), present@) + was.skip(seen as int),
                self.next_id == old(self).next_id,
            decreases present@.len() - seen,
        {
            let ghost kept = flagged(was.take(seen as int), present@);
            assert(self.mods@[i as int] == was[seen as int]);
            assert(was.take(seen + 1).drop_last() =~= was.take(seen as int));
            if present[seen] {
                assert(self.mods@ =~= kept.push(was[seen as int]) + was.skip(seen + 1));
                assert(self.mods@.len() == self.mods.len());
                i = i + 1;
            } else {
                self.mods.remove(i);
                assert(self.mods@ =~= kept + was.skip(seen + 1));
            }
            seen = seen + 1;
        }
        proof {
            assert(was.take(was.len() as int) =~= was);
            assert(self.mods@ =~= flagged(was, present@));
        }
    }

    /// The roots of the enabled mods, earliest first.
    pub fn enabled_roots(&self) -> (r: Vec<String>)
        ensures
            r@.len() == enabled_of(self.mods@).len(),
            forall|i: int|
                0 <= i < r@.len() ==> (#[trigger] r@[i])@ == enabled_of(self.mods@)[i].root@,
    {
        let enabled = self.enabled();
        let mut r: Vec<String> = Vec::new();
        let mut i: usize = 0;
        while i < enabled.len()
            invariant
                i <= enabled.len(),
                enabled@.len() == enabled_of(self.mods@).len(),
                forall|j: int|
                    0 <= j < enabled@.len() ==> *(#[trigger] enabled@[j]) == enabled_of(
                        self.mods@,
                    )[j],
                r@.len() == i,
                forall|j: int|
                    0 <= j < i ==> (#[trigger] r@[j])@ == enabled_of(self.mods@)[j].root@,
            decreases enabled.len() - i,
        {
            r.push(enabled[i].root.clone());
            i = i + 1;
        }
        r
    }

    /// The enabled providers of a fighter in load order. The fighter's name may be in any case.
    pub fn providers_for_fighter(&self, fighter: &str) -> (r: Vec<ProviderId>)
        ensures
            r@ == fighter_providers(self.mods@, ascii_lower(fighter@)),
    {
        let wanted = to_ascii_lower(fighter);
        let mut r: Vec<ProviderId> = Vec::new();
        let mut i: usize = 0;
        assert(self.mods@.take(0) =~= Seq::empty());
        while i < self.mods.len()
            invariant
                i <= self.mods.len(),
                wanted@ == ascii_lower(fighter@),
                r@ == fighter_providers(self.mods@.take(i as int), wanted@),
            decreases self.mods.len() - i,
        {
            assert(self.mods@.take(i + 1).drop_last() =~= self.mods@.take(i as int));
            if self.mods[i].enabled && lists_fighter(&self.mods[i].manifest, wanted.as_str()) {
                r.push(self.mods[i].id);
            }
            i = i + 1;
        }
        assert(self.mods@.take(self.mods@.len() as int) =~= self.mods@);
        r
    }

    /// The enabled providers of a game path in load order.
    fn path_providers(&self, path: &str) -> (r: Vec<ProviderId>)
        requires
            self.wf(),
        ensures
            r@ == providers_of(self.mods@, path@),
    {
        let mut r: Vec<ProviderId> = Vec::new();
        let mut i: usize = 0;
        assert(self.mods@.take(0) =~= Seq::empty());
        while i < self.mods.len()
            invariant
                i <= self.mods.len(),
                self.wf(),
                r@ == providers_of(self.mods@.take(i as int), path@),
            decreases self.mods.len() - i,
        {
            assert(self.mods@.take(i + 1).drop_last() =~= self.mods@.take(i as int));
            if self.mods[i].enabled && ascending_has(&self.mods[i].manifest.paths, path) {
                r.push(self.mods[i].id);
            }
            i = i + 1;
        }
        assert(self.mods@.take(self.mods@.len() as int) =~= self.mods@);
        r
    }

    /// Every path that an enabled mod provides, ascending.
    fn all_paths(&self) -> (r: Vec<String>)
        requires
            self.wf(),
        ensures
            ascending(texts(r@)),
            forall|path: Seq<char>|
                providers_of(self.mods@, path).len() > 0 ==> #[trigger] texts(r@).contains(path),
    {
        let mut r: Vec<String> = Vec::new();
        let mut i: usize = 0;
        assert(self.mods@.take(0) =~= Seq::empty());
        while i < self.mods.len()
            invariant
                i <= self.mods.len(),
                self.wf(),
                ascending(texts(r@)),
                forall|path: Seq<char>|
                    providers_of(self.mods@.take(i as int), path).len() > 0 ==> #[trigger] texts(
                        r@,
                    ).contains(path),
            decreases self.mods.len() - i,
        {
            let ghost was = texts(r@);
            assert(self.mods@.take(i + 1).drop_last() =~= self.mods@.take(i as int));
            if self.mods[i].enabled {
                let paths = &self.mods[i].manifest.paths;
                let mut k: usize = 0;
                while k < paths.len()
                    invariant
                        k <= paths.len(),
                        ascending(texts(r@)),
                        forall|path: Seq<char>|
                            was.contains(path) ==> #[trigger] texts(r@).contains(path),
                        forall|j: int| 0 <= j < k ==> texts(r@).contains(#[trigger] paths@[j]@),
                    decreases paths.len() - k,
                {
                    let ghost now = texts(r@);
                    insert_ascending(&mut r, paths[k].as_str());
                    proof {
                        assert forall|path: Seq<char>| now.contains(path) || path
                            == paths@[k as int]@ implies #[trigger] texts(r@).contains(path) by {
                            assert(now.to_set().insert(paths@[k as int]@).contains(path));
                            assert(texts(r@).to_set().contains(path));
                        }
                    }
                    k = k + 1;
                }
                proof {
                    assert forall|path: Seq<char>| providers_of(
                        self.mods@.take(i + 1),
                        path,
                    ).len() > 0 implies #[trigger] texts(r@).contains(path) by {
                        if provides(self.mods@[i as int], path) {
                            let j = texts(paths@).index_of(path);
                            assert(paths@[j]@ == path);
                        }
                    }
                }
            }
            i = i + 1;
        }
        assert(self.mods@.take(self.mods@.len() as int) =~= self.mods@);
        r
    }

    /// Every path that more than one enabled mod provides, ascending, with the winner last.
    pub fn conflicts(&self) -> (r: Vec<Conflict>)
        requires
            self.wf(),
        ensures
            is_conflict_list(r@, self.mods@),
    {
        let paths = self.all_paths();
        let mut r: Vec<Conflict> = Vec::new();
        let mut i: usize = 0;
        while i < paths.len()
            invariant
                i <= paths.len(),
                self.wf(),
                ascending(texts(paths@)),
                ascending(conflict_paths(r@)),
                forall|k: int|
                    0 <= k < r@.len() ==> exists|j: int|
                        0 <= j < i && #[trigger] paths@[j]@ == (#[trigger] r@[k]).game_path@,
                forall|k: int|
                    0 <= k < r@.len() ==> {
                        &&& (#[trigger] r@[k]).providers@ == providers_of(
                            self.mods@,
                            r@[k].game_path@,
                        )
                        &&& r@[k].providers@.len() > 1
                    },
                forall|j: int|
                    0 <= j < i && providers_of(self.mods@, #[trigger] paths@[j]@).len() > 1
                        ==> conflict_paths(r@).contains(paths@[j]@),
            decreases paths.len() - i,
        {
            let providers = self.path_providers(paths[i].as_str());
            let ghost was = r@;
            if providers.len() > 1 {
                r.push(Conflict { game_path: paths[i].clone(), providers });
                proof {
                    let now = conflict_paths(r@);
                    assert(now =~= conflict_paths(was).push(paths@[i as int]@));
                    assert(now[was.len() as int] == paths@[i as int]@);
                    assert forall|p: int, q: int| 0 <= p < q < now.len() implies before(
                        #[trigger] now[p],
                        #[trigger] now[q],
                    ) by {
                        if q == was.len() {
                            let j = choose|j: int|
                                0 <= j < i && #[trigger] paths@[j]@ == was[p].game_path@;
                            assert(before(texts(paths@)[j], texts(paths@)[i as int]));
                        } else {
                            assert(before(conflict_paths(was)[p], conflict_paths(was)[q]));
                        }
                    }
                    assert forall|k: int| 0 <= k < r@.len() implies exists|j: int|
                        0 <= j < i + 1 && #[trigger] paths@[j]@ == (
                        #[trigger] r@[k]).game_path@ by {
                        if k < was.len() {
                            let j = choose|j: int|
                                0 <= j < i && #[trigger] paths@[j]@ == was[k].game_path@;
                            assert(paths@[j]@ == r@[k].game_path@);
                        } else {
                            assert(paths@[i as int]@ == r@[k].game_path@);
                        }
                    }
                    assert forall|j: int|
                        0 <= j < i + 1 && providers_of(
                            self.mods@,
                            #[trigger] paths@[j]@,
                        ).len() > 1 implies now.contains(paths@[j]@) by {
                        if j < i {
                            let k = conflict_paths(was).index_of(paths@[j]@);
                            assert(now[k] == paths@[j]@);
                        }
                    }
                }
            }
            i = i + 1;
        }
        proof {
            assert forall|path: Seq<char>| #[trigger]
                providers_of(self.mods@, path).len() > 1 implies conflict_paths(r@).contains(
                path,
            ) by {
                assert(texts(paths@).contains(path));
                let j = texts(paths@).index_of(path);
                assert(paths@[j]@ == path);
            }
        }
        r
    }
}

fn lists_fighter(manifest: &ModManifest, name: &str) -> (r: bool)
    ensures
        r == fighter_names(manifest.fighters@).contains(name@),
{
    let mut i: usize = 0;
    while i < manifest.fighters.len()
        invariant
            i <= manifest.fighters.len(),
            forall|j: int| 0 <= j < i ==> (#[trigger] manifest.fighters@[j]).name@ != name@,
        decreases manifest.fighters.len() - i,
    {
        if same(manifest.fighters[i].name.as_str(), name) {
            assert(fighter_names(manifest.fighters@)[i as int] == name@);
            return true;
        }
        i = i + 1;
    }
    proof {
        if fighter_names(manifest.fighters@).contains(name@) {
            let k = fighter_names(manifest.fighters@).index_of(name@);
            assert(manifest.fighters@[k].name@ == name@);
        }
    }
    false
}

/// The conflicts of one fighter, in order.
pub open spec fn fighter_conflicts(conflicts: Seq<Conflict>, fighter: Seq<char>) -> Seq<Conflict>
    decreases conflicts.len(),
{
    if conflicts.len() == 0 {
        Seq::empty()
    } else if path_fighter(conflicts.last().game_path@) == Some(fighter) {
        fighter_conflicts(conflicts.drop_last(), fighter).push(conflicts.last())
    } else {
        fighter_conflicts(conflicts.drop_last(), fighter)
    }
}

/// What a conflict says, apart from how it is stored.
pub open spec fn same_conflict(a: Conflict, b: Conflict) -> bool {
    a.game_path@ == b.game_path@ && a.providers@ == b.providers@
}

/// The names of a roll-up.
pub open spec fn rollup_names(rollup: Seq<(String, Vec<Conflict>)>) -> Seq<Seq<char>> {
    Seq::new(rollup.len(), |i: int| rollup[i].0@)
}

/// Whether two lists of conflicts say the same.
pub open spec fn same_conflicts(a: Seq<Conflict>, b: Seq<Conflict>) -> bool {
    a.len() == b.len() && forall|i: int| 0 <= i < a.len() ==> same_conflict(#[trigger] a[i], b[i])
}

/// Whether a roll-up lists the conflicts of every fighter that has any, ascending by name.
pub open spec fn is_rollup(
    rollup: Seq<(String, Vec<Conflict>)>,
    conflicts: Seq<Conflict>,
) -> bool {
    &&& ascending(rollup_names(rollup))
    &&& forall|i: int|
        0 <= i < rollup.len() ==> {
            &&& (#[trigger] rollup[i]).1@.len() > 0
            &&& same_conflicts(rollup[i].1@, fighter_conflicts(conflicts, rollup[i].0@))
        }
    &&& forall|fighter: Seq<char>| #[trigger]
        fighter_conflicts(conflicts, fighter).len() > 0 ==> rollup_names(rollup).contains(fighter)
}

/// Two lists of the conflicts of some mods say the same.
proof fn lemma_conflict_lists_agree(a: Seq<Conflict>, b: Seq<Conflict>, mods: Seq<ImportedMod>)
    requires
        is_conflict_list(a, mods),
        is_conflict_list(b, mods),
    ensures
        same_conflicts(a, b),
{
    let x = conflict_paths(a);
    let y = conflict_paths(b);
    assert forall|path: Seq<char>| #[trigger] x.contains(path) <==> y.contains(path) by {
        if x.contains(path) {
            let i = x.index_of(path);
            assert(a[i].providers@ == providers_of(mods, path));
        }
        if y.contains(path) {
            let i = y.index_of(path);
            assert(b[i].providers@ == providers_of(mods, path));
        }
    }
    lemma_ascending_is_unique(x, y);
    assert(a.len() == x.len() && b.len() == y.len());
    assert forall|i: int| 0 <= i < a.len() implies same_conflict(#[trigger] a[i], b[i]) by {
        assert(x[i] == y[i]);
        assert(b[i].providers@ == providers_of(mods, b[i].game_path@));
    }
}

/// Lists that say the same give each fighter the same conflicts, all of them its own.
proof fn lemma_fighter_conflicts_agree(a: Seq<Conflict>, b: Seq<Conflict>, fighter: Seq<char>)
    requires
        same_conflicts(a, b),
    ensures
        same_conflicts(fighter_conflicts(a, fighter), fighter_conflicts(b, fighter)),
        forall|i: int|
            0 <= i < fighter_conflicts(a, fighter).len() ==> path_fighter(
                (#[trigger] fighter_conflicts(a, fighter)[i]).game_path@,
            ) == Some(fighter),
    decreases a.len(),
{
    if a.len() > 0 {
        assert(same_conflict(a[a.len() - 1], b[b.len() - 1]));
        assert forall|i: int| 0 <= i < a.len() - 1 implies same_conflict(
            #[trigger] a.drop_last()[i],
            b.drop_last()[i],
        ) by {
            assert(same_conflict(a[i], b[i]));
        }
        lemma_fighter_conflicts_agree(a.drop_last(), b.drop_last(), fighter);
    }
}

/// What is rolled up by fighter is what the conflicts are: a roll-up of the conflicts of some mods is
/// the roll-up of any list of them, in that order. A conflict stands under its own fighter only, so
/// that one on a path without a fighter stands nowhere.
pub proof fn law_the_roll_up_is_of_the_conflicts(
    rollup: Seq<(String, Vec<Conflict>)>,
    rolled: Seq<Conflict>,
    listed: Seq<Conflict>,
    mods: Seq<ImportedMod>,
)
    requires
        is_conflict_list(rolled, mods),
        is_rollup(rollup, rolled),
        is_conflict_list(listed, mods),
    ensures
        same_conflicts(rolled, listed),
        is_rollup(rollup, listed),
        forall|i: int, k: int|
            0 <= i < rollup.len() && 0 <= k < rollup[i].1@.len() ==> path_fighter(
                (#[trigger] rollup[i].1@[k]).game_path@,
            ) == Some(rollup[i].0@),
{
    lemma_conflict_lists_agree(rolled, listed, mods);
    assert forall|i: int| 0 <= i < rollup.len() implies {
        &&& (#[trigger] rollup[i]).1@.len() > 0
        &&& same_conflicts(rollup[i].1@, fighter_conflicts(listed, rollup[i].0@))
    } by {
        let own = fighter_conflicts(rolled, rollup[i].0@);
        let other = fighter_conflicts(listed, rollup[i].0@);
        lemma_fighter_conflicts_agree(rolled, listed, rollup[i].0@);
        assert forall|k: int| 0 <= k < rollup[i].1@.len() implies same_conflict(
            #[trigger] rollup[i].1@[k],
            other[k],
        ) by {
            assert(same_conflict(own[k], other[k]));
        }
    }
    assert forall|fighter: Seq<char>| #[trigger]
        fighter_conflicts(listed, fighter).len() > 0 implies rollup_names(rollup).contains(
        fighter,
    ) by {
        lemma_fighter_conflicts_agree(rolled, listed, fighter);
    }
    assert forall|i: int, k: int|
        0 <= i < rollup.len() && 0 <= k < rollup[i].1@.len() implies path_fighter(
        (#[trigger] rollup[i].1@[k]).game_path@,
    ) == Some(rollup[i].0@) by {
        lemma_fighter_conflicts_agree(rolled, listed, rollup[i].0@);
        let own = fighter_conflicts(rolled, rollup[i].0@);
        assert(same_conflict(rollup[i].1@[k], own[k]));
    }
}

fn copy_conflict(c: &Conflict) -> (r: Conflict)
    ensures
        same_conflict(r, *c),
{
    let mut providers: Vec<ProviderId> = Vec::new();
    let mut i: usize = 0;
    while i < c.providers.len()
        invariant
            i <= c.providers.len(),
            providers@ == c.providers@.take(i as int),
        decreases c.providers.len() - i,
    {
        providers.push(c.providers[i]);
        i = i + 1;
    }
    assert(providers@ =~= c.providers@);
    Conflict { game_path: c.game_path.clone(), providers }
}

/// The names of the fighters that have conflicts, ascending.
fn conflicted_fighters(conflicts: &Vec<Conflict>) -> (r: Vec<String>)
    ensures
        ascending(texts(r@)),
        forall|fighter: Seq<char>| #[trigger]
            texts(r@).contains(fighter) <==> fighter_conflicts(conflicts@, fighter).len() > 0,
{
    let mut r: Vec<String> = Vec::new();
    let mut i: usize = 0;
    assert(conflicts@.take(0) =~= Seq::empty());
    while i < conflicts.len()
        invariant
            i <= conflicts.len(),
            ascending(texts(r@)),
            forall|fighter: Seq<char>| #[trigger]
                texts(r@).contains(fighter) <==> fighter_conflicts(
                    conflicts@.take(i as int),
                    fighter,
                ).len() > 0,
        decreases conflicts.len() - i,
    {
        assert(conflicts@.take(i + 1).drop_last() =~= conflicts@.take(i as int));
        let ghost was = texts(r@);
        match fighter_of_path(conflicts[i].game_path.as_str()) {
            Some(name) => {
                insert_ascending(&mut r, name.as_str());
                assert forall|fighter: Seq<char>| #[trigger]
                    texts(r@).contains(fighter) <==> fighter_conflicts(
                        conflicts@.take(i + 1),
                        fighter,
                    ).len() > 0 by {
                    assert(texts(r@).to_set().contains(fighter) <==> was.to_set().insert(
                        name@,
                    ).contains(fighter));
                    assert(was.to_set().contains(fighter) <==> was.contains(fighter));
                }
            },
            None => {},
        }
        i = i + 1;
    }
    assert(conflicts@.take(conflicts@.len() as int) =~= conflicts@);
    r
}

/// Rolls conflicts up by fighter.
pub fn rollup_conflicts(conflicts: &Vec<Conflict>) -> (r: Vec<(String, Vec<Conflict>)>)
    ensures
        is_rollup(r@, conflicts@),
{
    let names = conflicted_fighters(conflicts);
    let mut r: Vec<(String, Vec<Conflict>)> = Vec::new();
    let mut n: usize = 0;
    while n < names.len()
        invariant
            n <= names.len(),
            ascending(texts(names@)),
            forall|fighter: Seq<char>| #[trigger]
                texts(names@).contains(fighter) <==> fighter_conflicts(conflicts@, fighter).len()
                    > 0,
            r@.len() == n,
            forall|k: int|
                0 <= k < n ==> {
                    &&& (#[trigger] r@[k]).0@ == names@[k]@
                    &&& same_conflicts(r@[k].1@, fighter_conflicts(conflicts@, names@[k]@))
                },
        decreases names.len() - n,
    {
        let mut list: Vec<Conflict> = Vec::new();
        let mut i: usize = 0;
        assert(conflicts@.take(0) =~= Seq::empty());
        while i < conflicts.len()
            invariant
                n < names@.len(),
                i <= conflicts.len(),
                same_conflicts(
                    list@,
                    fighter_conflicts(conflicts@.take(i as int), names@[n as int]@),
                ),
            decreases conflicts.len() - i,
        {
            assert(conflicts@.take(i + 1).drop_last() =~= conflicts@.take(i as int));
            match fighter_of_path(conflicts[i].game_path.as_str()) {
                Some(name) => {
                    if same(name.as_str(), names[n].as_str()) {
                        list.push(copy_conflict(&conflicts[i]));
                    }
                },
                None => {},
            }
            i = i + 1;
        }
        assert(conflicts@.take(conflicts@.len() as int) =~= conflicts@);
        r.push((names[n].clone(), list));
        n = n + 1;
    }
    proof {
        assert(rollup_names(r@) =~= texts(names@));
        assert forall|i: int| 0 <= i < r@.len() implies (#[trigger] r@[i]).1@.len() > 0 by {
            assert(texts(names@)[i] == names@[i]@);
            assert(texts(names@).contains(names@[i]@));
        }
    }
    r
}

impl ModLibrary {
    /// The conflicts of the library rolled up by fighter.
    pub fn conflicts_by_fighter(&self) -> (r: Vec<(String, Vec<Conflict>)>)
        requires
            self.wf(),
        ensures
            exists|conflicts: Seq<Conflict>| #[trigger]
                is_conflict_list(conflicts, self.mods@) && is_rollup(r@, conflicts),
    {
        let conflicts = self.conflicts();
        let r = rollup_conflicts(&conflicts);
        assert(is_conflict_list(conflicts@, self.mods@) && is_rollup(r@, conflicts@));
        r
    }

    /// Whether a folder is there already: as the directory that was scanned for a mod, or as the
    /// directory in it that the mod's game directories stand in.
    pub open spec fn has_folder(&self, root: Seq<char>) -> bool {
        exists|i: int|
            0 <= i < self.mods@.len() && stands_in(#[trigger] self.mods@[i], root)
    }

    /// Whether a folder of an earlier configuration has yet to be imported.
    pub fn needs_adoption(&self, root: &str) -> (r: bool)
        ensures
            r == !self.has_folder(root@),
    {
        let mut i: usize = 0;
        while i < self.mods.len()
            invariant
                i <= self.mods.len(),
                forall|j: int| 0 <= j < i ==> !stands_in(#[trigger] self.mods@[j], root@),
            decreases self.mods.len() - i,
        {
            if are_same_path(self.mods[i].source.scan_base(), root) || are_same_path(
                self.mods[i].root.as_str(),
                root,
            ) {
                assert(stands_in(self.mods@[i as int], root@));
                return false;
            }
            i = i + 1;
        }
        true
    }

    /// Imports a folder of an earlier configuration and says how it went; nothing where it is
    /// there already. `located` is what was found in the folder, or why nothing was.
    pub fn adopt_legacy_root(
        &mut self,
        root: &str,
        located: Result<(String, RootDetection, ModManifest), String>,
    ) -> (r: Option<String>)
        requires
            free_id(old(self).mods@, old(self).next_id as int) < u32::MAX,
        ensures
            adopted(*old(self), *final(self), root@, located, r),
    {
        if !self.needs_adoption(root) {
            return None;
        }
        let ghost was = self.mods@;
        let ghost next = self.next_id as int;
        match located {
            Err(error) => {
                let mut note = root.to_owned();
                note.append(": ");
                note.append(error.as_str());
                Some(note)
            },
            Ok((path, detection, manifest)) => {
                let source = ModSource::Folder(root.to_owned());
                match self.import_directory(source, None, path, detection, manifest) {
                    Ok(id) => {
                        proof {
                            lemma_free_id_bounds(was, next);
                            lemma_place_bounds(self.mods@, id);
                            let at = place_of(self.mods@, id);
                            assert(self.mods@[was.len() as int].id == id);
                            if at is Some && at->0 < was.len() {
                                assert(self.mods@.drop_last()[at->0] == self.mods@[at->0]);
                                assert(was[at->0].id.0 < free_id(was, next));
                            }
                            assert(at == Some(was.len() as int));
                        }
                        let name = self.name_of(id);
                        Some(concat("Imported ", name.as_str()))
                    },
                    Err(error) => {
                        let mut note = root.to_owned();
                        note.append(": ");
                        note.append(error.as_str());
                        Some(note)
                    },
                }
            },
        }
    }
}

/// Whether a folder is the scanned directory of a mod or its root.
pub open spec fn stands_in(imported: ImportedMod, root: Seq<char>) -> bool {
    same_path(imported.source.base(), root) || same_path(imported.root@, root)
}

/// What was found in a folder, or why nothing was.
pub type Located = Result<(String, RootDetection, ModManifest), String>;

/// Why a folder cannot be imported; none where it can.
pub open spec fn refusal(root: Seq<char>, located: Located) -> Option<Seq<char>> {
    match located {
        Err(error) => Some(error@),
        Ok((path, detection, manifest)) => if manifest.paths@.len() == 0 && manifest.plugins@.len()
            == 0 {
            Some(root + " contains no game files ("@ + detection.description() + ")"@)
        } else {
            None
        },
    }
}

/// Whether a folder of an earlier configuration was taken up: not where it is there already; else
/// with a note of how it went.
pub open spec fn adopted(
    was: ModLibrary,
    now: ModLibrary,
    root: Seq<char>,
    located: Located,
    note: Option<String>,
) -> bool {
    if was.has_folder(root) {
        note is None && now == was
    } else {
        note is Some && match refusal(root, located) {
            Some(error) => note->0@ == root + ": "@ + error && now == was,
            None => {
                let (path, detection, manifest) = located->Ok_0;
                let last = now.mods@.last();
                &&& now.mods@.len() == was.mods@.len() + 1
                &&& now.mods@.drop_last() == was.mods@
                &&& last.id.0 == free_id(was.mods@, was.next_id as int)
                &&& now.next_id == last.id.0 + 1
                &&& last.name@ == default_name(root)
                &&& last.source.base() == root
                &&& last.source.origin() == root
                &&& last.root == path
                &&& last.detection == detection
                &&& last.manifest == manifest
                &&& last.enabled
                &&& note->0@ == "Imported "@ + default_name(root)
            },
        }
    }
}

proof fn lemma_free_id_is_next(mods: Seq<ImportedMod>, next_id: int)
    requires
        forall|i: int| 0 <= i < mods.len() ==> (#[trigger] mods[i]).id.0 < next_id,
    ensures
        free_id(mods, next_id) == next_id,
    decreases mods.len(),
{
    if mods.len() > 0 {
        assert forall|i: int| 0 <= i < mods.len() - 1 implies (
        #[trigger] mods.drop_last()[i]).id.0 < next_id by {
            assert(mods[i].id.0 < next_id);
        }
        lemma_free_id_is_next(mods.drop_last(), next_id);
        assert(mods[mods.len() - 1].id.0 < next_id);
    }
}

proof fn lemma_adopting_takes_one_id(
    was: ModLibrary,
    now: ModLibrary,
    root: Seq<char>,
    located: Located,
    note: Option<String>,
)
    requires
        adopted(was, now, root, located, note),
    ensures
        free_id(now.mods@, now.next_id as int) <= free_id(was.mods@, was.next_id as int) + 1,
{
    if now != was {
        lemma_free_id_bounds(was.mods@, was.next_id as int);
        assert forall|i: int| 0 <= i < now.mods@.len() implies (#[trigger] now.mods@[i]).id.0
            < now.next_id by {
            if i < was.mods@.len() {
                assert(now.mods@[i] == now.mods@.drop_last()[i]);
                assert(was.mods@[i].id.0 < free_id(was.mods@, was.next_id as int));
            }
        }
        lemma_free_id_is_next(now.mods@, now.next_id as int);
    }
}

/// The notes that there are.
pub open spec fn notes_of(notes: Seq<Option<String>>) -> Seq<Seq<char>>
    decreases notes.len(),
{
    if notes.len() == 0 {
        Seq::empty()
    } else {
        let front = notes_of(notes.drop_last());
        match notes.last() {
            Some(note) => front.push(note@),
            None => front,
        }
    }
}

/// Whether the libraries in `states` come from taking up the folders one by one.
pub open spec fn adoption_run(
    states: Seq<ModLibrary>,
    notes: Seq<Option<String>>,
    roots: Seq<(String, Located)>,
) -> bool {
    &&& states.len() == roots.len() + 1
    &&& notes.len() == roots.len()
    &&& forall|i: int|
        0 <= i < roots.len() ==> adopted(
            #[trigger] states[i],
            states[i + 1],
            roots[i].0@,
            roots[i].1,
            notes[i],
        )
}

/// Imports the folders of an earlier configuration, each with what was found in it. Gives a note
/// for each that was not there already.
pub fn adopt_legacy_roots(library: &mut ModLibrary, roots: Vec<(String, Located)>) -> (notes: Vec<
    String,
>)
    requires
        free_id(old(library).mods@, old(library).next_id as int) + roots@.len() < u32::MAX,
    ensures
        exists|states: Seq<ModLibrary>, all: Seq<Option<String>>| #[trigger]
            adoption_run(states, all, roots@) && states[0] == *old(library)
                && states[roots@.len() as int] == *final(library) && texts(notes@) == notes_of(all),
{
    let ghost all_roots = roots@;
    let ghost first = *library;
    let mut left = roots;
    let mut notes: Vec<String> = Vec::new();
    let ghost mut states: Seq<ModLibrary> = seq![*library];
    let ghost mut all: Seq<Option<String>> = Seq::empty();
    let ghost mut i: int = 0;
    assert(all_roots.skip(0) =~= all_roots);
    assert(texts(notes@) =~= Seq::empty());
    while left.len() > 0
        invariant
            0 <= i <= all_roots.len(),
            left@ == all_roots.skip(i),
            adoption_run(states, all, all_roots.take(i)),
            states[0] == first,
            states[i] == *library,
            texts(notes@) == notes_of(all),
            free_id(library.mods@, library.next_id as int) + (all_roots.len() - i) < u32::MAX,
        decreases left.len(),
    {
        let ghost was = *library;
        let ghost was_states = states;
        let ghost was_notes = texts(notes@);
        let ghost was_all = all;
        let (root, located) = left.remove(0);
        assert(all_roots.skip(i).remove(0) =~= all_roots.skip(i + 1));
        assert((root, located) == all_roots[i]);
        let note = library.adopt_legacy_root(root.as_str(), located);
        proof {
            lemma_adopting_takes_one_id(was, *library, root@, located, note);
            states = states.push(*library);
            all = all.push(note);
            assert(all.drop_last() =~= was_all);
            assert forall|k: int| 0 <= k < i + 1 implies adopted(
                #[trigger] states[k],
                states[k + 1],
                all_roots.take(i + 1)[k].0@,
                all_roots.take(i + 1)[k].1,
                all[k],
            ) by {
                if k < i {
                    assert(was_states[k] == states[k]);
                    assert(all_roots.take(i)[k] == all_roots.take(i + 1)[k]);
                }
            }
            i = i + 1;
        }
        if let Some(text) = note {
            notes.push(text);
            assert(texts(notes@) =~= was_notes.push(text@));
        }
    }
    assert(all_roots.skip(i).len() == 0);
    assert(all_roots.take(i) =~= all_roots);
    notes
}

/// A folder that was imported is not imported again.
pub proof fn law_a_folder_is_adopted_once(
    first: ModLibrary,
    second: ModLibrary,
    third: ModLibrary,
    root: Seq<char>,
    located: Located,
    again: Located,
    note: Option<String>,
    later: Option<String>,
)
    requires
        adopted(first, second, root, located, note),
        second != first,
        adopted(second, third, root, again, later),
    ensures
        third == second,
        later is None,
{
    let last = second.mods@.last();
    assert(second.mods@[second.mods@.len() - 1].source.base() == root);
    assert(same_path(root, root));
    assert(stands_in(second.mods@[second.mods@.len() - 1], root));
    assert(second.has_folder(root));
}

/// However the folders of an earlier configuration are taken up, the mods that are there stay, in
/// their order and before the new ones.
pub proof fn law_adopting_keeps_the_mods(
    states: Seq<ModLibrary>,
    notes: Seq<Option<String>>,
    roots: Seq<(String, Located)>,
    i: int,
    j: int,
)
    requires
        adoption_run(states, notes, roots),
        0 <= i <= j <= roots.len(),
    ensures
        states[i].mods@.is_prefix_of(states[j].mods@),
    decreases j - i,
{
    if i < j {
        law_adopting_keeps_the_mods(states, notes, roots, i, j - 1);
        let was = states[j - 1].mods@;
        let now = states[j].mods@;
        assert(adopted(
            states[j - 1],
            states[j - 1 + 1],
            roots[j - 1].0@,
            roots[j - 1].1,
            notes[j - 1],
        ));
        if states[j] != states[j - 1] {
            assert(now.drop_last() == was);
            assert(states[i].mods@ =~= now.subrange(0, states[i].mods@.len() as int)) by {
                assert(states[i].mods@ == was.subrange(0, states[i].mods@.len() as int));
            }
        }
    }
}

proof fn lemma_notes_in_order(notes: Seq<Option<String>>, i: int)
    requires
        0 <= i < notes.len(),
    ensures
        notes_of(notes.take(i)).len() <= notes_of(notes).len(),
        notes[i] matches Some(note) ==> notes_of(notes.take(i)).len() < notes_of(notes).len()
            && notes_of(notes)[notes_of(notes.take(i)).len() as int] == note@,
    decreases notes.len(),
{
    let front = notes.drop_last();
    if i < front.len() {
        lemma_notes_in_order(front, i);
        assert(front.take(i) =~= notes.take(i));
    } else {
        assert(front =~= notes.take(i));
    }
}

/// What becomes of each folder of an earlier configuration. One that is there already, as the scanned
/// directory or the root of a mod, adds no mod and no note. Every other adds one note, which stands
/// behind the notes of the folders before it: that it was imported, with its mod behind all others,
/// or why not, with the library as it was. The mods that were there stay to the end.
pub proof fn law_every_new_folder_is_noted(
    states: Seq<ModLibrary>,
    notes: Seq<Option<String>>,
    roots: Seq<(String, Located)>,
    i: int,
)
    requires
        adoption_run(states, notes, roots),
        0 <= i < roots.len(),
    ensures
        ({
            let was = states[i];
            let now = states[i + 1];
            let root = roots[i].0@;
            let place = notes_of(notes.take(i)).len() as int;
            &&& was.mods@.is_prefix_of(states[roots.len() as int].mods@)
            &&& notes_of(notes.take(i + 1)).len() == place + if was.has_folder(root) {
                0int
            } else {
                1
            }
            &&& if was.has_folder(root) {
                now == was
            } else {
                &&& place < notes_of(notes).len()
                &&& match refusal(root, roots[i].1) {
                    Some(error) => now == was && notes_of(notes)[place] == root + ": "@ + error,
                    None => now.mods@ == was.mods@.push(now.mods@.last()) && notes_of(notes)[place]
                        == "Imported "@ + now.mods@.last().name@,
                }
            }
        }),
{
    law_adopting_keeps_the_mods(states, notes, roots, i, roots.len() as int);
    assert(adopted(states[i], states[i + 1], roots[i].0@, roots[i].1, notes[i]));
    lemma_notes_in_order(notes, i);
    assert(notes.take(i + 1).drop_last() =~= notes.take(i));
    let now = states[i + 1].mods@;
    if now.len() == states[i].mods@.len() + 1 {
        assert(now =~= now.drop_last().push(now.last()));
    }
}

/// A folder that is there stays there while more are taken up.
proof fn lemma_folder_stays(was: ModLibrary, now: ModLibrary, root: Seq<char>)
    requires
        was.has_folder(root),
        was.mods@.is_prefix_of(now.mods@),
    ensures
        now.has_folder(root),
{
    let k = choose|k: int| 0 <= k < was.mods@.len() && stands_in(#[trigger] was.mods@[k], root);
    assert(now.mods@.subrange(0, was.mods@.len() as int)[k] == now.mods@[k]);
    assert(stands_in(now.mods@[k], root));
}

/// Taking up the same folders a second time, with the same found in them, changes nothing.
pub proof fn law_adopting_again_adds_nothing(
    states: Seq<ModLibrary>,
    notes: Seq<Option<String>>,
    again: Seq<ModLibrary>,
    later: Seq<Option<String>>,
    roots: Seq<(String, Located)>,
    i: int,
)
    requires
        adoption_run(states, notes, roots),
        adoption_run(again, later, roots),
        again[0] == states[roots.len() as int],
        0 <= i <= roots.len(),
    ensures
        again[i] == states[roots.len() as int],
    decreases i,
{
    if i > 0 {
        let k = i - 1;
        let end = roots.len() as int;
        let root = roots[k].0@;
        law_adopting_again_adds_nothing(states, notes, again, later, roots, k);
        assert(adopted(states[k], states[k + 1], root, roots[k].1, notes[k]));
        assert(adopted(again[k], again[k + 1], root, roots[k].1, later[k]));
        if states[k].has_folder(root) {
            law_adopting_keeps_the_mods(states, notes, roots, k, end);
            lemma_folder_stays(states[k], states[end], root);
        } else if states[k + 1].mods@.len() == states[k].mods@.len() + 1 {
            let last = states[k + 1].mods@.last();
            assert(last.source.base() == root);
            assert(same_path(root, root));
            assert(stands_in(states[k + 1].mods@[states[k].mods@.len() as int], root));
            law_adopting_keeps_the_mods(states, notes, roots, k + 1, end);
            lemma_folder_stays(states[k + 1], states[end], root);
        }
    }
}

/// The path of the saved library in the application's storage.
pub open spec fn library_file(storage_root: Seq<char>) -> Seq<char> {
    joined(storage_root, "mod_library.json"@)
}

/// The path of the saved library.
pub fn library_path(storage_root: &str) -> (r: String)
    ensures
        r@ == library_file(storage_root@),
{
    join_path(storage_root, "mod_library.json")
}

/// The directory that a mod's archive is extracted to: one for each slug.
pub fn extraction_root(storage_root: &str, slug: &str) -> (r: String)
    ensures
        r@ == joined(joined(storage_root@, "mods"@), slug@),
{
    let mods = join_path(storage_root, "mods");
    join_path(mods.as_str(), slug)
}

proof fn lemma_last_provider(mods: Seq<ImportedMod>, path: Seq<char>, at: int)
    requires
        0 <= at < mods.len(),
        mods[at].enabled && provides(mods[at], path),
        forall|j: int| at < j < mods.len() ==> !((#[trigger] mods[j]).enabled && provides(mods[j], path)),
    ensures
        providers_of(mods, path).len() > 0,
        providers_of(mods, path).last() == mods[at].id,
    decreases mods.len(),
{
    if at < mods.len() - 1 {
        assert(!(mods[mods.len() - 1].enabled && provides(mods[mods.len() - 1], path)));
        assert forall|j: int| at < j < mods.len() - 1 implies !((
        #[trigger] mods.drop_last()[j]).enabled && provides(mods.drop_last()[j], path)) by {
            assert(mods.drop_last()[j] == mods[j]);
        }
        lemma_last_provider(mods.drop_last(), path, at);
    }
}

/// The last enabled provider of a shared path wins it.
pub proof fn law_the_last_enabled_provider_wins(
    conflicts: Seq<Conflict>,
    mods: Seq<ImportedMod>,
    i: int,
    at: int,
)
    requires
        is_conflict_list(conflicts, mods),
        0 <= i < conflicts.len(),
        0 <= at < mods.len(),
        mods[at].enabled && provides(mods[at], conflicts[i].game_path@),
        forall|j: int|
            at < j < mods.len() ==> !((#[trigger] mods[j]).enabled && provides(
                mods[j],
                conflicts[i].game_path@,
            )),
    ensures
        conflicts[i].providers@.last() == mods[at].id,
{
    lemma_last_provider(mods, conflicts[i].game_path@, at);
    assert(conflicts[i].providers@ == providers_of(mods, conflicts[i].game_path@));
}

/// A disabled mod provides nothing: every path has the providers it would have without the mod.
pub proof fn law_a_disabled_mod_provides_nothing(
    mods: Seq<ImportedMod>,
    at: int,
    path: Seq<char>,
    fighter: Seq<char>,
)
    requires
        0 <= at < mods.len(),
        !mods[at].enabled,
    ensures
        providers_of(mods, path) == providers_of(mods.remove(at), path),
        fighter_providers(mods, fighter) == fighter_providers(mods.remove(at), fighter),
        enabled_of(mods) == enabled_of(mods.remove(at)),
    decreases mods.len(),
{
    if at < mods.len() - 1 {
        law_a_disabled_mod_provides_nothing(mods.drop_last(), at, path, fighter);
        assert(mods.remove(at).drop_last() =~= mods.drop_last().remove(at));
        assert(mods.remove(at).last() == mods.last());
    } else {
        assert(mods.remove(at) =~= mods.drop_last());
    }
}

/// An id that was given is not given again, whatever mods are removed in between: the next id is
/// never below the first that was not given, and none that is in use.
pub proof fn law_ids_are_not_recycled(mods: Seq<ImportedMod>, next_id: int)
    ensures
        free_id(mods, next_id) >= next_id,
        forall|i: int| 0 <= i < mods.len() ==> (#[trigger] mods[i]).id.0 != free_id(mods, next_id),
{
    lemma_free_id_bounds(mods, next_id);
}

/// Moving a mod later and then earlier again gives back the load order.
pub proof fn law_moving_back_restores_the_order(mods: Seq<ImportedMod>, id: ProviderId)
    requires
        forall|i: int, j: int|
            0 <= i < j < mods.len() ==> (#[trigger] mods[i]).id != (#[trigger] mods[j]).id,
        place_of(mods, id) is Some,
        place_of(mods, id)->0 + 1 < mods.len(),
    ensures
        moved_earlier(moved_later(mods, id), id) == mods,
{
    lemma_place_bounds(mods, id);
    let at = place_of(mods, id)->0;
    let later = moved_later(mods, id);
    lemma_place_bounds(later, id);
    assert(later[at + 1] == mods[at]);
    assert(later[at] == mods[at + 1]);
    let again = place_of(later, id);
    assert(again is Some) by {
        if again is None {
            assert(later[at + 1].id != id);
        }
    }
    let k = again->0;
    if k < at {
        assert(later[k] == mods[k]);
        assert(mods[k].id != mods[at].id);
    } else if k == at {
        assert(mods[at].id != mods[at + 1].id);
    } else if k > at + 1 {
        assert(later[at + 1].id == id);
    }
    assert(k == at + 1);
    assert(moved_earlier(later, id) =~= mods);
}

/// A removed mod is gone, and every other mod stays in its order.
pub proof fn law_removing_takes_one_mod(mods: Seq<ImportedMod>, id: ProviderId)
    ensures
        forall|i: int| 0 <= i < without_id(mods, id).len() ==> (#[trigger] without_id(mods, id)[i]).id
            != id,
        (forall|i: int| 0 <= i < mods.len() ==> (#[trigger] mods[i]).id != id) ==> without_id(
            mods,
            id,
        ) == mods,
    decreases mods.len(),
{
    if mods.len() > 0 {
        law_removing_takes_one_mod(mods.drop_last(), id);
        if forall|i: int| 0 <= i < mods.len() ==> (#[trigger] mods[i]).id != id {
            assert forall|i: int| 0 <= i < mods.len() - 1 implies (
            #[trigger] mods.drop_last()[i]).id != id by {
                assert(mods.drop_last()[i] == mods[i]);
            }
            assert(mods[mods.len() - 1].id != id);
            assert(without_id(mods, id) =~= mods);
        }
    } else {
        assert(without_id(mods, id) =~= mods);
    }
}

/// How many of the first `n` flags are set.
pub open spec fn set_before(flags: Seq<bool>, n: int) -> nat {
    flags.take(n).filter(|flag: bool| flag).len()
}

/// Whether a mod stands at a place of a list.
pub open spec fn stands_at(mods: Seq<ImportedMod>, at: int, entry: ImportedMod) -> bool {
    0 <= at < mods.len() && mods[at] == entry
}

proof fn lemma_set_before(flags: Seq<bool>, n: int)
    requires
        0 <= n < flags.len(),
    ensures
        set_before(flags, n + 1) == set_before(flags, n) + if flags[n] {
            1nat
        } else {
            0
        },
{
    reveal(Seq::filter);
    assert(flags.take(n + 1).drop_last() =~= flags.take(n));
}

proof fn lemma_flagged(mods: Seq<ImportedMod>, flags: Seq<bool>)
    requires
        mods.len() <= flags.len(),
    ensures
        flagged(mods, flags).len() == set_before(flags, mods.len() as int),
        forall|i: int|
            0 <= i < mods.len() && #[trigger] flags[i] ==> stands_at(
                flagged(mods, flags),
                set_before(flags, i) as int,
                mods[i],
            ),
    decreases mods.len(),
{
    reveal(Seq::filter);
    if mods.len() > 0 {
        let front = mods.drop_last();
        lemma_flagged(front, flags);
        lemma_set_before(flags, front.len() as int);
        assert forall|i: int| 0 <= i < mods.len() && #[trigger] flags[i] implies stands_at(
            flagged(mods, flags),
            set_before(flags, i) as int,
            mods[i],
        ) by {
            if i < front.len() {
                assert(stands_at(flagged(front, flags), set_before(flags, i) as int, front[i]));
            }
        }
    } else {
        assert(flags.take(0) =~= Seq::empty());
    }
}

/// Loading keeps exactly the mods that are there: as many as have their flag set, each behind those
/// before it that are there too. So nothing is lost when every mod is there, and nothing is kept when
/// none is.
pub proof fn law_loading_keeps_what_is_there(mods: Seq<ImportedMod>, present: Seq<bool>)
    requires
        mods.len() == present.len(),
    ensures
        flagged(mods, present).len() == set_before(present, mods.len() as int),
        forall|i: int|
            0 <= i < mods.len() && #[trigger] present[i] ==> stands_at(
                flagged(mods, present),
                set_before(present, i) as int,
                mods[i],
            ),
        (forall|i: int| 0 <= i < mods.len() ==> present[i]) ==> flagged(mods, present) == mods,
        (forall|i: int| 0 <= i < mods.len() ==> !present[i]) ==> flagged(mods, present).len() == 0,
{
    lemma_flagged(mods, present);
    lemma_all_or_none(mods, present, mods.len() as int);
}

proof fn lemma_all_or_none(mods: Seq<ImportedMod>, present: Seq<bool>, n: int)
    requires
        mods.len() == present.len(),
        0 <= n <= mods.len(),
    ensures
        (forall|i: int| 0 <= i < n ==> present[i]) ==> flagged(mods.take(n), present) == mods.take(
            n,
        ),
        (forall|i: int| 0 <= i < n ==> !present[i]) ==> flagged(mods.take(n), present).len() == 0,
        mods.take(mods.len() as int) == mods,
    decreases n,
{
    assert(mods.take(mods.len() as int) =~= mods);
    if n > 0 {
        lemma_all_or_none(mods, present, n - 1);
        assert(mods.take(n).drop_last() =~= mods.take(n - 1));
        assert(mods.take(n - 1).push(mods[n - 1]) =~= mods.take(n));
    }
}

/// A mod that is moved later changes places with the one behind it, a mod that is moved earlier with
/// the one before it, and no other mod moves; the last stays last and the first first.
pub proof fn law_moving_changes_places_with_a_neighbour(
    mods: Seq<ImportedMod>,
    id: ProviderId,
    at: int,
)
    requires
        0 <= at < mods.len(),
        mods[at].id == id,
        forall|i: int| 0 <= i < at ==> (#[trigger] mods[i]).id != id,
    ensures
        moved_later(mods, id).len() == mods.len(),
        moved_earlier(mods, id).len() == mods.len(),
        at + 1 < mods.len() ==> moved_later(mods, id)[at + 1] == mods[at] && moved_later(
            mods,
            id,
        )[at] == mods[at + 1] && forall|i: int|
            0 <= i < mods.len() && i != at && i != at + 1 ==> #[trigger] moved_later(mods, id)[i]
                == mods[i],
        at + 1 == mods.len() ==> moved_later(mods, id) == mods,
        at > 0 ==> moved_earlier(mods, id)[at - 1] == mods[at] && moved_earlier(mods, id)[at]
            == mods[at - 1] && forall|i: int|
            0 <= i < mods.len() && i != at && i != at - 1 ==> #[trigger] moved_earlier(mods, id)[i]
                == mods[i],
        at == 0 ==> moved_earlier(mods, id) == mods,
{
    lemma_place_is(mods, id, at);
}

proof fn lemma_place_is(mods: Seq<ImportedMod>, id: ProviderId, at: int)
    requires
        0 <= at < mods.len(),
        mods[at].id == id,
        forall|i: int| 0 <= i < at ==> (#[trigger] mods[i]).id != id,
    ensures
        place_of(mods, id) == Some(at),
{
    lemma_place_bounds(mods, id);
    match place_of(mods, id) {
        Some(i) => {
            assert(mods[i].id == id);
            if at < i {
                assert(mods[at].id != id);
            }
        },
        None => {
            assert(mods[at].id != id);
        },
    }
}

/// A mod is called by its own name, and one that is not there by its id.
pub proof fn law_a_mod_is_called_by_its_name(library: ModLibrary, id: ProviderId, at: int)
    requires
        0 <= at <= library.mods@.len(),
        at < library.mods@.len() ==> library.mods@[at].id == id,
        forall|i: int| 0 <= i < at ==> (#[trigger] library.mods@[i]).id != id,
    ensures
        at < library.mods@.len() ==> library.called(id) == library.mods@[at].name@,
        at == library.mods@.len() ==> library.called(id) == seq!['m', 'o', 'd', ' '] + dec(
            id.0 as nat,
        ),
{
    if at < library.mods@.len() {
        lemma_place_is(library.mods@, id, at);
    } else {
        lemma_place_bounds(library.mods@, id);
        if place_of(library.mods@, id) is Some {
            let i = place_of(library.mods@, id)->0;
            assert(library.mods@[i].id == id);
        }
        reveal_strlit("mod ");
        assert("mod "@ =~= seq!['m', 'o', 'd', ' ']);
    }
}

/// Removing takes a mod out of the load order and closes the gap; the mods before it keep their
/// places and those behind it move up by one.
pub proof fn law_removing_closes_the_gap(mods: Seq<ImportedMod>, id: ProviderId, at: int)
    requires
        0 <= at < mods.len(),
        mods[at].id == id,
        forall|i: int| 0 <= i < mods.len() && i != at ==> (#[trigger] mods[i]).id != id,
    ensures
        without_id(mods, id) == mods.remove(at),
    decreases mods.len(),
{
    let front = mods.drop_last();
    if at < front.len() {
        assert forall|i: int| 0 <= i < front.len() && i != at implies (#[trigger] front[i]).id
            != id by {
            assert(front[i] == mods[i]);
        }
        law_removing_closes_the_gap(front, id, at);
        assert(mods[mods.len() - 1].id != id);
        assert(without_id(mods, id) =~= mods.remove(at));
    } else {
        assert forall|i: int| 0 <= i < front.len() implies (#[trigger] front[i]).id != id by {
            assert(front[i] == mods[i]);
        }
        law_removing_takes_one_mod(front, id);
        assert(mods[at] == mods.last());
        assert(without_id(mods, id) =~= mods.remove(at));
    }
}

/// A mod that is added last is enabled last, provides last what it provides where it is enabled, and
/// changes nothing where it does not.
pub proof fn law_a_mod_adds_what_it_provides(
    mods: Seq<ImportedMod>,
    more: ImportedMod,
    path: Seq<char>,
    fighter: Seq<char>,
)
    ensures
        more.enabled ==> enabled_of(mods.push(more)) == enabled_of(mods).push(more),
        !more.enabled ==> enabled_of(mods.push(more)) == enabled_of(mods),
        more.enabled && texts(more.manifest.paths@).contains(path) ==> providers_of(
            mods.push(more),
            path,
        ) == providers_of(mods, path).push(more.id),
        !(more.enabled && texts(more.manifest.paths@).contains(path)) ==> providers_of(
            mods.push(more),
            path,
        ) == providers_of(mods, path),
        more.enabled && fighter_names(more.manifest.fighters@).contains(fighter)
            ==> fighter_providers(mods.push(more), fighter) == fighter_providers(
            mods,
            fighter,
        ).push(more.id),
        !(more.enabled && fighter_names(more.manifest.fighters@).contains(fighter))
            ==> fighter_providers(mods.push(more), fighter) == fighter_providers(mods, fighter),
        enabled_of(Seq::empty()).len() == 0,
        providers_of(Seq::empty(), path).len() == 0,
        fighter_providers(Seq::empty(), fighter).len() == 0,
{
    assert(mods.push(more).drop_last() =~= mods);
}

/// A path is in conflict exactly where two enabled mods provide it.
pub proof fn law_two_providers_make_a_conflict(
    conflicts: Seq<Conflict>,
    mods: Seq<ImportedMod>,
    path: Seq<char>,
    i: int,
    j: int,
)
    requires
        is_conflict_list(conflicts, mods),
        0 <= i < j < mods.len(),
        mods[i].enabled && texts(mods[i].manifest.paths@).contains(path),
        mods[j].enabled && texts(mods[j].manifest.paths@).contains(path),
    ensures
        exists|k: int| 0 <= k < conflicts.len() && (#[trigger] conflicts[k]).game_path@ == path,
{
    lemma_providers_count(mods, path, i, j);
    assert(providers_of(mods, path).len() > 1);
    let k = choose|k: int|
        0 <= k < conflict_paths(conflicts).len() && conflict_paths(conflicts)[k] == path;
    assert(conflicts[k].game_path@ == path);
}

proof fn lemma_providers_count(mods: Seq<ImportedMod>, path: Seq<char>, i: int, j: int)
    requires
        0 <= i <= j < mods.len(),
        mods[i].enabled && provides(mods[i], path),
        mods[j].enabled && provides(mods[j], path),
    ensures
        providers_of(mods, path).len() >= if i < j {
            2int
        } else {
            1
        },
    decreases mods.len(),
{
    let front = mods.drop_last();
    if j < front.len() {
        lemma_providers_count(front, path, i, j);
    } else if i < front.len() {
        lemma_providers_count(front, path, i, i);
    }
}

/// The conflicts of a fighter are those whose path belongs to it, in their order.
pub proof fn law_conflicts_are_told_apart_by_fighter(
    conflicts: Seq<Conflict>,
    more: Conflict,
    fighter: Seq<char>,
)
    ensures
        path_fighter(more.game_path@) == Some(fighter) ==> fighter_conflicts(
            conflicts.push(more),
            fighter,
        ) == fighter_conflicts(conflicts, fighter).push(more),
        path_fighter(more.game_path@) != Some(fighter) ==> fighter_conflicts(
            conflicts.push(more),
            fighter,
        ) == fighter_conflicts(conflicts, fighter),
        fighter_conflicts(Seq::empty(), fighter).len() == 0,
{
    assert(conflicts.push(more).drop_last() =~= conflicts);
}

/// A folder mod is scanned where it stands and shown by that path; an archive mod is scanned where it
/// was extracted and shown by the path of the archive.
pub proof fn law_a_mod_is_shown_by_its_origin(path: String, archive: String, extracted: String)
    ensures
        ModSource::Folder(path).base() == path@,
        ModSource::Folder(path).origin() == path@,
        (ModSource::Archive { archive, extracted }).base() == extracted@,
        (ModSource::Archive { archive, extracted }).origin() == archive@,
{
}

/// A mod without a name of its own is called by its file name without the extension.
pub proof fn law_a_mod_is_named_by_its_file(dir: Seq<char>, name: Seq<char>, ext: Seq<char>)
    requires
        is_plain_name(name.push('.') + ext),
        name.len() > 0,
        !ext.contains('.'),
    ensures
        default_name(joined(dir, name.push('.') + ext)) == name,
{
    let file = name.push('.') + ext;
    law_a_joined_name_is_the_file_name(dir, file);
    law_a_name_is_its_stem_and_extension(file);
    match extension(file) {
        Some(e) => {
            let s = stem(file);
            assert(file == s.push('.') + e);
            if s.len() < name.len() {
                assert(file[name.len() as int] == '.');
                assert(e[name.len() - s.len() - 1] == file[name.len() as int]);
                assert(e.contains('.'));
            }
            if s.len() > name.len() {
                assert(file[s.len() as int] == '.');
                assert(ext[s.len() - name.len() - 1] == file[s.len() as int]);
                assert(ext.contains('.'));
            }
            assert(s =~= file.take(s.len() as int));
            assert(name =~= file.take(name.len() as int));
        },
        None => {
            assert(file[name.len() as int] == '.');
        },
    }
}

/// One thing is counted without an ending, any other number of things with one.
pub proof fn law_only_one_is_singular(n: int)
    ensures
        plural(n).len() == 0 <==> n == 1,
        n != 1 ==> plural(n) == seq!['s'],
{
    reveal_strlit("");
    reveal_strlit("s");
    assert("s"@ =~= seq!['s']);
}

/// The notes are those that were taken, in their order.
pub proof fn law_every_note_is_kept(notes: Seq<Option<String>>, more: Option<String>)
    ensures
        more is Some ==> notes_of(notes.push(more)) == notes_of(notes).push(more->0@),
        more is None ==> notes_of(notes.push(more)) == notes_of(notes),
        notes_of(Seq::empty()).len() == 0,
{
    assert(notes.push(more).drop_last() =~= notes);
}

/// A folder is refused exactly where it could not be located or holds neither game files nor
/// plugins.
pub proof fn law_a_folder_without_files_is_refused(root: Seq<char>, located: Located)
    ensures
        match located {
            Ok((path, detection, manifest)) => refusal(root, located) is None
                <==> manifest.paths@.len() > 0 || manifest.plugins@.len() > 0,
            Err(error) => refusal(root, located) == Some(error@),
        },
{
}

/// Of the providers of a path the one that is loaded last wins; without a provider nothing does.
pub proof fn law_the_last_provider_is_the_winner(
    conflict: &Conflict,
    r: Option<ProviderId>,
    i: int,
)
    requires
        call_ensures(Conflict::winner, (conflict,), r),
        0 <= i < conflict.providers@.len(),
    ensures
        r is Some,
        i == conflict.providers@.len() - 1 ==> r == Some(conflict.providers@[i]),
{
}

/// The providers of a fighter are found whatever the case its name is written in.
pub proof fn law_a_fighter_is_found_in_any_case(
    library: &ModLibrary,
    a: &str,
    b: &str,
    x: Vec<ProviderId>,
    y: Vec<ProviderId>,
)
    requires
        call_ensures(ModLibrary::providers_for_fighter, (library, a), x),
        call_ensures(ModLibrary::providers_for_fighter, (library, b), y),
        ascii_lower(a@) == ascii_lower(b@),
    ensures
        x@ == y@,
{
}

/// The summary of a mod counts its files and fighters, and speaks of interface files and of plugins
/// exactly where it has some.
pub proof fn law_a_summary_tells_what_a_mod_has(entry: ImportedMod)
    ensures
        ({
            let parts = entry.summary_parts();
            let plugins = entry.manifest.plugins@.len();
            &&& starts_with(parts[0], dec(entry.manifest.paths@.len()) + " file"@)
            &&& entry.manifest.provides_ui ==> parts[1] == "ships UI files"@
            &&& plugins > 0 ==> parts.last() == dec(plugins) + " plugin(s)"@
            &&& parts.len() == 1 + (if entry.manifest.provides_ui {
                1int
            } else {
                0
            }) + (if plugins > 0 {
                1int
            } else {
                0
            })
        }),
{
    let head = dec(entry.manifest.paths@.len()) + " file"@;
    let first = entry.summary_parts()[0];
    assert(first.subrange(0, head.len() as int) =~= head);
}

} // verus!
