//! Archives that mods come in, and where their entries go.

use vstd::prelude::*;
use vstd::string::*;

use super::library::extraction_root;
use crate::paths::{
    extension, extension_of, file_name, file_name_of, is_plain_name, join_path, joined,
    law_a_joined_name_is_the_file_name, parent, parent_of, path_pieces, pieces, stem, stem_of,
};
use crate::text::{ascii_lower, chars_of, concat, list_has, same, texts, to_ascii_lower};

verus! {

/// An archive of a kind that can be extracted.
#[derive(Debug, Clone, Copy, PartialEq, Eq, Structural)]
pub enum ArchiveKind {
    Zip,
    SevenZ,
}

/// The extension of a path, in lower case; empty where it has none.
pub open spec fn lower_extension(path: Seq<char>) -> Seq<char> {
    match file_name(path) {
        Some(name) => match extension(name) {
            Some(ext) => ascii_lower(ext),
            None => Seq::empty(),
        },
        None => Seq::empty(),
    }
}

fn lower_extension_of(path: &str) -> (r: String)
    ensures
        r@ == lower_extension(path@),
{
    match file_name_of(path) {
        Some(name) => match extension_of(name.as_str()) {
            Some(ext) => to_ascii_lower(ext.as_str()),
            None => String::new(),
        },
        None => String::new(),
    }
}

/// The kind of an archive, by its path.
pub open spec fn archive_kind(path: Seq<char>) -> Option<ArchiveKind> {
    if lower_extension(path) == "zip"@ {
        Some(ArchiveKind::Zip)
    } else if lower_extension(path) == "7z"@ {
        Some(ArchiveKind::SevenZ)
    } else {
        None
    }
}

/// Whether a path names an archive that can be extracted.
pub fn is_archive(path: &str) -> (r: bool)
    ensures
        r == (archive_kind(path@) is Some),
{
    let ext = lower_extension_of(path);
    same(ext.as_str(), "zip") || same(ext.as_str(), "7z")
}

/// How an archive is extracted.
pub fn extractor(path: &str) -> (r: Result<ArchiveKind, String>)
    ensures
        match r {
            Ok(kind) => archive_kind(path@) == Some(kind),
            Err(message) => archive_kind(path@) is None && message@ == "unsupported archive type ."@
                + lower_extension(path@) + " — extract it and import the folder"@,
        },
{
    let ext = lower_extension_of(path);
    if same(ext.as_str(), "zip") {
        return Ok(ArchiveKind::Zip);
    }
    proof {
        reveal_strlit("zip");
        reveal_strlit("7z");
    }
    if same(ext.as_str(), "7z") {
        return Ok(ArchiveKind::SevenZ);
    }
    let mut message = concat("unsupported archive type .", ext.as_str());
    message.append(" — extract it and import the folder");
    Err(message)
}

/// The name of an archive: its file name without the extension.
pub open spec fn archive_stem(path: Seq<char>) -> Seq<char> {
    match file_name(path) {
        Some(name) => stem(name),
        None => "mod"@,
    }
}

/// The name of an archive, before it is made safe for a file system.
pub fn stem_for(path: &str) -> (r: String)
    ensures
        r@ == archive_stem(path@),
{
    match file_name_of(path) {
        Some(name) => stem_of(name.as_str()),
        None => "mod".to_owned(),
    }
}

/// The name that an archive is cached by: what `slugify` makes of the archive's name, so that it is
/// safe for a file system.
pub fn slug_for(path: &str, slugify: impl Fn(String) -> String) -> (r: String)
    requires
        forall|name: String| #[trigger] call_requires(slugify, (name,)),
    ensures
        exists|name: String|
            name@ == archive_stem(path@) && #[trigger] call_ensures(slugify, (name,), r),
{
    let name = stem_for(path);
    slugify(name)
}

/// Whether the path of an archive entry stays under where it is extracted: it is relative, never
/// goes up, and names something.
pub open spec fn stays_inside(relative: Seq<char>) -> bool {
    &&& !(relative.len() > 0 && relative[0] == '/')
    &&& !pieces(relative).contains(".."@)
    &&& pieces(relative).len() > 0
}

/// A path with pieces joined to it one by one.
pub open spec fn joined_all(base: Seq<char>, parts: Seq<Seq<char>>) -> Seq<char>
    decreases parts.len(),
{
    if parts.len() == 0 {
        base
    } else {
        joined(joined_all(base, parts.drop_last()), parts.last())
    }
}

/// Where an archive entry goes under `base`; nowhere when its path would escape, or would name the
/// base itself.
pub fn safe_join(base: &str, relative: &str) -> (r: Option<String>)
    ensures
        match r {
            Some(path) => stays_inside(relative@) && path@ == joined_all(base@, pieces(relative@)),
            None => !stays_inside(relative@),
        },
{
    let v = chars_of(relative);
    if v.len() > 0 && v[0] == '/' {
        return None;
    }
    let parts = path_pieces(relative);
    if list_has(&parts, "..") {
        return None;
    }
    assert(texts(parts@).len() == parts@.len());
    if parts.len() == 0 {
        return None;
    }
    let mut path = base.to_owned();
    let mut i: usize = 0;
    let ghost all = texts(parts@);
    assert(all.take(0) =~= Seq::empty());
    while i < parts.len()
        invariant
            i <= parts.len(),
            all == texts(parts@),
            path@ == joined_all(base@, all.take(i as int)),
        decreases parts.len() - i,
    {
        assert(all.take(i + 1).drop_last() =~= all.take(i as int));
        assert(all.take(i + 1).last() == parts@[i as int]@);
        path = join_path(path.as_str(), parts[i].as_str());
        i = i + 1;
    }
    assert(all.take(all.len() as int) =~= all);
    Some(path)
}

/// What is done with an entry of an archive.
#[derive(Debug, Clone, PartialEq, Eq)]
pub enum EntryStep {
    /// It would escape, and is passed over.
    Skip,
    /// A directory is made.
    MakeDir(String),
    /// The directory it stands in is made, and then it is written.
    WriteFile { parent: Option<String>, path: String },
}

/// Whether a step is the one for an entry. An entry without a name is one that the archive's
/// reader took to escape.
pub open spec fn is_entry_step(step: EntryStep, base: Seq<char>, entry: (Option<String>, bool)) -> bool {
    match entry.0 {
        None => step is Skip,
        Some(name) => {
            let path = joined_all(base, pieces(name@));
            if !stays_inside(name@) {
                step is Skip
            } else if entry.1 {
                step is MakeDir && step->MakeDir_0@ == path
            } else {
                &&& step is WriteFile
                &&& step->WriteFile_path@ == path
                &&& match step->WriteFile_parent {
                    Some(dir) => parent(path) == Some(dir@),
                    None => parent(path) is None,
                }
            }
        },
    }
}

/// What is done with the entries of a zip, in order. Each entry has its name, where it has one that
/// does not escape, and whether it is a directory.
pub fn extract_zip(destination: &str, entries: &Vec<(Option<String>, bool)>) -> (steps: Vec<EntryStep>)
    ensures
        steps@.len() == entries@.len(),
        forall|i: int|
            0 <= i < steps@.len() ==> is_entry_step(
                #[trigger] steps@[i],
                destination@,
                entries@[i],
            ),
{
    let mut steps: Vec<EntryStep> = Vec::new();
    let mut i: usize = 0;
    while i < entries.len()
        invariant
            i <= entries.len(),
            steps@.len() == i,
            forall|i: int|
                0 <= i < steps@.len() ==> is_entry_step(
                    #[trigger] steps@[i],
                    destination@,
                    entries@[i],
                ),
        decreases entries.len() - i,
    {
        let target = match &entries[i].0 {
            Some(name) => safe_join(destination, name.as_str()),
            None => None,
        };
        let step = match target {
            None => EntryStep::Skip,
            Some(path) => if entries[i].1 {
                EntryStep::MakeDir(path)
            } else {
                EntryStep::WriteFile { parent: parent_of(path.as_str()), path }
            },
        };
        steps.push(step);
        i = i + 1;
    }
    steps
}

/// How an archive is extracted into the library's cache.
#[derive(Debug)]
pub struct ExtractPlan {
    /// Where it goes: one directory for each slug.
    pub destination: String,
    /// Whether the destination is cleared first, so that nothing of an earlier release stays.
    pub clear: bool,
    /// What extracts it, once the destination is ready.
    pub kind: Result<ArchiveKind, String>,
}

/// How an archive is extracted into the library's cache. What the destination already holds is
/// cleared, not merged with.
pub fn extract(archive: &str, storage_root: &str, slug: &str, is_there: bool) -> (r: ExtractPlan)
    ensures
        r.destination@ == joined(joined(storage_root@, "mods"@), slug@),
        r.clear == is_there,
        match r.kind {
            Ok(kind) => archive_kind(archive@) == Some(kind),
            Err(message) => archive_kind(archive@) is None && message@
                == "unsupported archive type ."@ + lower_extension(archive@)
                + " — extract it and import the folder"@,
        },
{
    ExtractPlan {
        destination: extraction_root(storage_root, slug),
        clear: is_there,
        kind: extractor(archive),
    }
}

proof fn lemma_pieces_are_bare(list: Seq<Seq<char>>)
    requires
        forall|i: int| 0 <= i < list.len() ==> !(#[trigger] list[i]).contains('/'),
    ensures
        forall|i: int|
            0 <= i < crate::paths::named_of(list).len() ==> !(#[trigger] crate::paths::named_of(
                list,
            )[i]).contains('/') && crate::paths::named_of(list)[i].len() > 0,
    decreases list.len(),
{
    if list.len() > 0 {
        lemma_pieces_are_bare(list.drop_last());
        let was = crate::paths::named_of(list.drop_last());
        let now = crate::paths::named_of(list);
        assert(!list[list.len() - 1].contains('/'));
        assert forall|i: int| 0 <= i < now.len() implies !(#[trigger] now[i]).contains('/')
            && now[i].len() > 0 by {
            if i < was.len() {
                assert(now[i] == was[i]);
            } else {
                assert(now[i] == list[list.len() - 1]);
            }
        }
    }
}

proof fn lemma_split_is_bare(s: Seq<char>, sep: char)
    ensures
        forall|i: int|
            0 <= i < crate::text::split(s, sep).len() ==> !(#[trigger] crate::text::split(
                s,
                sep,
            )[i]).contains(sep),
    decreases s.len(),
{
    if s.len() > 0 {
        lemma_split_is_bare(s.drop_last(), sep);
        crate::text::lemma_split_nonempty(s.drop_last(), sep);
        let was = crate::text::split(s.drop_last(), sep);
        let now = crate::text::split(s, sep);
        assert forall|i: int| 0 <= i < now.len() implies !(#[trigger] now[i]).contains(sep) by {
            if s.last() == sep {
                if i < was.len() {
                    assert(now[i] == was[i]);
                }
            } else {
                if i < was.len() - 1 {
                    assert(now[i] == was[i]);
                } else {
                    assert(now[i] == was.last().push(s.last()));
                    assert(!was[was.len() - 1].contains(sep));
                    if now[i].contains(sep) {
                        let k = now[i].index_of(sep);
                        if k < was.last().len() {
                            assert(was.last()[k] == sep);
                        }
                    }
                }
            }
        }
    }
}

proof fn lemma_joined_grows(base: Seq<char>, parts: Seq<Seq<char>>)
    requires
        forall|i: int|
            0 <= i < parts.len() ==> !(#[trigger] parts[i]).contains('/') && parts[i].len() > 0,
    ensures
        joined_all(base, parts).len() >= base.len(),
        joined_all(base, parts).take(base.len() as int) == base,
        parts.len() > 0 ==> joined_all(base, parts).len() > base.len(),
    decreases parts.len(),
{
    if parts.len() == 0 {
        assert(base.take(base.len() as int) =~= base);
    } else {
        lemma_joined_grows(base, parts.drop_last());
        let front = joined_all(base, parts.drop_last());
        let last = parts.last();
        assert(!parts[parts.len() - 1].contains('/'));
        assert(last[0] != '/') by {
            assert(last.contains(last[0]));
        }
        let all = joined_all(base, parts);
        assert(all.take(base.len() as int) =~= front.take(base.len() as int));
    }
}

/// Where an entry goes is always below the base: the path begins with it, and is longer.
pub proof fn law_entries_stay_inside(base: Seq<char>, relative: Seq<char>)
    requires
        stays_inside(relative),
    ensures
        joined_all(base, pieces(relative)).len() > base.len(),
        joined_all(base, pieces(relative)).take(base.len() as int) == base,
        !pieces(relative).contains(".."@),
        forall|i: int|
            0 <= i < pieces(relative).len() ==> !(#[trigger] pieces(relative)[i]).contains('/'),
{
    lemma_split_is_bare(relative, '/');
    lemma_pieces_are_bare(crate::text::split(relative, '/'));
    lemma_joined_grows(base, pieces(relative));
}

/// An archive is known by the extension of its file, in whatever case it is written.
pub proof fn law_archives_are_known_by_their_extension(path: Seq<char>, ext: Seq<char>)
    requires
        file_name(path) is Some,
        extension(file_name(path)->0) == Some(ext),
    ensures
        archive_kind(path) == Some(ArchiveKind::Zip) <==> ascii_lower(ext) == seq!['z', 'i', 'p'],
        archive_kind(path) == Some(ArchiveKind::SevenZ) <==> ascii_lower(ext) == seq!['7', 'z'],
        archive_kind(path) is Some <==> ascii_lower(ext) == seq!['z', 'i', 'p'] || ascii_lower(ext)
            == seq!['7', 'z'],
        archive_stem(path) == stem(file_name(path)->0),
{
    reveal_strlit("zip");
    reveal_strlit("7z");
    assert("zip"@ =~= seq!['z', 'i', 'p']);
    assert("7z"@ =~= seq!['7', 'z']);
    assert("zip"@.len() != "7z"@.len());
}

/// An entry is left out exactly where it has no name or its path is absolute, goes up or names
/// nothing; a directory is made and a file is written, and nothing else is done.
pub proof fn law_only_entries_that_stay_inside_are_extracted(
    step: EntryStep,
    base: Seq<char>,
    entry: (Option<String>, bool),
)
    requires
        is_entry_step(step, base, entry),
    ensures
        step is Skip <==> entry.0 is None || (entry.0->0@.len() > 0 && entry.0->0@[0] == '/')
            || pieces(entry.0->0@).contains(".."@) || pieces(entry.0->0@).len() == 0,
        !(step is Skip) ==> (step is MakeDir <==> entry.1),
        step is MakeDir ==> step->MakeDir_0@ == joined_all(base, pieces(entry.0->0@)),
        step is WriteFile ==> step->WriteFile_path@ == joined_all(base, pieces(entry.0->0@)),
{
}

/// The last piece of an entry is the name of its file.
pub proof fn law_an_entry_keeps_its_file_name(base: Seq<char>, parts: Seq<Seq<char>>)
    requires
        parts.len() > 0,
        is_plain_name(parts.last()),
    ensures
        file_name(joined_all(base, parts)) == Some(parts.last()),
        pieces(joined_all(base, parts)) == pieces(joined_all(base, parts.drop_last())).push(
            parts.last(),
        ),
{
    law_a_joined_name_is_the_file_name(joined_all(base, parts.drop_last()), parts.last());
}

/// A path is joined exactly where it stays inside, and then below the base.
pub proof fn law_only_a_path_that_stays_inside_is_joined(
    base: &str,
    relative: &str,
    r: Option<String>,
)
    requires
        call_ensures(safe_join, (base, relative), r),
    ensures
        r is Some <==> !(relative@.len() > 0 && relative@[0] == '/') && !pieces(
            relative@,
        ).contains(".."@) && pieces(relative@).len() > 0,
        r is Some ==> r->0@.len() > base@.len() && r->0@.take(base@.len() as int) == base@,
{
    if stays_inside(relative@) {
        law_entries_stay_inside(base@, relative@);
    }
}

/// An archive is extracted to a directory of its own among the mods, which is cleared first where it
/// is there.
pub proof fn law_an_archive_has_a_directory_of_its_own(
    archive: &str,
    storage: &str,
    slug: &str,
    is_there: bool,
    r: ExtractPlan,
)
    requires
        call_ensures(extract, (archive, storage, slug, is_there), r),
        is_plain_name(slug@),
    ensures
        file_name(r.destination@) == Some(slug@),
        r.clear == is_there,
        r.kind is Ok <==> archive_kind(archive@) is Some,
{
    law_a_joined_name_is_the_file_name(joined(storage@, "mods"@), slug@);
}

} // verus!
