//! Keeping the deployed plugin fresh: where it stands, and when it has to be built and deployed.

use vstd::prelude::*;
use vstd::string::*;

use crate::paths::{extension, extension_of, file_name, file_name_of, join_path, joined};
use crate::text::{concat, contains, has_text, same};

verus! {

/// Where the plugin is built, under the workspace root.
pub const BUILT_PLUGIN: &'static str = "plugins/slight_replica/target/aarch64-skyline-switch/release/lib_effect_viewer.nro";

/// Where the plugin stands in a mod directory.
pub const DEPLOYED_PLUGIN: &'static str = "romfs/skyline/plugins/lib_effect_viewer.nro";

/// The mod directory of the emulator, under the data directory.
pub const EDEN_MOD_DIR: &'static str = "eden/load/01006A800016E000/Arcropolis";

/// Where the plugin stands in a mod directory.
pub fn deployed_path(mod_dir: &str) -> (r: String)
    ensures
        r@ == joined(mod_dir@, DEPLOYED_PLUGIN@),
{
    join_path(mod_dir, DEPLOYED_PLUGIN)
}

/// Where the plugin is built; beside the current directory where no workspace root was found.
pub fn built_nro_path(root: Option<&str>) -> (r: String)
    ensures
        r@ == joined(
            match root {
                Some(root) => root@,
                None => "."@,
            },
            BUILT_PLUGIN@,
        ),
{
    match root {
        Some(root) => join_path(root, BUILT_PLUGIN),
        None => join_path(".", BUILT_PLUGIN),
    }
}

/// What is to be done about the plugin.
#[derive(Debug, Clone, Copy, PartialEq, Eq, Structural)]
pub enum DeployPlan {
    /// The deployed plugin is fresh.
    Skip,
    /// The built plugin is fresh, and is to be deployed.
    Deploy,
    /// The plugin is to be built, then deployed.
    BuildAndDeploy,
}

/// What is to be done about the plugin. It is deployed again when it is not deployed, when it is
/// not built, or when a source is newer than what is deployed; and it is built first when it is not
/// built or a source is newer than what is built.
pub open spec fn planned(
    built_exists: bool,
    deployed_exists: bool,
    newer_than_deployed: bool,
    newer_than_built: bool,
) -> DeployPlan {
    if built_exists && deployed_exists && !newer_than_deployed {
        DeployPlan::Skip
    } else if !built_exists || newer_than_built {
        DeployPlan::BuildAndDeploy
    } else {
        DeployPlan::Deploy
    }
}

/// What is to be done about the plugin.
pub fn check_and_deploy(
    built_exists: bool,
    deployed_exists: bool,
    newer_than_deployed: bool,
    newer_than_built: bool,
) -> (r: DeployPlan)
    ensures
        r == planned(built_exists, deployed_exists, newer_than_deployed, newer_than_built),
{
    let needs_build = !built_exists || !deployed_exists || newer_than_deployed;
    if !needs_build {
        return DeployPlan::Skip;
    }
    if !built_exists || newer_than_built {
        DeployPlan::BuildAndDeploy
    } else {
        DeployPlan::Deploy
    }
}

/// Whether a manifest is that of the workspace.
pub open spec fn names_workspace(manifest: Option<String>) -> bool {
    match manifest {
        Some(text) => contains(text@, "name = \"visionary\""@),
        None => false,
    }
}

/// The workspace root: the first of the directories on the way up whose manifest names the
/// workspace. `manifests` holds the text of each directory's manifest, where it has one.
pub fn find_workspace_root(way_up: &Vec<String>, manifests: &Vec<Option<String>>) -> (r: Result<
    String,
    String,
>)
    requires
        way_up@.len() == manifests@.len(),
    ensures
        is_workspace_root(way_up@, manifests@, r),
{
    let mut i: usize = 0;
    while i < way_up.len()
        invariant
            i <= way_up.len(),
            way_up@.len() == manifests@.len(),
            forall|j: int| 0 <= j < i ==> !names_workspace(#[trigger] manifests@[j]),
        decreases way_up.len() - i,
    {
        if let Some(text) = &manifests[i] {
            if has_text(text.as_str(), "name = \"visionary\"") {
                assert(names_workspace(manifests@[i as int]));
                return Ok(way_up[i].clone());
            }
        }
        i = i + 1;
    }
    Err("could not find Visionary workspace root".to_owned())
}

/// The mod directory of the emulator: the one that was set, when it is there; else the standard one
/// under the data directory, when it is there.
pub fn eden_mod_dir(
    set: Option<&str>,
    set_is_dir: bool,
    data_dir: Option<&str>,
    standard_is_dir: bool,
) -> (r: Result<String, String>)
    ensures
        match r {
            Ok(dir) => if set is Some && set_is_dir {
                dir@ == set->0@
            } else {
                data_dir is Some && standard_is_dir && dir@ == joined(data_dir->0@, EDEN_MOD_DIR@)
            },
            Err(message) => !(set is Some && set_is_dir) && match data_dir {
                None => message@ == "no data_dir"@,
                Some(data) => !standard_is_dir && message@ == "Eden mod dir not found at "@
                    + joined(data@, EDEN_MOD_DIR@),
            },
        },
{
    if let Some(dir) = set {
        if set_is_dir {
            return Ok(dir.to_owned());
        }
    }
    match data_dir {
        Some(data) => {
            let dir = join_path(data, EDEN_MOD_DIR);
            if standard_is_dir {
                Ok(dir)
            } else {
                Err(concat("Eden mod dir not found at ", dir.as_str()))
            }
        },
        None => Err("no data_dir".to_owned()),
    }
}

/// Whether `r` is the first directory on the way up whose manifest is that of the workspace.
pub open spec fn is_workspace_root(
    way_up: Seq<String>,
    manifests: Seq<Option<String>>,
    r: Result<String, String>,
) -> bool {
    match r {
        Ok(root) => exists|i: int|
            0 <= i < way_up.len() && names_workspace(#[trigger] manifests[i]) && way_up[i]@ == root@
                && forall|j: int| 0 <= j < i ==> !names_workspace(#[trigger] manifests[j]),
        Err(message) => message@ == "could not find Visionary workspace root"@ && forall|i: int|
            0 <= i < way_up.len() ==> !names_workspace(#[trigger] manifests[i]),
    }
}

/// Whether one of some files is a source of a later time.
pub open spec fn has_newer_source(files: Seq<(String, u128)>, time: u128) -> bool {
    exists|i: int|
        0 <= i < files.len() && is_source((#[trigger] files[i]).0@) && files[i].1 > time
}

/// Whether a file counts as a source: it is a Rust file or a manifest.
pub open spec fn is_source(path: Seq<char>) -> bool {
    match file_name(path) {
        Some(name) => extension(name) == Some("rs"@) || extension(name) == Some("toml"@),
        None => false,
    }
}

fn counts_as_source(path: &str) -> (r: bool)
    ensures
        r == is_source(path@),
{
    match file_name_of(path) {
        Some(name) => match extension_of(name.as_str()) {
            Some(ext) => same(ext.as_str(), "rs") || same(ext.as_str(), "toml"),
            None => false,
        },
        None => false,
    }
}

/// Whether a source was changed after the plugin was. `files` holds each file with the time it was
/// last changed.
pub fn is_source_newer_than(files: &Vec<(String, u128)>, plugin_time: u128) -> (r: bool)
    ensures
        r == has_newer_source(files@, plugin_time),
{
    let mut i: usize = 0;
    while i < files.len()
        invariant
            i <= files.len(),
            forall|j: int|
                0 <= j < i ==> !(is_source((#[trigger] files@[j]).0@) && files@[j].1 > plugin_time),
        decreases files.len() - i,
    {
        if counts_as_source(files[i].0.as_str()) && files[i].1 > plugin_time {
            assert(is_source(files@[i as int].0@));
            return true;
        }
        i = i + 1;
    }
    false
}

/// A plugin that is not there is never passed over, and one that is newer than every source is not
/// built again.
pub proof fn law_nothing_stale_stays_deployed(
    built_exists: bool,
    deployed_exists: bool,
    newer_than_deployed: bool,
    newer_than_built: bool,
)
    ensures
        planned(built_exists, deployed_exists, newer_than_deployed, newer_than_built)
            == DeployPlan::Skip ==> deployed_exists && !newer_than_deployed,
        planned(built_exists, deployed_exists, newer_than_deployed, newer_than_built)
            == DeployPlan::Deploy ==> built_exists && !newer_than_built,
{
}

/// What is planned follows from what is there and how old it is: nothing where a plugin that is
/// built stays deployed and no source is newer than it; a build exactly where something is to be
/// done and the plugin is not built or older than a source.
pub proof fn law_a_plan_follows_from_age(
    built_exists: bool,
    deployed_exists: bool,
    newer_than_deployed: bool,
    newer_than_built: bool,
)
    ensures
        ({
            let plan = planned(
                built_exists,
                deployed_exists,
                newer_than_deployed,
                newer_than_built,
            );
            &&& !deployed_exists || newer_than_deployed || !built_exists ==> plan
                != DeployPlan::Skip
            &&& deployed_exists && !newer_than_deployed && built_exists ==> plan == DeployPlan::Skip
            &&& plan == DeployPlan::BuildAndDeploy ==> !built_exists || newer_than_built
            &&& plan == DeployPlan::Deploy ==> built_exists && !newer_than_built
        }),
{
}

/// Rust files and manifests count as sources, in whatever directory they are; files of another
/// extension, or of none, do not.
pub proof fn law_sources_are_known_by_their_extension(path: Seq<char>, ext: Seq<char>)
    requires
        file_name(path) is Some,
        extension(file_name(path)->0) == Some(ext),
    ensures
        is_source(path) <==> ext == seq!['r', 's'] || ext == seq!['t', 'o', 'm', 'l'],
{
    reveal_strlit("rs");
    reveal_strlit("toml");
    assert("rs"@ =~= seq!['r', 's']);
    assert("toml"@ =~= seq!['t', 'o', 'm', 'l']);
}

/// A source is newer than the plugin exactly where one of the files is a source and has a later
/// time; other files, however new, do not count.
pub proof fn law_only_a_newer_source_counts(
    files: &Vec<(String, u128)>,
    time: u128,
    r: bool,
    i: int,
)
    requires
        call_ensures(is_source_newer_than, (files, time), r),
        0 <= i < files@.len(),
    ensures
        is_source(files@[i].0@) && files@[i].1 > time ==> r,
        (forall|k: int|
            0 <= k < files@.len() ==> !is_source((#[trigger] files@[k]).0@) || files@[k].1 <= time)
            ==> !r,
{
    let file = files@[i];
}

/// The directory that was set is taken where it is there, else the standard one where that is
/// there, and there is an error only where neither is.
pub proof fn law_a_set_directory_comes_first(
    set: Option<&str>,
    set_is_dir: bool,
    data: Option<&str>,
    standard_is_dir: bool,
    r: Result<String, String>,
)
    requires
        call_ensures(eden_mod_dir, (set, set_is_dir, data, standard_is_dir), r),
    ensures
        set is Some && set_is_dir ==> r is Ok && r->Ok_0@ == set->0@,
        !(set is Some && set_is_dir) && data is Some && standard_is_dir ==> r is Ok && r->Ok_0@
            == joined(data->0@, EDEN_MOD_DIR@),
        !(set is Some && set_is_dir) && !(data is Some && standard_is_dir) ==> r is Err,
{
}

/// The workspace is the nearest directory on the way up whose manifest names it.
pub proof fn law_the_nearest_workspace_is_found(
    way_up: &Vec<String>,
    manifests: &Vec<Option<String>>,
    r: Result<String, String>,
    at: int,
)
    requires
        call_ensures(find_workspace_root, (way_up, manifests), r),
        way_up@.len() == manifests@.len(),
        0 <= at < way_up@.len(),
        names_workspace(manifests@[at]),
        forall|j: int| 0 <= j < at ==> !names_workspace(#[trigger] manifests@[j]),
    ensures
        r is Ok,
        r->Ok_0@ == way_up@[at]@,
{
    if r is Ok {
        let i = choose|i: int|
            0 <= i < way_up@.len() && names_workspace(#[trigger] manifests@[i]) && way_up@[i]@
                == r->Ok_0@ && forall|j: int|
                0 <= j < i ==> !names_workspace(#[trigger] manifests@[j]);
        if at < i {
            assert(!names_workspace(manifests@[at]));
        }
        if i < at {
            assert(!names_workspace(manifests@[i]));
        }
        assert(i == at);
    } else {
        assert(!names_workspace(manifests@[at]));
    }
}

} // verus!
