//! Paths without the side effect of creating them: to show where something
//! would live without bringing the directory into existence.

use std::path::PathBuf;

use vstd::prelude::*;

use super::{
    app_location, apps_location, cache_location, config_location, data_location, plain_name, program_name,
    simple_name, Location, PathError, APPS,
};

verus! {

#[verifier::external_type_specification]
#[verifier::external_body]
pub struct ExPathBuf(PathBuf);

/// `dirs::config_local_dir()`.
///
/// Trusted: the platform's local configuration directory, read from the
/// environment; nothing is claimed of it.
#[verifier::external_body]
fn platform_config_dir() -> Option<PathBuf> {
    dirs::config_local_dir()
}

/// `dirs::data_local_dir()`.
///
/// Trusted: the platform's local data directory, read from the environment;
/// nothing is claimed of it.
#[verifier::external_body]
fn platform_data_dir() -> Option<PathBuf> {
    dirs::data_local_dir()
}

/// `dirs::cache_dir()`.
///
/// Trusted: the platform's cache directory, read from the environment;
/// nothing is claimed of it.
#[verifier::external_body]
fn platform_cache_dir() -> Option<PathBuf> {
    dirs::cache_dir()
}

/// `PathBuf::join`.
///
/// Trusted: std adjoins `part` to the path with the platform's separator;
/// the resulting path is not described here, a `PathBuf` having no view.
#[verifier::external_body]
fn join(base: PathBuf, part: &str) -> PathBuf {
    base.join(part)
}

/// `PathBuf == PathBuf`.
///
/// Trusted: std's comparison of paths by their components; nothing is
/// claimed of the answer, the paths being the platform's.
#[verifier::external_body]
fn same_path(a: &PathBuf, b: &PathBuf) -> bool {
    a == b
}

/// `root` joined with each component of the location, in order.
fn join_all(root: PathBuf, loc: &Location) -> PathBuf {
    let mut p = root;
    let mut i: usize = 0;
    while i < loc.parts.len()
        decreases loc.parts@.len() - i,
    {
        p = join(p, loc.parts[i].as_str());
        i = i + 1;
    }
    p
}

/// The directory at a location, under the platform root read for it: a
/// missing root is reported first, then a name the location refused, and
/// otherwise the root joined with the location's components.
pub fn dir_at(root: Option<PathBuf>, loc: Result<Location, PathError>, what: &'static str) -> (res: Result<PathBuf, PathError>)
    ensures
        root is None ==> res == Err::<PathBuf, PathError>(PathError::NotFound { what }),
        root is Some && loc is Err ==> res is Err && res->Err_0 == loc->Err_0,
        root is Some && loc is Ok ==> res is Ok,
{
    match root {
        None => Err(PathError::NotFound { what }),
        Some(r) => match loc {
            Err(e) => Err(e),
            Ok(l) => Ok(join_all(r, &l)),
        },
    }
}

/// Whether the cache root is also the config or the data root (Windows puts
/// all three in one folder).
fn cache_root_shared(cache: &PathBuf) -> bool {
    let config = match platform_config_dir() {
        Some(c) => same_path(cache, &c),
        None => false,
    };
    let data = match platform_data_dir() {
        Some(d) => same_path(cache, &d),
        None => false,
    };
    config || data
}

/// The program's configuration directory: the config root, then
/// `Colony/<program>` (`config_location`).
pub fn config_dir(program: &str) -> (res: Result<PathBuf, PathError>)
    ensures
        res is Ok ==> program_name(program@),
        !program_name(program@) ==> res is Err,
        simple_name(program@) && program@ != APPS@ ==> res is Ok || res == Err::<PathBuf, PathError>(
            PathError::NotFound { what: "config" },
        ),
        res matches Err(PathError::InvalidName { name }) ==> name@ == program@,
        res matches Err(PathError::NotFound { what }) ==> what@ == "config"@,
{
    dir_at(platform_config_dir(), config_location(program), "config")
}

/// The program's data directory: the data root, then `Colony/<program>`
/// (`data_location`).
pub fn data_dir(program: &str) -> (res: Result<PathBuf, PathError>)
    ensures
        res is Ok ==> program_name(program@),
        !program_name(program@) ==> res is Err,
        simple_name(program@) && program@ != APPS@ ==> res is Ok || res == Err::<PathBuf, PathError>(
            PathError::NotFound { what: "data" },
        ),
        res matches Err(PathError::InvalidName { name }) ==> name@ == program@,
        res matches Err(PathError::NotFound { what }) ==> what@ == "data"@,
{
    dir_at(platform_data_dir(), data_location(program), "data")
}

/// The program's cache directory: the cache root, then `Colony/<program>`,
/// then `cache` where that root is also the config or data root
/// (`cache_location`).
pub fn cache_dir(program: &str) -> (res: Result<PathBuf, PathError>)
    ensures
        res is Ok ==> program_name(program@),
        !program_name(program@) ==> res is Err,
        simple_name(program@) && program@ != APPS@ ==> res is Ok || res == Err::<PathBuf, PathError>(
            PathError::NotFound { what: "cache" },
        ),
        res matches Err(PathError::InvalidName { name }) ==> name@ == program@,
        res matches Err(PathError::NotFound { what }) ==> what@ == "cache"@,
{
    match platform_cache_dir() {
        None => Err(PathError::NotFound { what: "cache" }),
        Some(root) => {
            let shared = cache_root_shared(&root);
            dir_at(Some(root), cache_location(program, shared), "cache")
        },
    }
}

/// The shared install root: the data root, then `Colony/apps`
/// (`apps_location`).
pub fn apps_dir() -> (res: Result<PathBuf, PathError>)
    ensures
        res matches Err(e) ==> e == (PathError::NotFound { what: "data" }),
{
    dir_at(platform_data_dir(), Ok(apps_location()), "data")
}

/// One installed program's directory: the data root, then
/// `Colony/apps/<repo>` (`app_location`).
pub fn app_dir(repo: &str) -> (res: Result<PathBuf, PathError>)
    ensures
        res is Ok ==> plain_name(repo@),
        !plain_name(repo@) ==> res is Err,
        simple_name(repo@) ==> res is Ok || res == Err::<PathBuf, PathError>(PathError::NotFound { what: "data" }),
        res matches Err(PathError::InvalidName { name }) ==> name@ == repo@,
        res matches Err(PathError::NotFound { what }) ==> what@ == "data"@,
{
    dir_at(platform_data_dir(), app_location(repo), "data")
}

} // verus!
