//! Where a Colony program keeps its files.
//!
//! Everything a program owns lives under a `Colony/<Program>/` pair: the
//! organisation, then the program. The program name is checked to be one
//! safe path component before it is joined, so it cannot escape the tree.
//! Creating the directories is the program's side; this module computes
//! where they are.

use vstd::prelude::*;

use crate::text::{contains_char, debug_str, has_char, spec_debug_str, str_eq};

pub mod locate;

verus! {

/// The organisation directory every Colony program nests under.
pub const VENDOR: &'static str = "Colony";

/// The shared install root for programs the launcher installs, a sibling of
/// the per-program directories.
pub const APPS: &'static str = "apps";

/// Why a directory cannot be given.
#[derive(Debug, PartialEq, Eq)]
pub enum PathError {
    /// The name is not a safe single path component.
    InvalidName { name: String },
    /// The platform has no such base directory.
    NotFound { what: &'static str },
}

/// The checks on a program name that need no knowledge of the platform's
/// path syntax: not empty, not `.` or `..`, no `/`, `\` or NUL.
pub open spec fn plain_name(name: Seq<char>) -> bool {
    &&& name.len() > 0
    &&& name != "."@
    &&& name != ".."@
    &&& !has_char(name, '/')
    &&& !has_char(name, '\\')
    &&& !has_char(name, '\0')
}

/// A name that cannot hold a platform prefix either: no `:` (a Windows drive
/// or device prefix needs one; a verbatim or UNC prefix needs a separator).
pub open spec fn simple_name(name: Seq<char>) -> bool {
    plain_name(name) && !has_char(name, ':')
}

/// `Path::new(name).components().count()`.
///
/// Trusted: std documents that a path is split into components at its
/// separators, that a prefix (Windows only) starts with a drive letter and
/// `:` or with a separator, and that `.` is normalised away; so a name with no
/// separator, no `:`, and that is neither empty nor `.` nor `..` is one
/// normal component. Other names depend on the platform's path syntax and are
/// not described.
#[verifier::external_body]
fn path_component_count(name: &str) -> (res: usize)
    ensures
        simple_name(name@) ==> res == 1,
{
    std::path::Path::new(name).components().count()
}

/// `Path::new(name).file_name()`, as text.
///
/// Trusted: std documents `file_name` as the final component when it is a
/// normal one; for a name that is one normal component (see above) that is
/// the name itself. Other names are not described.
#[verifier::external_body]
fn path_file_name(name: &str) -> (res: Option<String>)
    ensures
        simple_name(name@) ==> res is Some && res->0@ == name@,
{
    std::path::Path::new(name).file_name().and_then(|f| f.to_str()).map(|f| f.to_string())
}

/// Accepts `name` only if it is a single, safe path component.
///
/// The name reaches the directory functions from a manifest or a config file,
/// and it is joined into a path that is later written to and removed.
pub fn component(name: &str) -> (res: Result<&str, PathError>)
    ensures
        res matches Ok(n) ==> n@ == name@ && plain_name(name@),
        !plain_name(name@) ==> res is Err,
        res matches Err(e) ==> e matches PathError::InvalidName { name: n } && n@ == name@,
        simple_name(name@) ==> res is Ok,
{
    proof {
        reveal_strlit(".");
        reveal_strlit("..");
    }
    let plain = name.unicode_len() > 0 && !str_eq(name, ".") && !str_eq(name, "..")
        && !contains_char(name, '/') && !contains_char(name, '\\') && !contains_char(name, '\0');
    let invalid = !plain || path_component_count(name) != 1 || !file_name_is(path_file_name(name), name);
    if invalid {
        return Err(PathError::InvalidName { name: name.to_owned() });
    }
    Ok(name)
}

/// Whether the file name that path parsing found is the name itself.
fn file_name_is(file_name: Option<String>, name: &str) -> (res: bool)
    ensures
        res == (file_name matches Some(f) && f@ == name@),
{
    match file_name {
        Some(f) => str_eq(f.as_str(), name),
        None => false,
    }
}

/// The message the error is reported with.
pub open spec fn path_error_message(e: PathError) -> Seq<char> {
    match e {
        PathError::InvalidName { name } => spec_debug_str(name@) + " is not a safe single path component"@,
        PathError::NotFound { what } => "cannot determine the platform "@ + what@ + " directory"@,
    }
}

impl PathError {
    pub fn message(&self) -> (m: String)
        ensures
            m@ == path_error_message(*self),
    {
        match self {
            PathError::InvalidName { name } => {
                let mut m = debug_str(name.as_str());
                m.append(" is not a safe single path component");
                m
            },
            PathError::NotFound { what } => {
                let mut m = String::from_str("cannot determine the platform ");
                m.append(what);
                m.append(" directory");
                m
            },
        }
    }
}


/// Which platform directory a location hangs off.
#[derive(Debug, Clone, Copy, PartialEq, Eq, Structural)]
pub enum Root {
    Config,
    Data,
    Cache,
}

/// A directory as the layout places it: a platform root, then components.
pub struct Location {
    pub root: Root,
    pub parts: Vec<String>,
}

/// The text of each component.
pub open spec fn part_views(parts: Seq<String>) -> Seq<Seq<char>> {
    parts.map_values(|p: String| p@)
}

/// `apps` is the shared install root beside the program directories, so no
/// program may take that name.
pub open spec fn program_name(name: Seq<char>) -> bool {
    plain_name(name) && name != APPS@
}

/// `Colony/<program>`: every program's directory under each root.
pub open spec fn program_parts(program: Seq<char>) -> Seq<Seq<char>> {
    seq![VENDOR@, program]
}

/// `Colony/<program>/cache` where the cache root is also the config or data
/// root, else `Colony/<program>`: the cache directory must not be the
/// program's config or data directory.
pub open spec fn cache_parts(program: Seq<char>, shared_root: bool) -> Seq<Seq<char>> {
    if shared_root {
        seq![VENDOR@, program, "cache"@]
    } else {
        program_parts(program)
    }
}

/// `Colony/apps`: the shared install root.
pub open spec fn apps_parts() -> Seq<Seq<char>> {
    seq![VENDOR@, APPS@]
}

/// `Colony/apps/<repo>`: one installed program.
pub open spec fn app_parts(repo: Seq<char>) -> Seq<Seq<char>> {
    seq![VENDOR@, APPS@, repo]
}

fn parts_of(a: &str, b: &str) -> (res: Vec<String>)
    ensures
        part_views(res@) == seq![a@, b@],
{
    let mut v: Vec<String> = Vec::new();
    v.push(a.to_owned());
    v.push(b.to_owned());
    assert(part_views(v@) =~= seq![a@, b@]);
    v
}

/// Checks a program name: a safe component, and not the reserved `apps`.
fn program_component(name: &str) -> (res: Result<&str, PathError>)
    ensures
        res matches Ok(n) ==> n@ == name@ && program_name(name@),
        !program_name(name@) ==> res is Err,
        simple_name(name@) && name@ != APPS@ ==> res is Ok,
        res matches Err(e) ==> e matches PathError::InvalidName { name: n } && n@ == name@,
{
    let c = match component(name) {
        Ok(c) => c,
        Err(e) => return Err(e),
    };
    if str_eq(c, APPS) {
        return Err(PathError::InvalidName { name: name.to_owned() });
    }
    Ok(c)
}

/// Where the program's configuration lives: the config root, then
/// `Colony/<program>`.
pub fn config_location(program: &str) -> (res: Result<Location, PathError>)
    ensures
        res matches Ok(l) ==> l.root == Root::Config && part_views(l.parts@) == program_parts(program@)
            && program_name(program@),
        !program_name(program@) ==> res is Err,
        simple_name(program@) && program@ != APPS@ ==> res is Ok,
        res matches Err(e) ==> e matches PathError::InvalidName { name: n } && n@ == program@,
{
    match program_component(program) {
        Ok(p) => Ok(Location { root: Root::Config, parts: parts_of(VENDOR, p) }),
        Err(e) => Err(e),
    }
}

/// Where the program's data lives: the data root, then `Colony/<program>`.
pub fn data_location(program: &str) -> (res: Result<Location, PathError>)
    ensures
        res matches Ok(l) ==> l.root == Root::Data && part_views(l.parts@) == program_parts(program@)
            && program_name(program@),
        !program_name(program@) ==> res is Err,
        simple_name(program@) && program@ != APPS@ ==> res is Ok,
        res matches Err(e) ==> e matches PathError::InvalidName { name: n } && n@ == program@,
{
    match program_component(program) {
        Ok(p) => Ok(Location { root: Root::Data, parts: parts_of(VENDOR, p) }),
        Err(e) => Err(e),
    }
}

/// Where the program's cache lives: the cache root, then `Colony/<program>`,
/// then `cache` when that root is also the config or data root.
pub fn cache_location(program: &str, shared_root: bool) -> (res: Result<Location, PathError>)
    ensures
        res matches Ok(l) ==> l.root == Root::Cache && part_views(l.parts@) == cache_parts(
            program@,
            shared_root,
        ) && program_name(program@),
        !program_name(program@) ==> res is Err,
        simple_name(program@) && program@ != APPS@ ==> res is Ok,
        res matches Err(e) ==> e matches PathError::InvalidName { name: n } && n@ == program@,
{
    match program_component(program) {
        Ok(p) => {
            let mut parts = parts_of(VENDOR, p);
            if shared_root {
                let ghost before = parts@;
                parts.push(String::from_str("cache"));
                assert(part_views(parts@) =~= part_views(before).push("cache"@));
            }
            Ok(Location { root: Root::Cache, parts })
        },
        Err(e) => Err(e),
    }
}

/// The shared install root: the data root, then `Colony/apps`.
pub fn apps_location() -> (res: Location)
    ensures
        res.root == Root::Data,
        part_views(res.parts@) == apps_parts(),
{
    Location { root: Root::Data, parts: parts_of(VENDOR, APPS) }
}

/// One installed program: the data root, then `Colony/apps/<repo>`.
pub fn app_location(repo: &str) -> (res: Result<Location, PathError>)
    ensures
        res matches Ok(l) ==> l.root == Root::Data && part_views(l.parts@) == app_parts(repo@)
            && plain_name(repo@),
        !plain_name(repo@) ==> res is Err,
        simple_name(repo@) ==> res is Ok,
        res matches Err(e) ==> e matches PathError::InvalidName { name: n } && n@ == repo@,
{
    match component(repo) {
        Ok(r) => {
            let mut parts = parts_of(VENDOR, APPS);
            let ghost before = parts@;
            parts.push(r.to_owned());
            assert(part_views(parts@) =~= part_views(before).push(repo@));
            Ok(Location { root: Root::Data, parts })
        },
        Err(e) => Err(e),
    }
}

/// `a` is `b` followed by zero or more further components.
pub open spec fn within(a: Seq<Seq<char>>, b: Seq<Seq<char>>) -> bool {
    b.len() <= a.len() && a.take(b.len() as int) == b
}

/// A program's data directory and the shared install root are siblings:
/// the same parent `Colony`, and never the same directory, nor one inside
/// the other.
pub proof fn law_apps_beside_programs(program: Seq<char>)
    requires
        program_name(program),
    ensures
        program_parts(program).drop_last() == apps_parts().drop_last(),
        program_parts(program) != apps_parts(),
        !within(program_parts(program), apps_parts()),
        !within(apps_parts(), program_parts(program)),
{
    assert(program_parts(program).drop_last() =~= seq![VENDOR@]);
    assert(apps_parts().drop_last() =~= seq![VENDOR@]);
    assert(program_parts(program)[1] == program);
    assert(apps_parts()[1] == APPS@);
    assert(program_parts(program).take(2) =~= program_parts(program));
    assert(apps_parts().take(2) =~= apps_parts());
}

/// Under a root it shares with the config or data directory, the cache
/// directory is never that directory and never contains it; under a root of
/// its own it is that root's `Colony/<program>`.
pub proof fn law_cache_apart(program: Seq<char>, shared_root: bool)
    requires
        program_name(program),
    ensures
        shared_root ==> cache_parts(program, shared_root) != program_parts(program),
        shared_root ==> !within(program_parts(program), cache_parts(program, shared_root)),
        !shared_root ==> cache_parts(program, shared_root) == program_parts(program),
{
    if shared_root {
        assert(cache_parts(program, shared_root).len() == 3);
    }
}

} // verus!
