//! Names of files and directories.

use vstd::prelude::*;
use vstd::string::StrSliceExecFns;
use crate::text;

verus! {

/// The name of `part` in the directory `dir`.
pub open spec fn joined(dir: Seq<char>, part: Seq<char>) -> Seq<char> {
    if dir.len() == 0 {
        part
    } else if dir.last() == '/' {
        dir + part
    } else {
        dir + "/"@ + part
    }
}

/// Joins a directory and a relative name.
pub fn join(dir: &str, part: &str) -> (r: String)
    ensures
        r@ == joined(dir@, part@),
{
    let n: usize = dir.unicode_len();
    if n == 0 {
        part.to_owned()
    } else if dir.get_char(n - 1) == '/' {
        text::cat2(dir, part)
    } else {
        text::cat3(dir, "/", part)
    }
}

/// The directory of the dependencies.
pub open spec fn deps(root: Seq<char>) -> Seq<char> {
    joined(root, "tt-metal-deps"@)
}

pub fn deps_root(root: &str) -> (r: String)
    ensures
        r@ == deps(root@),
{
    join(root, "tt-metal-deps")
}

/// The directory of the compiler.
pub open spec fn toolchain(root: Seq<char>) -> Seq<char> {
    joined(joined(deps(root), "sfpi-toolchain"@), "bin"@)
}

pub fn sfpi_dir(root: &str) -> (r: String)
    ensures
        r@ == toolchain(root@),
{
    join(join(deps_root(root).as_str(), "sfpi-toolchain").as_str(), "bin")
}

/// The directory of the libraries that are linked in.
pub open spec fn libraries(root: Seq<char>) -> Seq<char> {
    joined(joined(deps(root), "lib"@), "blackhole"@)
}

pub fn lib_dir(root: &str) -> (r: String)
    ensures
        r@ == libraries(root@),
{
    join(join(deps_root(root).as_str(), "lib").as_str(), "blackhole")
}

/// The directory of the linker scripts.
pub open spec fn linker_scripts(root: Seq<char>) -> Seq<char> {
    joined(joined(deps(root), "toolchain"@), "blackhole"@)
}

pub fn ld_dir(root: &str) -> (r: String)
    ensures
        r@ == linker_scripts(root@),
{
    join(join(deps_root(root).as_str(), "toolchain").as_str(), "blackhole")
}

/// The directory that everything else is found in: the one that was named, else
/// the one that the library was built in if it has the dependencies, else the one
/// that was found around the current directory, else again the first of these.
pub open spec fn root_of(
    named: Option<Seq<char>>,
    built_in: Seq<char>,
    has_deps: bool,
    around: Option<Seq<char>>,
) -> Seq<char> {
    if named is Some && named->0.len() > 0 {
        named->0
    } else if has_deps || around is None {
        built_in
    } else {
        around->0
    }
}

pub open spec fn option_text(s: Option<String>) -> Option<Seq<char>> {
    match s {
        Some(t) => Some(t@),
        None => None,
    }
}

pub fn resolve_repo_root(
    named: Option<String>,
    built_in: String,
    has_deps: bool,
    around: Option<String>,
) -> (r: String)
    ensures
        r@ == root_of(option_text(named), built_in@, has_deps, option_text(around)),
{
    if let Some(path) = named {
        if path.as_str().unicode_len() > 0 {
            return path;
        }
    }
    if has_deps {
        return built_in;
    }
    match around {
        Some(path) => path,
        None => built_in,
    }
}

/// The settings that say where compiled code is kept.
#[derive(Debug)]
pub struct CacheSettings {
    pub enabled: Option<String>,
    pub dir: Option<String>,
    pub user_cache: Option<String>,
    pub home: Option<String>,
    pub temp: String,
}

/// Whether a setting switches something off.
pub open spec fn says_no(s: Seq<char>) -> bool {
    s == "0"@ || s == "false"@ || s == "False"@ || s == "FALSE"@
}

/// The directory in which compiled code is kept, if it is kept at all.
pub open spec fn cache_dir_of(
    enabled: Option<Seq<char>>,
    dir: Option<Seq<char>>,
    user_cache: Option<Seq<char>>,
    home: Option<Seq<char>>,
    temp: Seq<char>,
) -> Option<Seq<char>> {
    let own = |base: Seq<char>| joined(joined(base, "libtt"@), "compiler-v1"@);
    if enabled is Some && says_no(enabled->0) {
        None
    } else if dir is Some {
        if dir->0.len() == 0 {
            None
        } else {
            dir
        }
    } else if user_cache is Some && user_cache->0.len() > 0 {
        Some(own(user_cache->0))
    } else if home is Some && home->0.len() > 0 {
        Some(own(joined(home->0, ".cache"@)))
    } else {
        Some(own(temp))
    }
}

fn own_cache(base: &str) -> (r: String)
    ensures
        r@ == joined(joined(base@, "libtt"@), "compiler-v1"@),
{
    join(join(base, "libtt").as_str(), "compiler-v1")
}

/// Finds the directory in which compiled code is kept.
pub fn resolve_compiler_cache_dir(s: CacheSettings) -> (r: Option<String>)
    ensures
        option_text(r) == cache_dir_of(
            option_text(s.enabled),
            option_text(s.dir),
            option_text(s.user_cache),
            option_text(s.home),
            s.temp@,
        ),
{
    let CacheSettings { enabled, dir, user_cache, home, temp } = s;
    if let Some(setting) = enabled {
        let t = setting.as_str();
        if text::same_text(t, "0") || text::same_text(t, "false") || text::same_text(t, "False")
            || text::same_text(t, "FALSE") {
            return None;
        }
    }
    if let Some(path) = dir {
        if path.as_str().unicode_len() == 0 {
            return None;
        }
        return Some(path);
    }
    if let Some(path) = user_cache {
        if path.as_str().unicode_len() > 0 {
            return Some(own_cache(path.as_str()));
        }
    }
    if let Some(path) = home {
        if path.as_str().unicode_len() > 0 {
            return Some(own_cache(join(path.as_str(), ".cache").as_str()));
        }
    }
    Some(own_cache(temp.as_str()))
}

/// The file in which an entry is kept.
pub open spec fn cache_file(dir: Seq<char>, kind: Seq<char>, key: Seq<char>) -> Seq<char> {
    joined(joined(dir, kind), key + ".bin"@)
}

pub fn cache_file_path(dir: &str, kind: &str, key: &str) -> (r: String)
    ensures
        r@ == cache_file(dir@, kind@, key@),
{
    join(join(dir, kind).as_str(), text::cat2(key, ".bin").as_str())
}

} // verus!
