//! Configuration: where the index lives and how files are indexed.

use crate::paths::{join_path, path_join};
use crate::text::{contains, contains_chars, str_eq, string_views, to_chars};
use vstd::prelude::*;

verus! {

/// The whole configuration.
#[derive(Debug, Clone)]
pub struct Config {
    pub database: DatabaseConfig,
    pub indexing: IndexingConfig,
    pub embeddings: EmbeddingConfig,
    pub watcher: WatcherConfig,
}

/// Where the global database lives.
#[derive(Debug, Clone)]
pub struct DatabaseConfig {
    pub path: String,
}

/// Limits and file types for indexing.
#[derive(Debug, Clone)]
pub struct IndexingConfig {
    pub max_file_size_kb: u64,
    pub supported_extensions: Vec<String>,
}

/// Embedding settings.
#[derive(Debug, Clone)]
pub struct EmbeddingConfig {
    pub enabled: bool,
    pub model: String,
    pub batch_size: usize,
}

/// File watcher settings.
#[derive(Debug, Clone)]
pub struct WatcherConfig {
    pub debounce_ms: u64,
}

/// The global configuration directory under the home directory `home`: `~/.cortex`.
pub open spec fn cortex_dir_of(home: Seq<char>) -> Seq<char> {
    path_join(home, ".cortex"@)
}

/// The global configuration directory `~/.cortex`, for home directory `home`.
pub fn cortex_dir(home: &str) -> (r: String)
    ensures
        r@ == cortex_dir_of(home@),
{
    join_path(home, ".cortex")
}

/// The index database of a project: `<project>/.cortex/index.sqlite`.
pub open spec fn project_db_path_of(project_root: Seq<char>) -> Seq<char> {
    path_join(path_join(project_root, ".cortex"@), "index.sqlite"@)
}

/// The index database of a project: `<project>/.cortex/index.sqlite`.
pub fn project_db_path(project_root: &str) -> (r: String)
    ensures
        r@ == project_db_path_of(project_root@),
{
    let dir = join_path(project_root, ".cortex");
    join_path(dir.as_str(), "index.sqlite")
}

/// The extensions indexed by default.
pub open spec fn default_extensions() -> Seq<Seq<char>> {
    seq!["rs"@, "py"@, "js"@, "ts"@, "tsx"@, "jsx"@]
}

impl Config {
    /// The default configuration file `~/.cortex/config.toml`, for home directory `home`.
    pub fn default_config_path(home: &str) -> (r: String)
        ensures
            r@ == path_join(cortex_dir_of(home@), "config.toml"@),
    {
        let dir = cortex_dir(home);
        join_path(dir.as_str(), "config.toml")
    }

    /// The default configuration for home directory `home`.
    pub fn default_for(home: &str) -> (c: Config)
        ensures
            c.database.path@ == path_join(cortex_dir_of(home@), "db.sqlite"@),
            c.indexing.max_file_size_kb == 1024,
            string_views(c.indexing.supported_extensions@) == default_extensions(),
            !c.embeddings.enabled,
            c.embeddings.model@ == "AllMiniLML6V2"@,
            c.embeddings.batch_size == 32,
            c.watcher.debounce_ms == 500,
    {
        let dir = cortex_dir(home);
        let db = join_path(dir.as_str(), "db.sqlite");
        let mut exts: Vec<String> = Vec::new();
        exts.push("rs".to_owned());
        exts.push("py".to_owned());
        exts.push("js".to_owned());
        exts.push("ts".to_owned());
        exts.push("tsx".to_owned());
        exts.push("jsx".to_owned());
        assert(string_views(exts@) =~= default_extensions());
        Config {
            database: DatabaseConfig { path: db },
            indexing: IndexingConfig { max_file_size_kb: 1024, supported_extensions: exts },
            embeddings: EmbeddingConfig {
                enabled: false,
                model: "AllMiniLML6V2".to_owned(),
                batch_size: 32,
            },
            watcher: WatcherConfig { debounce_ms: 500 },
        }
    }
}

/// The registry of indexed projects: `~/.cortex/projects.json`.
pub fn registry_path(home: &str) -> (r: String)
    ensures
        r@ == path_join(cortex_dir_of(home@), "projects.json"@),
{
    let dir = cortex_dir(home);
    join_path(dir.as_str(), "projects.json")
}

/// The registry with `root` recorded: unchanged where it is listed already,
/// else with `root` appended.
pub open spec fn registered(projects: Seq<Seq<char>>, root: Seq<char>) -> Seq<Seq<char>> {
    if projects.contains(root) {
        projects
    } else {
        projects.push(root)
    }
}

/// The registry without `root`, the others in order.
pub open spec fn unregistered(projects: Seq<Seq<char>>, root: Seq<char>) -> Seq<Seq<char>>
    decreases projects.len(),
{
    if projects.len() == 0 {
        projects
    } else {
        let rest = unregistered(projects.drop_last(), root);
        if projects.last() == root {
            rest
        } else {
            rest.push(projects.last())
        }
    }
}

/// The registered projects whose path contains `name`, in order.
pub open spec fn matching(projects: Seq<Seq<char>>, name: Seq<char>) -> Seq<Seq<char>>
    decreases projects.len(),
{
    if projects.len() == 0 {
        projects
    } else {
        let rest = matching(projects.drop_last(), name);
        if contains(projects.last(), name) {
            rest.push(projects.last())
        } else {
            rest
        }
    }
}

/// Records `root` in the registry `projects`.
pub fn register_project(projects: &mut Vec<String>, root: &str)
    ensures
        string_views(final(projects)@) == registered(string_views(old(projects)@), root@),
{
    let ghost pv = string_views(projects@);
    let mut k: usize = 0;
    while k < projects.len()
        invariant
            k <= projects@.len(),
            pv == string_views(projects@),
            forall|q: int| 0 <= q < k ==> pv[q] != root@,
        decreases projects@.len() - k,
    {
        if str_eq(projects[k].as_str(), root) {
            assert(pv[k as int] == root@);
            return;
        }
        k = k + 1;
    }
    assert(!pv.contains(root@));
    projects.push(root.to_owned());
    assert(string_views(projects@) =~= pv.push(root@));
}

/// The registry without `root`.
pub fn unregister_project(projects: &Vec<String>, root: &str) -> (r: Vec<String>)
    ensures
        string_views(r@) == unregistered(string_views(projects@), root@),
{
    let ghost pv = string_views(projects@);
    let mut r: Vec<String> = Vec::new();
    let mut k: usize = 0;
    while k < projects.len()
        invariant
            k <= projects@.len(),
            pv == string_views(projects@),
            string_views(r@) == unregistered(pv.take(k as int), root@),
        decreases projects@.len() - k,
    {
        assert(pv.take(k + 1).drop_last() =~= pv.take(k as int));
        assert(pv.take(k + 1).last() == projects@[k as int]@);
        if !str_eq(projects[k].as_str(), root) {
            let ghost before = string_views(r@);
            r.push(projects[k].clone());
            assert(string_views(r@) =~= before.push(projects@[k as int]@));
        }
        k = k + 1;
    }
    assert(pv.take(projects@.len() as int) =~= pv);
    r
}

/// The registered projects whose path contains `name`.
pub fn projects_matching(projects: &Vec<String>, name: &str) -> (r: Vec<String>)
    ensures
        string_views(r@) == matching(string_views(projects@), name@),
{
    let ghost pv = string_views(projects@);
    let n = to_chars(name);
    let mut r: Vec<String> = Vec::new();
    let mut k: usize = 0;
    while k < projects.len()
        invariant
            k <= projects@.len(),
            pv == string_views(projects@),
            n@ == name@,
            string_views(r@) == matching(pv.take(k as int), name@),
        decreases projects@.len() - k,
    {
        assert(pv.take(k + 1).drop_last() =~= pv.take(k as int));
        assert(pv.take(k + 1).last() == projects@[k as int]@);
        let p = to_chars(projects[k].as_str());
        if contains_chars(p.as_slice(), n.as_slice()) {
            let ghost before = string_views(r@);
            r.push(projects[k].clone());
            assert(string_views(r@) =~= before.push(projects@[k as int]@));
        }
        k = k + 1;
    }
    assert(pv.take(projects@.len() as int) =~= pv);
    r
}

/// A project that is unregistered is no longer listed, and every other
/// project stays listed.
pub proof fn lemma_unregistered(projects: Seq<Seq<char>>, root: Seq<char>, other: Seq<char>)
    ensures
        !unregistered(projects, root).contains(root),
        other != root ==> (unregistered(projects, root).contains(other) <==> projects.contains(
            other,
        )),
        registered(projects, root).contains(root),
    decreases projects.len(),
{
    if projects.len() > 0 {
        lemma_unregistered(projects.drop_last(), root, other);
        let rest = unregistered(projects.drop_last(), root);
        assert(projects =~= projects.drop_last().push(projects.last()));
        if projects.last() != root {
            assert(rest.push(projects.last()).last() == projects.last());
            assert forall|x: Seq<char>| rest.push(projects.last()).contains(x) <==> (rest.contains(
                x,
            ) || x == projects.last()) by {
                if rest.push(projects.last()).contains(x) {
                    let i = choose|i: int|
                        0 <= i < rest.push(projects.last()).len() && rest.push(
                            projects.last(),
                        )[i] == x;
                    if i < rest.len() {
                        assert(rest[i] == x);
                    }
                }
                if rest.contains(x) {
                    let i = choose|i: int| 0 <= i < rest.len() && rest[i] == x;
                    assert(rest.push(projects.last())[i] == x);
                }
            }
        }
        assert forall|x: Seq<char>| projects.contains(x) <==> (projects.drop_last().contains(x)
            || x == projects.last()) by {
            if projects.contains(x) {
                let i = choose|i: int| 0 <= i < projects.len() && projects[i] == x;
                if i < projects.len() - 1 {
                    assert(projects.drop_last()[i] == x);
                }
            }
            if projects.drop_last().contains(x) {
                let i = choose|i: int|
                    0 <= i < projects.drop_last().len() && projects.drop_last()[i] == x;
                assert(projects[i] == x);
            }
        }
    }
    if !projects.contains(root) {
        assert(projects.push(root)[projects.len() as int] == root);
    }
}

} // verus!
