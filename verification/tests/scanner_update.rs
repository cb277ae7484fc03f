use cortex::models::Language;
use cortex::mcp_server::models::FileType;
use cortex::scanner::walker::{directory_tree_structured, list_files_structured, walk_directory, WalkEntry};
use cortex::config::{project_db_path, projects_matching, register_project, registry_path, unregister_project};
use cortex::update::{
    current_version_string, download_url, latest_release_url, platform_tag, release_version, up_to_date, update_confirmed,
};
use cortex::watcher::file_watcher::{on_event, FsEventKind, WatchState};

fn file(path: &str, depth: usize) -> Result<WalkEntry, String> {
    Ok(WalkEntry { path: path.to_string(), depth, is_dir: false, is_file: true, is_symlink: false, size: Some(10) })
}

fn dir(path: &str, depth: usize) -> Result<WalkEntry, String> {
    Ok(WalkEntry { path: path.to_string(), depth, is_dir: true, is_file: false, is_symlink: false, size: None })
}

#[test]
fn walk_keeps_source_files() {
    let entries = vec![dir("/p", 0), file("/p/main.rs", 1), file("/p/notes.md", 1), dir("/p/web", 1), file("/p/web/app.ts", 2)];
    let r = walk_directory(entries).unwrap();
    let got: Vec<(&str, Language)> = r.iter().map(|w| (w.path.as_str(), w.language)).collect();
    assert_eq!(got, vec![("/p/main.rs", Language::Rust), ("/p/web/app.ts", Language::TypeScript)]);
    assert!(walk_directory(vec![file("/p/a.rs", 1), Err("denied".to_string())]).is_err());
}

#[test]
fn structured_tree_sorted_and_filtered() {
    let entries = vec![dir("/p", 0), file("/p/z.rs", 1), dir("/p/src", 1), file("/p/src/a.py", 2), file("/p/src/deep/b.rs", 3), file("/p/src/deep/c/d.rs", 4)];
    let (listing, root) = directory_tree_structured("/p", entries.clone(), Some(3), Some("rs")).unwrap();
    assert_eq!(root, "p");
    let paths: Vec<&str> = listing.iter().map(|e| e.path.as_str()).collect();
    assert_eq!(paths, vec!["", "src", "src/deep/b.rs", "z.rs"]);
    assert_eq!(listing[1].entry_type, FileType::Directory);
    assert_eq!(listing[3].language, Some("rust".to_string()));
}

#[test]
fn file_listing_with_limit() {
    let entries = vec![dir("/p", 0), file("/p/a.rs", 1), dir("/p/src", 1), file("/p/src/b.rs", 2), file("/p/src/c.rs", 2)];
    let files = list_files_structured("/p", entries.clone(), None, false, 2).unwrap();
    let paths: Vec<&str> = files.iter().map(|e| e.path.as_str()).collect();
    assert_eq!(paths, vec!["a.rs", "src/b.rs"]);
    let with_dirs = list_files_structured("/p", entries, None, true, 10).unwrap();
    assert_eq!(with_dirs.len(), 4);
}

#[test]
fn release_locations_and_platforms() {
    assert_eq!(platform_tag("x86_64", "linux"), Ok("linux-x86_64".to_string()));
    assert_eq!(platform_tag("aarch64", "macos"), Ok("macos-aarch64".to_string()));
    assert_eq!(platform_tag("riscv64", "linux"), Err("Unsupported platform: riscv64-linux".to_string()));
    assert_eq!(latest_release_url(), "https://api.github.com/repos/nqh98/cortex/releases/latest");
    assert_eq!(
        download_url("0.3.0", "linux-x86_64"),
        "https://github.com/nqh98/cortex/releases/download/v0.3.0/cortex-linux-x86_64.tar.gz"
    );
    assert_eq!(release_version("v0.3.0"), "0.3.0");
    assert_eq!(release_version("0.3.0"), "0.3.0");
}

#[test]
fn update_answers() {
    assert!(update_confirmed(""));
    assert!(update_confirmed("y"));
    assert!(!update_confirmed(" No \n"));
    assert!(!update_confirmed("N"));
}

#[test]
fn watcher_debounces_and_picks_source_files() {
    let mut state = WatchState::new(500);
    let paths = vec!["/p/a.rs".to_string(), "/p/readme.md".to_string(), "/p/b.py".to_string()];
    let first = on_event(&mut state, 1_000_000_000, FsEventKind::Modify, &paths);
    let got: Vec<(&str, Language)> = first.iter().map(|(p, l)| (p.as_str(), *l)).collect();
    assert_eq!(got, vec![("/p/a.rs", Language::Rust), ("/p/b.py", Language::Python)]);
    assert!(on_event(&mut state, 1_100_000_000, FsEventKind::Modify, &paths).is_empty());
    assert_eq!(state.last_event, Some(1_000_000_000));
    assert!(on_event(&mut state, 2_000_000_000, FsEventKind::Remove, &paths).is_empty());
    assert_eq!(state.last_event, Some(2_000_000_000));
    assert_eq!(on_event(&mut state, 3_000_000_000, FsEventKind::Create, &paths).len(), 2);
}

#[test]
fn version_comparison() {
    assert_eq!(current_version_string(), "0.2.1");
    assert!(up_to_date("0.2.1"));
    assert!(!up_to_date("0.2.2"));
    assert!(!up_to_date("v0.2.1"));
    assert!(up_to_date(&release_version("v0.2.1")));
}

#[test]
fn project_registry_keeps_each_project_once() {
    let mut projects: Vec<String> = Vec::new();
    register_project(&mut projects, "/home/a/alpha");
    register_project(&mut projects, "/home/a/beta");
    register_project(&mut projects, "/home/a/alpha");
    assert_eq!(projects, vec!["/home/a/alpha".to_string(), "/home/a/beta".to_string()]);

    let rest = unregister_project(&projects, "/home/a/alpha");
    assert_eq!(rest, vec!["/home/a/beta".to_string()]);
    let unchanged = unregister_project(&rest, "/home/a/gamma");
    assert_eq!(unchanged, rest);

    assert_eq!(registry_path("/home/a"), "/home/a/.cortex/projects.json");
    assert_eq!(project_db_path("/home/a/alpha"), "/home/a/alpha/.cortex/index.sqlite");
}

#[test]
fn clean_matches_by_substring() {
    let projects = vec!["/src/web-app".to_string(), "/src/api".to_string(), "/src/web-site".to_string()];
    assert_eq!(projects_matching(&projects, "web"), vec!["/src/web-app".to_string(), "/src/web-site".to_string()]);
    assert_eq!(projects_matching(&projects, "api"), vec!["/src/api".to_string()]);
    assert!(projects_matching(&projects, "mobile").is_empty());
}
