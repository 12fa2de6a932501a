use watermark_bridge::bridge::interpreter_name;
use watermark_bridge::locator::{
    component_dir_name, entry_file_name, probe_plan, resolve, shell_subproject_name,
    DeploymentMode, Probe, ResolutionContext, ResolutionError,
};
use watermark_bridge::path::{is_valid_part, AbsPath};

fn path(text: &str) -> AbsPath {
    let parts: Vec<String> = text.split('/').filter(|p| !p.is_empty()).map(|p| p.to_string()).collect();
    AbsPath::from_parts(parts).unwrap()
}

fn ctx(working: Option<&str>, exe: Option<&str>, resource: Option<&str>) -> ResolutionContext {
    ResolutionContext {
        working_dir: working.map(path),
        executable: exe.map(path),
        resource_dir: resource.map(path),
    }
}

fn texts(v: &[AbsPath]) -> Vec<String> {
    v.iter().map(|p| p.to_text()).collect()
}

fn probe(dir_exists: bool, entry_exists: bool) -> Probe {
    Probe { dir_exists, entry_exists }
}

#[test]
fn path_parts_are_checked() {
    let ok = |v: Vec<&str>| AbsPath::from_parts(v.into_iter().map(String::from).collect()).is_some();
    assert!(ok(vec!["home", "u", ".hidden", "..x"]));
    assert!(ok(vec![]));
    assert!(!ok(vec!["home", ".."]));
    assert!(!ok(vec!["."]));
    assert!(!ok(vec![""]));
    assert!(!ok(vec!["a/b"]));
}

#[test]
fn path_text_and_moves() {
    let p = path("/home/u");
    assert_eq!(p.to_text(), "/home/u");
    assert_eq!(AbsPath::root().to_text(), "/");
    assert_eq!(p.child("python").to_text(), "/home/u/python");
    assert_eq!(p.parent().unwrap().to_text(), "/home");
    assert!(AbsPath::root().parent().is_none());
    assert!(p.name_is("u"));
    assert!(!p.name_is("home"));
    assert_eq!(p.depth(), 2);
    assert_eq!(p.part(1), "u");
}

#[test]
fn development_plan_walks_up_from_working_dir() {
    let plan = probe_plan(&ctx(Some("/home/u/app"), None, None), DeploymentMode::Development);
    assert_eq!(texts(&plan), vec!["/home/u/app/python", "/home/u/python", "/home/python"]);
}

#[test]
fn development_plan_walk_stops_at_root() {
    let plan = probe_plan(&ctx(Some("/a"), None, None), DeploymentMode::Development);
    assert_eq!(texts(&plan), vec!["/a/python", "/python"]);
}

#[test]
fn development_plan_from_shell_subproject_steps_to_parent() {
    let plan = probe_plan(&ctx(Some("/home/u/proj/tauri"), None, None), DeploymentMode::Development);
    assert_eq!(texts(&plan), vec!["/home/u/proj/tauri/python", "/home/u/proj/python"]);
}

#[test]
fn development_plan_order_of_strategies() {
    let c = ctx(Some("/w"), Some("/opt/app/bin/tool"), Some("/res"));
    let plan = probe_plan(&c, DeploymentMode::Development);
    assert_eq!(
        texts(&plan),
        vec![
            "/w/python",
            "/python",
            "/res/python",
            "/opt/app/bin/python",
            "/opt/app/python",
            "/opt/python",
            "/python",
        ]
    );
}

#[test]
fn development_plan_executable_walk_is_bounded() {
    let plan = probe_plan(&ctx(None, Some("/a/b/c/d/e/f/g/tool"), None), DeploymentMode::Development);
    assert_eq!(
        texts(&plan),
        vec!["/a/b/c/d/e/f/g/python", "/a/b/c/d/e/f/python", "/a/b/c/d/e/python", "/a/b/c/d/python", "/a/b/c/python"]
    );
}

#[test]
fn packaged_plan_uses_resource_dir_only() {
    let c = ctx(Some("/w"), Some("/opt/app/bin/tool"), Some("/res"));
    let plan = probe_plan(&c, DeploymentMode::Packaged);
    assert_eq!(texts(&plan), vec!["/res/python"]);
}

#[test]
fn packaged_ignores_component_next_to_working_dir() {
    let c = ctx(Some("/w"), None, Some("/res"));
    // Everything probed exists, as a stale development tree would.
    let found = vec![probe(true, true); 8];
    let loc = resolve(&c, DeploymentMode::Packaged, &found).unwrap();
    assert_eq!(loc.dir.to_text(), "/res/python");
    let missing = vec![probe(false, false)];
    match resolve(&c, DeploymentMode::Packaged, &missing) {
        Err(ResolutionError::NotFound(v)) => assert_eq!(texts(&v), vec!["/res/python"]),
        other => panic!("unexpected {:?}", other),
    }
}

#[test]
fn resolve_takes_first_existing_candidate() {
    let c = ctx(Some("/home/u/app"), None, None);
    let found = vec![probe(false, false), probe(true, true), probe(true, true)];
    let loc = resolve(&c, DeploymentMode::Development, &found).unwrap();
    assert_eq!(loc.dir.to_text(), "/home/u/python");
    assert_eq!(loc.entry.to_text(), "/home/u/python/remove_watermark_cli.py");
}

#[test]
fn resolve_reports_missing_entry_point() {
    let c = ctx(Some("/home/u/app"), None, None);
    let found = vec![probe(true, false), probe(true, true)];
    match resolve(&c, DeploymentMode::Development, &found) {
        Err(e @ ResolutionError::EntryPointMissing(_)) => {
            if let ResolutionError::EntryPointMissing(d) = &e {
                assert_eq!(d.to_text(), "/home/u/app/python");
            }
            assert_eq!(
                e.message(),
                "entry point missing: /home/u/app/python/remove_watermark_cli.py (the component directory must hold remove_watermark_cli.py)"
            );
        }
        other => panic!("unexpected {:?}", other),
    }
}

#[test]
fn resolve_not_found_lists_every_probe() {
    let c = ctx(Some("/home/u/app"), Some("/opt/tool"), Some("/res"));
    let found = vec![probe(false, true); 3];
    match resolve(&c, DeploymentMode::Development, &found) {
        Err(e @ ResolutionError::NotFound(_)) => {
            if let ResolutionError::NotFound(v) = &e {
                assert_eq!(
                    texts(v),
                    vec!["/home/u/app/python", "/home/u/python", "/home/python", "/res/python", "/opt/python", "/python"]
                );
                assert!(v.iter().all(|p| p.to_text().starts_with('/')));
            }
            assert_eq!(
                e.message(),
                "component directory not found; searched: /home/u/app/python, /home/u/python, /home/python, /res/python, /opt/python, /python"
            );
        }
        other => panic!("unexpected {:?}", other),
    }
}

#[test]
fn resolve_with_nothing_to_start_from() {
    let c = ctx(None, None, None);
    match resolve(&c, DeploymentMode::Packaged, &vec![]) {
        Err(ResolutionError::NotFound(v)) => assert!(v.is_empty()),
        other => panic!("unexpected {:?}", other),
    }
}

#[test]
fn part_check() {
    assert!(is_valid_part("python"));
    assert!(is_valid_part("..."));
    assert!(!is_valid_part(".."));
    assert!(!is_valid_part("a/b"));
}

#[test]
fn entry_names() {
    assert_eq!(component_dir_name(), "python");
    assert_eq!(entry_file_name(), "remove_watermark_cli.py");
    assert_eq!(shell_subproject_name(), "tauri");
    assert_eq!(interpreter_name(), "python3");
}
