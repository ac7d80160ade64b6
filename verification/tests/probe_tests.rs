use treeclean::probe::{Helpers, Markers, ToolAction};

fn all_tools() -> Helpers {
    Helpers { cargo: true, git: true, npm: true, poetry: true, pyclean: true }
}

fn no_markers() -> Markers {
    Markers { cargo_toml: false, git_dir: false, package_json: false, pyproject_toml: false }
}

#[test]
fn no_markers_no_actions() {
    assert_eq!(all_tools().actions(&no_markers()), Vec::<ToolAction>::new());
}

#[test]
fn every_marker_with_every_tool() {
    let m = Markers { cargo_toml: true, git_dir: true, package_json: true, pyproject_toml: true };
    assert_eq!(
        all_tools().actions(&m),
        vec![
            ToolAction::CargoClean,
            ToolAction::GitGc,
            ToolAction::NpmCacheClean,
            ToolAction::PoetryCacheClear,
        ]
    );
}

#[test]
fn marker_without_tool_triggers_nothing() {
    let h = Helpers { cargo: false, git: true, npm: false, poetry: false, pyclean: false };
    let m = Markers { cargo_toml: true, git_dir: true, package_json: true, pyproject_toml: false };
    assert_eq!(h.actions(&m), vec![ToolAction::GitGc]);
}

#[test]
fn tool_without_marker_triggers_nothing() {
    let m = Markers { cargo_toml: false, git_dir: false, package_json: true, pyproject_toml: false };
    assert_eq!(all_tools().actions(&m), vec![ToolAction::NpmCacheClean]);
}

#[test]
fn probing_the_system_path_gives_a_snapshot() {
    // Whatever this machine offers, probing twice gives the same snapshot.
    let a = Helpers::new();
    let b = Helpers::new();
    assert_eq!(a.cargo, b.cargo);
    assert_eq!(a.git, b.git);
    assert_eq!(a.npm, b.npm);
    assert_eq!(a.poetry, b.poetry);
    assert_eq!(a.pyclean, b.pyclean);
}
