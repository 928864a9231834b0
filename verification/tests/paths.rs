use mt_runtime::paths::{input_base_directory, resolve_checkpoint_path, resolve_input_relative_path};

#[test]
fn relative_paths_resolve_against_the_input_directory() {
    assert_eq!(
        resolve_input_relative_path("runs/si/input.toml", "recipes/si.toml"),
        "runs/si/recipes/si.toml"
    );
    assert_eq!(
        resolve_checkpoint_path("runs/si/input.toml", "state.toml"),
        "runs/si/state.toml"
    );
    assert_eq!(resolve_input_relative_path("input.toml", "state.toml"), "state.toml");
    assert_eq!(resolve_input_relative_path("", "state.toml"), "./state.toml");
    assert_eq!(resolve_input_relative_path("a/input.toml", "/abs/state.toml"), "/abs/state.toml");
}

#[test]
fn missing_parent_means_current_directory() {
    assert_eq!(input_base_directory(None), ".");
    assert_eq!(input_base_directory(Some("dir".to_owned())), "dir");
}
