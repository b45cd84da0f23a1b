use skillsupport::utils::paths::{
    acquired_dir_for, caps_dir_for, contracts_dir_for, join, manifest_path_for,
};

#[test]
fn workspace_paths_hang_off_the_caps_directory() {
    assert_eq!(caps_dir_for("/work"), "/work/caps");
    assert_eq!(acquired_dir_for("/work"), "/work/caps/.acquired");
    assert_eq!(contracts_dir_for("/work/"), "/work/caps/.contracts");
    assert_eq!(manifest_path_for("caps/gmail-send"), "caps/gmail-send/caps.yaml");
}

#[test]
fn joining_puts_one_separator_between_parts() {
    assert_eq!(join("a", "b"), "a/b");
    assert_eq!(join("a/", "b"), "a/b");
    assert_eq!(join("", "b"), "b");
}
