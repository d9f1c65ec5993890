use vanyline_sandbox::venv::venv_overlay_entries;

#[test]
fn venv_overlay_absent_marker_gives_nothing() {
    assert_eq!(venv_overlay_entries(false, "/ws/.venv", "/usr/bin"), Vec::<(String, String)>::new());
}

#[test]
fn venv_overlay_present_marker_gives_both_pairs_in_order() {
    assert_eq!(
        venv_overlay_entries(true, "/ws/.venv", "/usr/bin:/bin"),
        vec![
            ("VIRTUAL_ENV".to_string(), "/ws/.venv".to_string()),
            ("PATH".to_string(), "/ws/.venv/bin:/usr/bin:/bin".to_string()),
        ]
    );
}

#[test]
fn venv_overlay_empty_inherited_path() {
    assert_eq!(
        venv_overlay_entries(true, "/r/.venv", ""),
        vec![
            ("VIRTUAL_ENV".to_string(), "/r/.venv".to_string()),
            ("PATH".to_string(), "/r/.venv/bin:".to_string()),
        ]
    );
}

#[test]
fn venv_overlay_absent() {
    assert_eq!(venv_overlay_entries(false, "/tmp/x/.venv", "/bin"), Vec::<(String, String)>::new());
}
