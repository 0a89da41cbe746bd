use penumbra_wrapper::config::{needs_version_sync, AppSettings};

#[test]
fn default_settings() {
    let s = AppSettings::default();
    assert!(s.auto_check_updates);
    assert!(s.da_path.is_none() && s.preloader_path.is_none());
    assert!(s.default_output_path.is_none() && s.antumbra_version.is_none());
}

#[test]
fn version_sync_needed_only_when_different() {
    assert!(needs_version_sync(&None, &"1.0".to_string()));
    assert!(needs_version_sync(&Some("0.9".to_string()), &"1.0".to_string()));
    assert!(!needs_version_sync(&Some("1.0".to_string()), &"1.0".to_string()));
}
