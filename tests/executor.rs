use penumbra_wrapper::diagnostics::{recommendations, tasklist_pids, Findings};
use penumbra_wrapper::executor::{
    binary_name, choose_working_dir, device_args, plain_outcome, read_all_args, version_text,
    AntumbraExecutor, CommandLog, ProcessSlot,
};

fn strs(v: &[&str]) -> Vec<String> {
    v.iter().map(|s| s.to_string()).collect()
}

#[test]
fn binary_names() {
    assert_eq!(binary_name(true), "antumbra.exe");
    assert_eq!(binary_name(false), "antumbra");
}

#[test]
fn working_dir_choice() {
    assert_eq!(choose_working_dir(Some("/opt".to_string()), true, "/cfg".to_string()), "/opt");
    assert_eq!(choose_working_dir(Some("/opt".to_string()), false, "/cfg".to_string()), "/cfg");
    assert_eq!(choose_working_dir(None, true, "/cfg".to_string()), "/cfg");
}

#[test]
fn flash_arguments() {
    let args = device_args(
        strs(&["download", "boot", "/img/boot.img"]),
        "/da.bin".to_string(),
        Some("/pl.bin".to_string()),
    );
    assert_eq!(args, strs(&["download", "boot", "/img/boot.img", "-d", "/da.bin", "-p", "/pl.bin"]));
    let args = device_args(strs(&["shutdown"]), "/da.bin".to_string(), None);
    assert_eq!(args, strs(&["shutdown", "-d", "/da.bin"]));
}

#[test]
fn read_all_arguments() {
    let args = read_all_args(
        "/out".to_string(),
        "/da.bin".to_string(),
        None,
        strs(&["userdata", "super"]),
    );
    assert_eq!(
        args,
        strs(&["read-all", "/out", "-d", "/da.bin", "--skip", "userdata", "--skip", "super"])
    );
}

#[test]
fn last_command_record() {
    let exec = AntumbraExecutor::new("/bin/antumbra".to_string(), "/work".to_string());
    assert_eq!(exec.get_binary_path(), "/bin/antumbra");
    assert_eq!(exec.get_working_dir(), "/work");
    let info = exec.command_info(&strs(&["--version"]), "2025-01-01T00:00:00+00:00".to_string());
    assert_eq!(info.command, "/bin/antumbra");
    assert_eq!(info.args, strs(&["--version"]));
    assert_eq!(info.working_dir, "/work");
    let mut log = CommandLog::new();
    assert!(log.get_last_command_info().is_none());
    log.record(info);
    assert_eq!(log.get_last_command_info().unwrap().started_at, "2025-01-01T00:00:00+00:00");
}

#[test]
fn process_slot_lifecycle() {
    let mut slot = ProcessSlot::new();
    slot.set_current_pid(Some(7));
    assert_eq!(slot.current(), Some(7));
    slot.clear_current_pid();
    assert_eq!(slot.current(), None);
}

#[test]
fn plain_run_results() {
    assert_eq!(plain_outcome(true, &b"out".to_vec(), &b"err".to_vec()), Ok("out".to_string()));
    assert_eq!(
        plain_outcome(false, &b"out".to_vec(), &b"err\xff".to_vec()),
        Err("Antumbra failed: err\u{FFFD}".to_string())
    );
    assert_eq!(version_text(&b" antumbra 1.4.0\n".to_vec()), "antumbra 1.4.0");
}

#[test]
fn one_operation_at_a_time() {
    let mut slot = ProcessSlot::new();
    assert!(slot.try_begin());
    slot.set_current_pid(Some(11));
    assert!(!slot.try_begin());
    assert_eq!(slot.current(), Some(11));
    assert_eq!(slot.take_for_cancel(), Some(11));
    assert!(!slot.try_begin());
    slot.end();
    assert_eq!(slot.current(), None);
    assert!(slot.try_begin());
}

#[test]
fn tasklist_rows_naming_the_tool() {
    let out = "\"antumbra.exe\",\"4242\",\"Console\"\r\n\"explorer.exe\",\"1\"\r\nantumbra.exe\r";
    assert_eq!(tasklist_pids(out), vec!["\"antumbra.exe\"".to_string(), "antumbra.exe\r".to_string()]);
    assert!(tasklist_pids("").is_empty());
}

#[test]
fn environment_advice() {
    let all_good = Findings {
        binary_found: true,
        config_write_error: None,
        running_processes: vec![],
        network_ok: true,
        binary_version_known: true,
        config_exists: true,
        config_version_missing: false,
    };
    assert!(recommendations(&all_good).is_empty());
    let bad = Findings {
        binary_found: false,
        config_write_error: Some("denied".to_string()),
        running_processes: vec!["1".to_string()],
        network_ok: false,
        binary_version_known: true,
        config_exists: true,
        config_version_missing: true,
    };
    let advice = recommendations(&bad);
    assert_eq!(advice.len(), 5);
    assert_eq!(advice[1], "Cannot write to config directory: denied. Check permissions.");
    assert!(advice[4].starts_with("Config version is null"));
}
