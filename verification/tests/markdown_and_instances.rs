use robin_lib::audio::{level_due, level_interval, microphone_not_found, wants_default_device, MicDevice};
use robin_lib::markitdown::{
    conversion_input, conversion_outcome, convert_args, interpreter_candidates,
    missing_interpreter_message, outcome_from_text, probe_args, timeout_message,
    CONVERT_TIMEOUT_SECS,
};
use robin_lib::single_instance::{
    instance_image_names, legacy_autostart_reg_args, legacy_startup_files, startup_dir,
    taskkill_args,
};

#[test]
fn conversion_input_is_trimmed_and_required() {
    assert_eq!(conversion_input("  https://x.y  "), Ok("https://x.y".to_string()));
    assert_eq!(conversion_input(" \n "), Err("No file or URL provided.".to_string()));
}

#[test]
fn conversion_outcome_reports_output_or_error() {
    assert_eq!(conversion_outcome(true, b"# Title\n", b"ignored"), Ok("# Title\n".to_string()));
    assert_eq!(
        conversion_outcome(false, b"", b"  boom \n"),
        Err("boom".to_string())
    );
    assert_eq!(
        conversion_outcome(false, b"x", b" \n"),
        Err("MarkItDown failed with no error output.".to_string())
    );
    assert_eq!(conversion_outcome(true, b"a\xffb", b""), Ok("a\u{fffd}b".to_string()));
    assert_eq!(outcome_from_text(true, "out".to_string(), "err"), Ok("out".to_string()));
    assert_eq!(outcome_from_text(false, "out".to_string(), " err "), Err("err".to_string()));
    assert_eq!(
        outcome_from_text(false, String::new(), "\t"),
        Err("MarkItDown failed with no error output.".to_string())
    );
}

#[test]
fn interpreter_candidates_in_priority_order() {
    let with_dir = interpreter_candidates(Some("/home/u/.local/share"));
    assert_eq!(with_dir.len(), 3);
    assert_eq!(with_dir[0].program, "py");
    assert_eq!(with_dir[0].leading_args, vec!["-3.13".to_string()]);
    assert_eq!(
        std::path::PathBuf::from(&with_dir[1].program),
        std::path::Path::new("/home/u/.local/share")
            .join("Microsoft")
            .join("WindowsApps")
            .join("PythonSoftwareFoundation.Python.3.13_qbz5n2kfra8p0")
            .join("python.exe")
    );
    assert_eq!(with_dir[2].program, "python");
    let without = interpreter_candidates(None);
    assert_eq!(without.len(), 2);
    assert_eq!(without[1].program, "python");
}

#[test]
fn command_lines_for_probe_and_convert() {
    let c = &interpreter_candidates(None)[0];
    assert_eq!(probe_args(c), vec!["-3.13", "-c", "import markitdown"]);
    assert_eq!(convert_args(c, "doc.pdf"), vec!["-3.13", "-m", "markitdown", "doc.pdf"]);
    assert_eq!(CONVERT_TIMEOUT_SECS, 120);
    assert_eq!(timeout_message(), "Conversion timed out after 120s.");
    assert!(missing_interpreter_message().starts_with("Could not find a Python interpreter"));
}

#[test]
fn instance_cleanup_commands() {
    assert_eq!(instance_image_names(Some("app.exe")), vec!["app.exe", "typr.exe"]);
    assert_eq!(instance_image_names(None), vec!["robin.exe", "typr.exe"]);
    assert_eq!(
        taskkill_args("robin.exe", 4321),
        vec!["/F", "/IM", "robin.exe", "/FI", "PID ne 4321"]
    );
    assert_eq!(taskkill_args("a", 0)[4], "PID ne 0");
    let reg = legacy_autostart_reg_args();
    assert_eq!(reg.len(), 4);
    assert_eq!(
        reg[3],
        vec![
            "delete",
            r"HKCU\Software\Microsoft\Windows\CurrentVersion\Run",
            "/v",
            "com.typr.app",
            "/f"
        ]
    );
    let dir = startup_dir("/appdata");
    assert_eq!(
        std::path::PathBuf::from(&dir),
        std::path::Path::new("/appdata/Microsoft/Windows/Start Menu/Programs/Startup")
    );
    let files = legacy_startup_files(&dir);
    assert_eq!(std::path::PathBuf::from(&files[2]), std::path::Path::new(&dir).join("launch-typr.bat"));
}

#[test]
fn microphone_helpers() {
    let d = MicDevice::new("USB Mic".to_string(), "USB Mic");
    assert!(d.is_default);
    assert!(!MicDevice::new("Other".to_string(), "USB Mic").is_default);
    assert!(wants_default_device("default"));
    assert!(!wants_default_device("Default"));
    assert_eq!(microphone_not_found("X"), "Microphone 'X' not found");
    assert_eq!(level_interval(48_000), 4_800);
    assert!(level_due(4_800, 20, 4_800));
    assert!(level_due(4_810, 20, 4_800));
    assert!(!level_due(4_790, 20, 4_800));
}

#[test]
fn process_ids_are_written_in_decimal() {
    assert_eq!(taskkill_args("x.exe", 7)[4], "PID ne 7");
    assert_eq!(taskkill_args("x.exe", 10)[4], "PID ne 10");
    assert_eq!(taskkill_args("x.exe", u32::MAX)[4], "PID ne 4294967295");
}

#[test]
fn joining_puts_one_separator_after_the_directory() {
    let files = legacy_startup_files("/start");
    assert_eq!(files[0], format!("/start{}Typr.lnk", std::path::MAIN_SEPARATOR));
    let files = legacy_startup_files("/start/");
    assert_eq!(files[1], "/start/typr.lnk");
    let files = legacy_startup_files("");
    assert_eq!(files[2], "launch-typr.bat");
}
