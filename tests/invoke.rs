use cpprs::error::PpError;
use cpprs::invoke::{settle_cpphs, settle_run, RunOutcome};

fn text(ls: &[&str]) -> String {
    ls.iter().map(|l| format!("{}\n", l)).collect()
}

#[test]
fn missing_executable_is_a_launch_error() {
    let run = RunOutcome::NotStarted { reason: "No such file or directory".to_string() };
    match settle_run("a.x", run) {
        Err(PpError::LaunchError { path, reason }) => {
            assert_eq!(path, "a.x");
            assert_eq!(reason, "No such file or directory");
        }
        _ => panic!("expected LaunchError"),
    }
}

#[test]
fn failed_run_is_a_failure_with_diagnostics() {
    let run = RunOutcome::Finished {
        success: false,
        stdout: Some(text(&["# 1 \"a.x\"", "int x;"])),
        stderr: "a.x:1: error".to_string(),
    };
    match settle_run("a.x", run) {
        Err(PpError::Failure { path, diagnostics }) => {
            assert_eq!(path, "a.x");
            assert_eq!(diagnostics, "a.x:1: error");
        }
        _ => panic!("expected Failure"),
    }
}

#[test]
fn output_that_is_not_text_is_a_failure() {
    let run = RunOutcome::Finished { success: true, stdout: None, stderr: String::new() };
    assert!(matches!(settle_run("a.x", run), Err(PpError::Failure { .. })));
}

#[test]
fn successful_run_gives_the_text() {
    let run = RunOutcome::Finished {
        success: true,
        stdout: Some(text(&["# 1 \"a.x\"", "int x;", "# 1 \"b.h\"", "int y;"])),
        stderr: String::new(),
    };
    match settle_run("a.x", run) {
        Ok(s) => assert_eq!(s, "int x;\n"),
        Err(_) => panic!("expected text"),
    }
}

#[test]
fn successful_run_without_target_has_no_span() {
    let run = RunOutcome::Finished {
        success: true,
        stdout: Some(text(&["# 1 \"b.h\"", "int y;"])),
        stderr: String::new(),
    };
    match settle_run("a.x", run) {
        Err(e) => {
            assert_eq!(e.path(), "a.x");
            assert!(matches!(e, PpError::NoMatchingSpan { .. }));
        }
        Ok(_) => panic!("expected NoMatchingSpan"),
    }
}

#[test]
fn every_error_names_its_file() {
    let p = "f.cpprs".to_string();
    assert_eq!(PpError::PathMapping { path: p.clone() }.path(), "f.cpprs");
    assert_eq!(
        PpError::LaunchError { path: p.clone(), reason: String::new() }.path(),
        "f.cpprs"
    );
    assert_eq!(
        PpError::Failure { path: p.clone(), diagnostics: String::new() }.path(),
        "f.cpprs"
    );
    assert_eq!(PpError::NoMatchingSpan { path: p }.path(), "f.cpprs");
}

#[test]
fn crlf_output_is_split_into_lines() {
    let run = RunOutcome::Finished {
        success: true,
        stdout: Some("# 1 \"a.x\"\r\nint x;\r\nint y;\r".to_string()),
        stderr: String::new(),
    };
    match settle_run("a.x", run) {
        Ok(s) => assert_eq!(s, "int x;\nint y;\r\n"),
        Err(_) => panic!("expected text"),
    }
}

#[test]
fn output_without_final_newline_keeps_its_last_line() {
    let run = RunOutcome::Finished {
        success: true,
        stdout: Some("# 1 \"a.x\"\n\nint x;".to_string()),
        stderr: String::new(),
    };
    match settle_run("a.x", run) {
        Ok(s) => assert_eq!(s, "\nint x;\n"),
        Err(_) => panic!("expected text"),
    }
}

#[test]
fn cpphs_outcomes() {
    let run = RunOutcome::NotStarted { reason: "not found".to_string() };
    assert!(matches!(settle_cpphs("a.cpprs", run), Err(PpError::LaunchError { .. })));
    let run = RunOutcome::Finished { success: false, stdout: None, stderr: "bad".to_string() };
    match settle_cpphs("a.cpprs", run) {
        Err(PpError::Failure { path, diagnostics }) => {
            assert_eq!(path, "a.cpprs");
            assert_eq!(diagnostics, "bad");
        }
        _ => panic!("expected Failure"),
    }
    let run = RunOutcome::Finished { success: true, stdout: None, stderr: String::new() };
    assert!(settle_cpphs("a.cpprs", run).is_ok());
}
