use winget_automation::error::WingetError;
use winget_automation::process::command_output_text;
use winget_automation::process::CommandOutput;

#[test]
fn successful_output_is_text() {
    let out = CommandOutput { success: true, code: Some(0), stdout: b"hello\n".to_vec(), stderr: Vec::new() };
    assert_eq!(command_output_text(out).unwrap(), "hello\n");
    let out = CommandOutput { success: true, code: Some(0), stdout: "café".as_bytes().to_vec(), stderr: Vec::new() };
    assert_eq!(command_output_text(out).unwrap(), "café");
}

#[test]
fn failed_process_reports_code_and_trimmed_stderr() {
    let out = CommandOutput { success: false, code: Some(7), stdout: b"ignored".to_vec(), stderr: b"failure \n".to_vec() };
    match command_output_text(out) {
        Err(WingetError::CommandFailed { code: Some(7), stderr }) => assert_eq!(stderr, "failure"),
        other => panic!("unexpected {:?}", other),
    }
}

#[test]
fn failed_process_stderr_is_decoded_lossily() {
    let out = CommandOutput { success: false, code: None, stdout: Vec::new(), stderr: vec![b'x', 0xff, b'y'] };
    match command_output_text(out) {
        Err(WingetError::CommandFailed { code: None, stderr }) => assert_eq!(stderr, "x\u{FFFD}y"),
        other => panic!("unexpected {:?}", other),
    }
}

#[test]
fn invalid_utf8_output_is_an_error() {
    let out = CommandOutput { success: true, code: Some(0), stdout: vec![0xc3], stderr: Vec::new() };
    assert!(matches!(command_output_text(out), Err(WingetError::Utf8(_))));
}
