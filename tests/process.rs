use transmission_controller::process::{command_line, command_result, CommandOutcome};

fn s(text: &str) -> String {
    text.to_string()
}

#[test]
fn test_run_command() {
    let args = vec![s("aaa"), s("bbb\nccc")];
    assert_eq!(command_line("echo", &args), "echo aaa bbb\nccc");
    let outcome = CommandOutcome::Exited { success: true, stdout: Ok(s("aaa bbb\nccc\n")), stderr: Ok(s("")) };
    assert_eq!(command_result("echo", &args, outcome).unwrap(), "aaa bbb\nccc\n");
}

#[test]
fn test_run_command_failed() {
    let args = vec![s("-c"), s("echo stdout-message && echo stderr-message >&2 && false")];
    let outcome = CommandOutcome::Exited {
        success: false,
        stdout: Ok(s("stdout-message\n")),
        stderr: Ok(s("stderr-message\n")),
    };
    assert_eq!(
        command_result("sh", &args, outcome).unwrap_err().to_string(),
        "`sh -c echo stdout-message && echo stderr-message >&2 && false` failed with error: stderr-message"
    );
}

#[test]
fn test_run_command_invalid() {
    let outcome = CommandOutcome::NotStarted(s("No such file or directory (os error 2)"));
    assert_eq!(
        command_result("some-invalid-command", &vec![], outcome).unwrap_err().to_string(),
        "Failed to execute `some-invalid-command`: No such file or directory (os error 2)"
    );
}

#[test]
fn unreadable_output() {
    let outcome = CommandOutcome::Exited { success: true, stdout: Err(s("invalid utf-8")), stderr: Ok(s("")) };
    assert_eq!(
        command_result("df", &vec![s("/x/")], outcome),
        Err(s("Error during reading `df /x/` output: invalid utf-8"))
    );
    let outcome = CommandOutcome::Exited { success: false, stdout: Ok(s("")), stderr: Ok(s("  \n first\nsecond\n")) };
    assert_eq!(command_result("df", &vec![], outcome), Err(s("`df` failed with error: first")));
}
