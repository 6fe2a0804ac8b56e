use pie::runner::{capture, shell, Ending, RunError};

#[test]
fn scripts_end_with_success_or_an_error() {
    assert!(shell(
        "/w",
        Ending::Ended {
            success: true,
            code: Some(0)
        }
    )
    .is_ok());
    let error = shell(
        "/w",
        Ending::Ended {
            success: false,
            code: Some(-3),
        },
    )
    .unwrap_err();
    assert_eq!(error.message(), "command exited with status -3");
    let error = shell(
        "/w",
        Ending::Ended {
            success: false,
            code: Some(i32::MIN),
        },
    )
    .unwrap_err();
    assert_eq!(error.message(), "command exited with status -2147483648");
    assert_eq!(
        shell("/w", Ending::NoDirectory).unwrap_err().message(),
        "working directory /w does not exist"
    );
}

#[test]
fn captured_output_is_trimmed() {
    assert_eq!(capture(true, b" 1000 \n", b"").unwrap(), "1000");
    let error = capture(false, b"out", b"\n bad\xff \n").unwrap_err();
    assert_eq!(error.message(), "command failed: bad\u{fffd}");
    assert!(matches!(error, RunError::Failed { .. }));
}
