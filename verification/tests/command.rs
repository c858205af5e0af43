use manahg::command::{
    copy_reply, launch_failure, reply_from_output, reply_from_text, single, HgError, Invocation,
    Reply, Step,
};

#[test]
fn a_successful_exit_gives_the_trimmed_standard_output() {
    assert_eq!(reply_from_text(true, "  default \n", "ignored"), Ok("default".to_string()));
    assert_eq!(reply_from_text(true, "", "warning: x\n"), Ok(String::new()));
    assert_eq!(reply_from_text(true, "M a.txt\nM b.txt\n", ""), Ok("M a.txt\nM b.txt".to_string()));
}

#[test]
fn a_failed_exit_gives_the_trimmed_standard_error() {
    assert_eq!(
        reply_from_text(false, "partial output", "  abort: no repository\n"),
        Err(HgError::CommandFailed("abort: no repository".to_string()))
    );
    assert_eq!(reply_from_text(false, "x", ""), Err(HgError::CommandFailed(String::new())));
}

#[test]
fn raw_streams_are_decoded_before_they_are_trimmed() {
    assert_eq!(reply_from_output(true, b"default\n", b""), Ok("default".to_string()));
    assert_eq!(
        reply_from_output(false, b"", b"abort: pull failed\r\n"),
        Err(HgError::CommandFailed("abort: pull failed".to_string()))
    );
    assert_eq!(
        reply_from_output(true, "  caf\u{e9} ".as_bytes(), b""),
        Ok("caf\u{e9}".to_string())
    );
}

#[test]
fn bytes_that_are_not_text_become_replacement_characters() {
    assert_eq!(reply_from_output(true, &[0x66, 0xff, 0x6f], b""), Ok("f\u{fffd}o".to_string()));
    assert_eq!(
        reply_from_output(false, b"", &[0x20, 0xc3, 0x28, 0x0a]),
        Err(HgError::CommandFailed("\u{fffd}(".to_string()))
    );
}

#[test]
fn a_client_that_did_not_start_is_a_failed_command() {
    assert_eq!(
        launch_failure(),
        Err(HgError::CommandFailed("Failed to execute hg command".to_string()))
    );
}

#[test]
fn the_message_of_an_error_is_its_text() {
    assert_eq!(HgError::CommandFailed("abort: x".to_string()).message(), "abort: x");
    assert_eq!(HgError::PreconditionUnmet("Unknown branch".to_string()).message(), "Unknown branch");
}

#[test]
fn a_single_command_is_asked_for_once_and_then_answered() {
    let inv = Invocation::hg("/srv/r1", vec!["pull".to_string()]);
    assert_eq!(inv.program, "hg");
    assert_eq!(inv.dir, "/srv/r1");
    assert_eq!(inv.args, vec!["pull".to_string()]);

    let none: Vec<Reply> = Vec::new();
    assert_eq!(single(inv.clone(), &none), Step::Run(inv.clone()));

    let one: Vec<Reply> = vec![Ok("pulled".to_string())];
    assert_eq!(single(inv.clone(), &one), Step::Done(Ok("pulled".to_string())));

    let two: Vec<Reply> =
        vec![Err(HgError::CommandFailed("abort".to_string())), Ok("later".to_string())];
    assert_eq!(single(inv, &two), Step::Done(Err(HgError::CommandFailed("abort".to_string()))));
}

#[test]
fn copies_are_equal_to_what_they_copy() {
    let ok: Reply = Ok("text".to_string());
    let failed: Reply = Err(HgError::PreconditionUnmet("why".to_string()));
    assert_eq!(copy_reply(&ok), ok);
    assert_eq!(copy_reply(&failed), failed);
    let e = HgError::CommandFailed("abort".to_string());
    assert_eq!(e.clone(), e);
}
