use sentinel::SentinelError;

#[test]
fn error_messages_render_by_variant() {
    assert_eq!(
        SentinelError::Transport("down".to_string()).message(),
        "transport error: down"
    );
    assert_eq!(
        SentinelError::StateStore("io".to_string()).message(),
        "state store error: io"
    );
    assert_eq!(SentinelError::Vm("boot".to_string()).message(), "vm error: boot");
    assert_eq!(SentinelError::Vsock("bad".to_string()).message(), "vsock error: bad");
    assert_eq!(SentinelError::Config("oops".to_string()).message(), "config error: oops");
    assert_eq!(
        SentinelError::ClaimFailed { task_id: "t1".to_string(), reason: "lost".to_string() }
            .message(),
        "claim failed for task t1: lost"
    );
    assert_eq!(
        SentinelError::Timeout("t2".to_string()).message(),
        "timeout: task t2 exceeded deadline"
    );
}
