use rika::rpc::{RemoteFailure, RpcError, RpcErrorMapper};

#[test]
fn success_passes_through_unchanged() {
    let out: Result<u32, RpcError> = RpcErrorMapper::map(Ok(7u32));
    assert!(matches!(out, Ok(7)));
}

#[test]
fn remote_rejection_keeps_code_and_message() {
    let failure = RemoteFailure::Rejection {
        code: 21,
        message: "Block not found".to_owned(),
    };
    let out: Result<u32, RpcError> = RpcErrorMapper::map(Err(failure));
    match out {
        Err(RpcError::Remote { code, message }) => {
            assert_eq!(code, 21);
            assert_eq!(message, "Block not found");
        }
        other => panic!("expected a remote error, got {:?}", other),
    }
}

#[test]
fn transport_failure_never_becomes_remote() {
    let failure = RemoteFailure::Failure {
        description: "connection refused".to_owned(),
    };
    let out: Result<u32, RpcError> = RpcErrorMapper::map(Err(failure));
    match out {
        Err(RpcError::Transport { description }) => {
            assert_eq!(description, "connection refused");
        }
        other => panic!("expected a transport error, got {:?}", other),
    }
}
