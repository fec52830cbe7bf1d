use mouse_configurator::channel::{
    handshake_step, recv_step, send_step, wait_step, HandshakeAction, RecvAction, RecvOutcome,
    SendAction, SysError, WaitAction,
};
use nix::sys::socket::{
    recvmsg, sendmsg, socketpair, AddressFamily, ControlMessage, ControlMessageOwned, MsgFlags,
    SockFlag, SockType, UnixAddr,
};
use std::io::{IoSlice, IoSliceMut};

#[test]
fn handle_channel_transfers_descriptor() {
    let (helper_sock, consumer_sock) = socketpair(
        AddressFamily::Unix,
        SockType::Datagram,
        None,
        SockFlag::empty(),
    )
    .unwrap();
    let (pipe_r, pipe_w) = nix::unistd::pipe().unwrap();

    // helper side: one datagram, path bytes plus the open descriptor
    let path_sent = b"/dev/hidraw9";
    let iov = [IoSlice::new(path_sent)];
    let send_fds = [pipe_r];
    let cmsgs = [ControlMessage::ScmRights(&send_fds)];
    sendmsg::<UnixAddr>(helper_sock, &iov, &cmsgs, MsgFlags::empty(), None).unwrap();

    // consumer side: receive it and reduce it to a RecvOutcome
    let mut buf = [0u8; 128];
    let mut space: Vec<u8> = Vec::with_capacity(128);
    let (nbytes, received_fds) = {
        let mut iov2 = [IoSliceMut::new(&mut buf)];
        let msg = recvmsg::<UnixAddr>(
            consumer_sock,
            &mut iov2,
            Some(&mut space),
            MsgFlags::empty(),
        )
        .unwrap();
        let mut fds: Vec<i32> = Vec::new();
        for c in msg.cmsgs() {
            if let ControlMessageOwned::ScmRights(f) = c {
                fds.extend_from_slice(&f);
            }
        }
        (msg.bytes, fds)
    };
    let path_received = buf[..nbytes].to_vec();
    assert_eq!(received_fds.len(), 1);

    // the library's decision: exactly one (path, handle) pair
    let action = recv_step(RecvOutcome::Message {
        path: path_received.clone(),
        fds: received_fds.clone(),
    });
    match action {
        RecvAction::Accept { path, fd } => {
            assert_eq!(path, path_sent.to_vec());
            assert_eq!(fd, received_fds[0]);
            // ownership is independent: closing the receiver's handle must
            // not affect the sender's original descriptor
            nix::unistd::close(fd).unwrap();
            nix::unistd::write(pipe_w, b"x").unwrap();
            let mut rb = [0u8; 1];
            let n = nix::unistd::read(pipe_r, &mut rb).unwrap();
            assert_eq!(n, 1);
            assert_eq!(&rb, b"x");
        }
        _ => panic!("expected the pair to be accepted"),
    }

    let _ = nix::unistd::close(pipe_r);
    let _ = nix::unistd::close(pipe_w);
    let _ = nix::unistd::close(helper_sock);
    let _ = nix::unistd::close(consumer_sock);
}

#[test]
fn recv_decisions() {
    assert!(matches!(
        recv_step(RecvOutcome::Message { path: vec![1], fds: vec![5, 6] }),
        RecvAction::Violation
    ));
    assert!(matches!(
        recv_step(RecvOutcome::Message { path: vec![1], fds: vec![] }),
        RecvAction::Violation
    ));
    assert!(matches!(recv_step(RecvOutcome::NoDescriptor), RecvAction::Retry));
    assert!(matches!(recv_step(RecvOutcome::Interrupted), RecvAction::Retry));
    assert!(matches!(recv_step(RecvOutcome::Failed(13)), RecvAction::Fail(13)));
}

#[test]
fn handshake_decisions() {
    assert_eq!(handshake_step(&Ok(8)), HandshakeAction::Proceed);
    assert_eq!(handshake_step(&Err(SysError::Interrupted)), HandshakeAction::Retry);
    assert_eq!(
        handshake_step(&Err(SysError::BrokenPipe)),
        HandshakeAction::FailChildExit
    );
    assert_eq!(handshake_step(&Err(SysError::Other(5))), HandshakeAction::Fail(5));
}

#[test]
fn send_decisions() {
    assert_eq!(send_step(&Ok(12)), SendAction::Sent);
    assert_eq!(send_step(&Err(SysError::Interrupted)), SendAction::Retry);
    assert_eq!(send_step(&Err(SysError::BrokenPipe)), SendAction::Stop);
    assert_eq!(send_step(&Err(SysError::Other(9))), SendAction::Skip);
}

#[test]
fn wait_decisions() {
    assert_eq!(wait_step(&Ok(0)), WaitAction::Again);
    assert_eq!(wait_step(&Ok(1)), WaitAction::Read);
    assert_eq!(wait_step(&Err(SysError::Interrupted)), WaitAction::Again);
    assert_eq!(wait_step(&Err(SysError::Other(22))), WaitAction::Fail);
}
