use reverse_proxy::shutdown::{ServerAction, ServerEvent, ServerPhase};

#[test]
fn server_ends_gracefully() {
    let mut phase = ServerPhase::Accepting;
    assert_eq!(phase.advance(ServerEvent::Connected), ServerAction::Serve);
    assert_eq!(phase.advance(ServerEvent::Connected), ServerAction::Serve);
    assert_eq!(phase.advance(ServerEvent::Signalled), ServerAction::Drain { seconds: 30 });
    assert_eq!(phase, ServerPhase::Draining);
    assert_eq!(phase.advance(ServerEvent::Ended), ServerAction::StopTasks { seconds: 5 });
    assert_eq!(phase, ServerPhase::Stopping);
    assert_eq!(phase.advance(ServerEvent::Ended), ServerAction::Exit);
    assert_eq!(phase, ServerPhase::Stopped);
}

#[test]
fn timeouts_force_the_end() {
    let mut phase = ServerPhase::Accepting;
    assert_eq!(phase.advance(ServerEvent::Signalled), ServerAction::Drain { seconds: 30 });
    assert_eq!(phase.advance(ServerEvent::TimedOut), ServerAction::StopTasks { seconds: 5 });
    assert_eq!(phase.advance(ServerEvent::TimedOut), ServerAction::Exit);
    assert_eq!(phase, ServerPhase::Stopped);
}
