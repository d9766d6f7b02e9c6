use tradingview::listen::{ListenAction, ListenState, ReadEvent, StopReason, MAX_RETRIES};
use tradingview::session::{generate_session_id, websocket_url};

#[test]
fn ended_stream_backs_off_then_gives_up() {
    let mut s = ListenState::new();
    let mut waits = vec![];
    loop {
        match s.step(ReadEvent::Ended) {
            ListenAction::Wait(secs) => waits.push(secs),
            ListenAction::Stop(r) => {
                assert_eq!(r, StopReason::RetriesExhausted);
                break;
            }
            ListenAction::Continue => panic!("an ended stream is never read again at once"),
        }
    }
    assert_eq!(waits, vec![1, 2, 4, 8, 16]);
    assert_eq!(waits.iter().sum::<u64>(), 31);
    assert_eq!(s.retry_attempts(), MAX_RETRIES);
}

#[test]
fn handled_text_resets_the_count() {
    let mut s = ListenState::new();
    assert_eq!(s.step(ReadEvent::Ended), ListenAction::Wait(1));
    assert_eq!(s.step(ReadEvent::Ended), ListenAction::Wait(2));
    assert_eq!(s.step(ReadEvent::Unhandled), ListenAction::Continue);
    assert_eq!(s.retry_attempts(), 2);
    assert_eq!(s.step(ReadEvent::Text(true)), ListenAction::Continue);
    assert_eq!(s.retry_attempts(), 0);
    assert_eq!(s.step(ReadEvent::Ended), ListenAction::Wait(1));
}

#[test]
fn failures_stop_the_loop() {
    let mut s = ListenState::new();
    assert_eq!(s.step(ReadEvent::Text(false)), ListenAction::Stop(StopReason::PackageFailed));
    assert_eq!(s.step(ReadEvent::Closed), ListenAction::Stop(StopReason::ClosedByServer));
    assert_eq!(s.step(ReadEvent::ReadFailed), ListenAction::Stop(StopReason::ReadError));
    assert_eq!(StopReason::ClosedByServer.message(), "WebSocket connection closed by server");
    assert_eq!(StopReason::ReadError.message(), "Error reading WebSocket message");
    assert_eq!(
        StopReason::RetriesExhausted.message(),
        "Max retry attempts reached. Giving up on reconnecting."
    );
}

#[test]
fn session_ids_have_their_shape() {
    let alphabet = "ABCDEFGHIJKLMNOPQRSTUVWXYZabcdefghijklmnopqrstuvwxyz0123456789";
    let a = generate_session_id("xs");
    let b = generate_session_id("xs");
    for id in [&a, &b] {
        assert_eq!(id.len(), 15);
        assert!(id.starts_with("xs_"));
        assert!(id[3..].chars().all(|c| alphabet.contains(c)));
    }
    assert_ne!(a, b);
    let c = generate_session_id("");
    assert_eq!(c.len(), 13);
    assert!(c.starts_with('_'));
}

#[test]
fn websocket_hosts() {
    assert_eq!(websocket_url(true), "wss://prodata.tradingview.com/socket.io/websocket?type=chart");
    assert_eq!(websocket_url(false), "wss://data.tradingview.com/socket.io/websocket?type=chart");
}
