use ws_load::frame::{CloseReason, Effect, Failure, Frame};
use ws_load::server::{
    HeartbeatConfig, MyWebSocket, SessionState, CLIENT_TIMEOUT, HEARTBEAT_INTERVAL,
};

const SECOND: u64 = 1_000_000_000;

fn bye() -> CloseReason {
    CloseReason { code: 1000, description: Some(String::from("bye")) }
}

#[test]
fn heartbeat_constants_are_thirty_and_sixty_seconds() {
    assert_eq!(HEARTBEAT_INTERVAL, 30 * SECOND);
    assert_eq!(CLIENT_TIMEOUT, 60 * SECOND);
    let config = HeartbeatConfig::default();
    assert_eq!(config.interval, 30_000_000_000);
    assert_eq!(config.timeout, 60_000_000_000);
}

#[test]
fn new_session_is_active_with_heartbeat_at_creation() {
    let session = MyWebSocket::new(17);
    assert_eq!(session.state(), SessionState::Active);
    assert_eq!(session.last_heartbeat(), 17);
    assert_eq!(session.config(), HeartbeatConfig::default());
}

#[test]
fn with_config_keeps_the_given_periods() {
    let config = HeartbeatConfig { interval: 3, timeout: 9 };
    let mut session = MyWebSocket::with_config(100, config);
    assert_eq!(session.config(), config);
    assert_eq!(session.started(), vec![Effect::StartHeartbeat(3)]);
    assert_eq!(session.hb(109), vec![Effect::Send(Frame::Ping(vec![]))]);
    assert_eq!(
        session.hb(110),
        vec![Effect::Report(Failure::LivenessTimeout), Effect::Release]
    );
}

#[test]
fn started_asks_for_the_heartbeat_check() {
    let session = MyWebSocket::new(0);
    assert_eq!(session.started(), vec![Effect::StartHeartbeat(30 * SECOND)]);
}

#[test]
fn started_on_a_closed_session_asks_for_nothing() {
    let mut session = MyWebSocket::new(0);
    session.finished();
    assert_eq!(session.started(), vec![]);
}

#[test]
fn ping_is_answered_with_pong_of_same_payload() {
    let mut session = MyWebSocket::new(0);
    let effects = session.handle(Frame::Ping(vec![1, 2, 3]), 5 * SECOND);
    assert_eq!(effects, vec![Effect::Send(Frame::Pong(vec![1, 2, 3]))]);
    assert_eq!(session.state(), SessionState::Active);
    assert_eq!(session.last_heartbeat(), 5 * SECOND);
}

#[test]
fn ping_with_empty_payload_is_answered_with_empty_pong() {
    let mut session = MyWebSocket::new(0);
    let effects = session.handle(Frame::Ping(vec![]), 1);
    assert_eq!(effects, vec![Effect::Send(Frame::Pong(vec![]))]);
}

#[test]
fn pong_updates_heartbeat_and_sends_nothing() {
    let mut session = MyWebSocket::new(0);
    let effects = session.handle(Frame::Pong(vec![9]), 42 * SECOND);
    assert_eq!(effects, vec![]);
    assert_eq!(session.last_heartbeat(), 42 * SECOND);
    assert_eq!(session.state(), SessionState::Active);
}

#[test]
fn text_is_echoed_and_is_no_liveness_evidence() {
    let mut session = MyWebSocket::new(7);
    let effects = session.handle(Frame::Text(String::from("hello")), 50 * SECOND);
    assert_eq!(effects, vec![Effect::Send(Frame::Text(String::from("hello")))]);
    assert_eq!(session.last_heartbeat(), 7);
    assert_eq!(session.state(), SessionState::Active);
}

#[test]
fn binary_is_echoed_and_is_no_liveness_evidence() {
    let mut session = MyWebSocket::new(7);
    let effects = session.handle(Frame::Binary(vec![0, 255, 128]), 50 * SECOND);
    assert_eq!(effects, vec![Effect::Send(Frame::Binary(vec![0, 255, 128]))]);
    assert_eq!(session.last_heartbeat(), 7);
}

#[test]
fn data_frames_are_echoed_in_send_order() {
    let mut session = MyWebSocket::new(0);
    let sent = vec![
        Frame::Text(String::from("a")),
        Frame::Binary(vec![1]),
        Frame::Text(String::from("")),
        Frame::Binary(vec![]),
        Frame::Text(String::from("b")),
    ];
    let mut received = Vec::new();
    for (at, frame) in sent.iter().enumerate() {
        for effect in session.handle(frame.clone(), at as u64) {
            match effect {
                Effect::Send(back) => received.push(back),
                other => panic!("unexpected effect {:?}", other),
            }
        }
    }
    assert_eq!(received, sent);
    assert_eq!(session.state(), SessionState::Active);
}

#[test]
fn echo_is_kept_in_order_between_heartbeats() {
    let mut session = MyWebSocket::new(0);
    let mut echoed = Vec::new();
    let inbound = vec![
        Frame::Text(String::from("one")),
        Frame::Ping(vec![7]),
        Frame::Binary(vec![2]),
        Frame::Pong(vec![]),
        Frame::Text(String::from("three")),
    ];
    for frame in inbound {
        for effect in session.handle(frame, 1) {
            match effect {
                Effect::Send(Frame::Text(text)) => echoed.push(Frame::Text(text)),
                Effect::Send(Frame::Binary(bytes)) => echoed.push(Frame::Binary(bytes)),
                _ => {}
            }
        }
    }
    assert_eq!(
        echoed,
        vec![
            Frame::Text(String::from("one")),
            Frame::Binary(vec![2]),
            Frame::Text(String::from("three")),
        ]
    );
}

#[test]
fn close_is_acknowledged_with_same_reason_and_channel_released() {
    let mut session = MyWebSocket::new(0);
    let effects = session.handle(Frame::Close(Some(bye())), 1);
    assert_eq!(effects, vec![Effect::Send(Frame::Close(Some(bye()))), Effect::Release]);
    assert_eq!(session.state(), SessionState::Closed);
    assert_eq!(session.last_heartbeat(), 0);
}

#[test]
fn frame_after_close_is_not_processed() {
    let mut session = MyWebSocket::new(0);
    session.handle(Frame::Close(Some(bye())), 1);
    assert_eq!(session.handle(Frame::Text(String::from("late")), 2), vec![]);
    assert_eq!(session.handle(Frame::Ping(vec![1]), 3), vec![]);
    assert_eq!(session.handle(Frame::Close(Some(bye())), 4), vec![]);
    assert_eq!(session.handle(Frame::Error(String::from("reset")), 5), vec![]);
    assert_eq!(session.hb(1000 * SECOND), vec![]);
    assert_eq!(session.state(), SessionState::Closed);
    assert_eq!(session.last_heartbeat(), 0);
    assert_eq!(session.finished(), vec![]);
    assert_eq!(session.state(), SessionState::Closed);
}

#[test]
fn close_without_reason_is_acknowledged_without_reason() {
    let mut session = MyWebSocket::new(0);
    let effects = session.handle(Frame::Close(None), 1);
    assert_eq!(effects, vec![Effect::Send(Frame::Close(None)), Effect::Release]);
    assert_eq!(session.state(), SessionState::Closed);
}

#[test]
fn only_heartbeats_and_data_keep_a_session_active() {
    let kept = vec![
        Frame::Ping(vec![1]),
        Frame::Pong(vec![2]),
        Frame::Text(String::from("t")),
        Frame::Binary(vec![3]),
    ];
    for frame in kept {
        let mut session = MyWebSocket::new(0);
        session.handle(frame, 1);
        assert_eq!(session.state(), SessionState::Active);
    }
    let ended = vec![
        Frame::Close(None),
        Frame::Close(Some(bye())),
        Frame::Error(String::from("reset")),
        Frame::Other,
    ];
    for frame in ended {
        let mut session = MyWebSocket::new(0);
        let effects = session.handle(frame, 1);
        assert_eq!(session.state(), SessionState::Closed);
        assert_eq!(effects.last(), Some(&Effect::Release));
        let releases = effects.iter().filter(|effect| **effect == Effect::Release).count();
        assert_eq!(releases, 1);
    }
}

#[test]
fn transport_error_closes_without_further_traffic() {
    let mut session = MyWebSocket::new(0);
    let effects = session.handle(Frame::Error(String::from("connection reset")), 1);
    assert_eq!(
        effects,
        vec![
            Effect::Report(Failure::Protocol(String::from("connection reset"))),
            Effect::Release,
        ]
    );
    assert_eq!(session.state(), SessionState::Closed);
}

#[test]
fn unknown_frame_closes_the_session() {
    let mut session = MyWebSocket::new(0);
    let effects = session.handle(Frame::Other, 1);
    assert_eq!(effects, vec![Effect::Release]);
    assert_eq!(session.state(), SessionState::Closed);
}

#[test]
fn heartbeat_check_within_timeout_sends_empty_ping() {
    let mut session = MyWebSocket::new(0);
    assert_eq!(session.hb(30 * SECOND), vec![Effect::Send(Frame::Ping(vec![]))]);
    assert_eq!(session.state(), SessionState::Active);
    assert_eq!(session.last_heartbeat(), 0);
}

#[test]
fn heartbeat_check_at_exactly_the_timeout_still_pings() {
    let mut session = MyWebSocket::new(5);
    assert_eq!(session.hb(5 + 60 * SECOND), vec![Effect::Send(Frame::Ping(vec![]))]);
    assert_eq!(session.state(), SessionState::Active);
}

#[test]
fn heartbeat_check_past_the_timeout_closes_without_ping() {
    let mut session = MyWebSocket::new(5);
    let effects = session.hb(5 + 60 * SECOND + 1);
    assert_eq!(effects, vec![Effect::Report(Failure::LivenessTimeout), Effect::Release]);
    assert_eq!(session.state(), SessionState::Closed);
}

#[test]
fn heartbeat_check_before_the_last_evidence_counts_no_time() {
    let mut session = MyWebSocket::new(100 * SECOND);
    assert_eq!(session.hb(0), vec![Effect::Send(Frame::Ping(vec![]))]);
    assert_eq!(session.state(), SessionState::Active);
}

#[test]
fn heartbeat_check_at_the_end_of_time_does_not_overflow() {
    let mut session = MyWebSocket::new(0);
    let effects = session.hb(u64::MAX);
    assert_eq!(effects, vec![Effect::Report(Failure::LivenessTimeout), Effect::Release]);
}

#[test]
fn session_with_regular_pongs_never_times_out() {
    let mut session = MyWebSocket::new(0);
    let mut now = 0;
    for _ in 0..100 {
        now += 30 * SECOND;
        assert_eq!(session.hb(now), vec![Effect::Send(Frame::Ping(vec![]))]);
        assert_eq!(session.handle(Frame::Pong(vec![]), now + SECOND), vec![]);
    }
    assert_eq!(session.state(), SessionState::Active);
    assert_eq!(session.last_heartbeat(), now + SECOND);
}

#[test]
fn silent_peer_is_dropped_at_the_third_check() {
    let mut session = MyWebSocket::new(0);
    assert_eq!(session.hb(30 * SECOND), vec![Effect::Send(Frame::Ping(vec![]))]);
    assert_eq!(session.hb(60 * SECOND), vec![Effect::Send(Frame::Ping(vec![]))]);
    assert_eq!(
        session.hb(90 * SECOND),
        vec![Effect::Report(Failure::LivenessTimeout), Effect::Release]
    );
    assert_eq!(session.state(), SessionState::Closed);
}

#[test]
fn data_does_not_keep_a_silent_peer_alive() {
    let mut session = MyWebSocket::new(0);
    session.handle(Frame::Text(String::from("still here")), 59 * SECOND);
    session.handle(Frame::Binary(vec![1]), 60 * SECOND);
    assert_eq!(
        session.hb(61 * SECOND),
        vec![Effect::Report(Failure::LivenessTimeout), Effect::Release]
    );
}

#[test]
fn ping_keeps_the_peer_alive() {
    let mut session = MyWebSocket::new(0);
    session.handle(Frame::Ping(vec![]), 59 * SECOND);
    assert_eq!(session.hb(61 * SECOND), vec![Effect::Send(Frame::Ping(vec![]))]);
    assert_eq!(session.hb(119 * SECOND), vec![Effect::Send(Frame::Ping(vec![]))]);
    assert_eq!(
        session.hb(119 * SECOND + 1),
        vec![Effect::Report(Failure::LivenessTimeout), Effect::Release]
    );
}

#[test]
fn closed_session_is_inert() {
    let mut session = MyWebSocket::new(0);
    session.handle(Frame::Error(String::from("gone")), 1);
    assert_eq!(session.handle(Frame::Ping(vec![1]), 2), vec![]);
    assert_eq!(session.handle(Frame::Error(String::from("again")), 3), vec![]);
    assert_eq!(session.handle(Frame::Close(None), 4), vec![]);
    assert_eq!(session.hb(1000 * SECOND), vec![]);
    assert_eq!(session.finished(), vec![]);
    assert_eq!(session.state(), SessionState::Closed);
    assert_eq!(session.last_heartbeat(), 0);
}

#[test]
fn end_of_stream_releases_an_active_session_once() {
    let mut session = MyWebSocket::new(0);
    assert_eq!(session.finished(), vec![Effect::Release]);
    assert_eq!(session.state(), SessionState::Closed);
    assert_eq!(session.finished(), vec![]);
    assert_eq!(session.state(), SessionState::Closed);
}

#[test]
fn channel_is_released_exactly_once_over_a_life() {
    let mut session = MyWebSocket::new(0);
    let mut effects = Vec::new();
    effects.extend(session.started());
    effects.extend(session.handle(Frame::Text(String::from("x")), 1));
    effects.extend(session.hb(2));
    effects.extend(session.handle(Frame::Close(None), 3));
    effects.extend(session.handle(Frame::Error(String::from("late")), 4));
    effects.extend(session.hb(500 * SECOND));
    effects.extend(session.finished());
    effects.extend(session.finished());
    let releases = effects.iter().filter(|effect| **effect == Effect::Release).count();
    assert_eq!(releases, 1);
    assert_eq!(effects.last(), Some(&Effect::Release));
}
