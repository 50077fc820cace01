use ws_load::client::{ClientState, Disconnect, WsClient};
use ws_load::frame::{CloseReason, Effect, Failure, Frame};

fn open_client() -> WsClient {
    let mut client = WsClient::new();
    assert_eq!(client.connected(Ok(())), vec![]);
    client
}

#[test]
fn new_client_is_connecting() {
    let client = WsClient::new();
    assert_eq!(client.state(), ClientState::Connecting);
}

#[test]
fn successful_connect_opens_the_connection() {
    let mut client = WsClient::new();
    assert_eq!(client.connected(Ok(())), vec![]);
    assert_eq!(client.state(), ClientState::Open);
}

#[test]
fn failed_connect_reports_the_cause_and_never_opens() {
    let mut client = WsClient::new();
    let effects = client.connected(Err(String::from("connection refused")));
    assert_eq!(
        effects,
        vec![Effect::Report(Failure::ConnectionEstablishment(String::from(
            "connection refused"
        )))]
    );
    assert_eq!(client.state(), ClientState::Closed);
    assert_eq!(client.connected(Ok(())), vec![]);
    assert_eq!(client.state(), ClientState::Closed);
    assert_eq!(client.disconnect(Disconnect), vec![]);
    assert_eq!(client.handle(Frame::Ping(vec![1])), vec![]);
}

#[test]
fn second_connect_outcome_is_ignored() {
    let mut client = open_client();
    assert_eq!(client.connected(Err(String::from("late failure"))), vec![]);
    assert_eq!(client.state(), ClientState::Open);
}

#[test]
fn client_answers_ping_with_pong_of_same_payload() {
    let mut client = open_client();
    let effects = client.handle(Frame::Ping(vec![4, 5, 6]));
    assert_eq!(effects, vec![Effect::Send(Frame::Pong(vec![4, 5, 6]))]);
    assert_eq!(client.state(), ClientState::Open);
}

#[test]
fn client_answers_every_ping_in_order() {
    let mut client = open_client();
    let mut sent = Vec::new();
    for payload in [vec![], vec![1], vec![2, 2], vec![3, 3, 3]] {
        sent.extend(client.handle(Frame::Text(String::from("echo"))));
        sent.extend(client.handle(Frame::Ping(payload)));
    }
    assert_eq!(
        sent,
        vec![
            Effect::Send(Frame::Pong(vec![])),
            Effect::Send(Frame::Pong(vec![1])),
            Effect::Send(Frame::Pong(vec![2, 2])),
            Effect::Send(Frame::Pong(vec![3, 3, 3])),
        ]
    );
}

#[test]
fn client_ignores_other_frames() {
    let mut client = open_client();
    assert_eq!(client.handle(Frame::Text(String::from("echoed"))), vec![]);
    assert_eq!(client.handle(Frame::Binary(vec![1, 2])), vec![]);
    assert_eq!(client.handle(Frame::Pong(vec![1])), vec![]);
    assert_eq!(client.handle(Frame::Other), vec![]);
    let reason = CloseReason { code: 1001, description: None };
    assert_eq!(client.handle(Frame::Close(Some(reason))), vec![]);
    assert_eq!(client.state(), ClientState::Open);
}

#[test]
fn client_closes_on_transport_error() {
    let mut client = open_client();
    let effects = client.handle(Frame::Error(String::from("bad opcode")));
    assert_eq!(
        effects,
        vec![Effect::Report(Failure::Protocol(String::from("bad opcode"))), Effect::Release]
    );
    assert_eq!(client.state(), ClientState::Closed);
}

#[test]
fn disconnect_closes_an_open_connection() {
    let mut client = open_client();
    assert_eq!(client.disconnect(Disconnect), vec![Effect::Release]);
    assert_eq!(client.state(), ClientState::Closed);
}

#[test]
fn disconnect_twice_has_no_further_effect() {
    let mut client = open_client();
    assert_eq!(client.disconnect(Disconnect), vec![Effect::Release]);
    assert_eq!(client.disconnect(Disconnect), vec![]);
    assert_eq!(client.disconnect(Disconnect), vec![]);
    assert_eq!(client.state(), ClientState::Closed);
}

#[test]
fn transport_error_on_closed_connection_has_no_effect() {
    let mut client = open_client();
    client.disconnect(Disconnect);
    assert_eq!(client.handle(Frame::Error(String::from("broken pipe"))), vec![]);
    assert_eq!(client.handle(Frame::Ping(vec![1])), vec![]);
    assert_eq!(client.finished(), vec![]);
    assert_eq!(client.state(), ClientState::Closed);
}

#[test]
fn disconnect_after_transport_error_has_no_effect() {
    let mut client = open_client();
    client.handle(Frame::Error(String::from("reset")));
    assert_eq!(client.disconnect(Disconnect), vec![]);
    assert_eq!(client.state(), ClientState::Closed);
}

#[test]
fn disconnect_while_connecting_is_a_no_op() {
    let mut client = WsClient::new();
    assert_eq!(client.disconnect(Disconnect), vec![]);
    assert_eq!(client.state(), ClientState::Connecting);
    assert_eq!(client.connected(Ok(())), vec![]);
    assert_eq!(client.state(), ClientState::Open);
}

#[test]
fn frames_while_connecting_are_ignored() {
    let mut client = WsClient::new();
    assert_eq!(client.handle(Frame::Ping(vec![1])), vec![]);
    assert_eq!(client.handle(Frame::Error(String::from("early"))), vec![]);
    assert_eq!(client.finished(), vec![]);
    assert_eq!(client.state(), ClientState::Connecting);
}

#[test]
fn remote_close_releases_an_open_connection_once() {
    let mut client = open_client();
    assert_eq!(client.finished(), vec![Effect::Release]);
    assert_eq!(client.state(), ClientState::Closed);
    assert_eq!(client.finished(), vec![]);
    assert_eq!(client.disconnect(Disconnect), vec![]);
}

#[test]
fn failed_connect_is_told_with_its_cause() {
    let mut client = WsClient::new();
    let effects = client.connected(Err(String::from("Connection refused (os error 111)")));
    assert_eq!(effects.len(), 1);
    match &effects[0] {
        Effect::Report(failure) => assert_eq!(
            failure.message(),
            "Failed to connect to Server: Connection refused (os error 111)"
        ),
        other => panic!("unexpected effect {:?}", other),
    }
}

#[test]
fn failure_messages_open_with_their_kind() {
    assert_eq!(
        Failure::ConnectionEstablishment(String::from("timeout")).message(),
        "Failed to connect to Server: timeout"
    );
    assert_eq!(
        Failure::ConnectionEstablishment(String::new()).message(),
        "Failed to connect to Server: "
    );
    assert_eq!(
        Failure::Protocol(String::from("Bad web socket op code")).message(),
        "Error while parsing WebSocket message: Bad web socket op code"
    );
    assert_eq!(
        Failure::LivenessTimeout.message(),
        "Websocket Client heartbeat failed, disconnecting!"
    );
}
