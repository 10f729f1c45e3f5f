use netman::ipc::{
    forward, incoming, outgoing, respond, response_line, take_in, Received, Reply, RpcValue, SessionStep,
    SubscriberStep,
};
use netman::network::Command;
use netman::network::NetError;
use netman::{
    Envelope, HardwareInfo, Ipv4Info, Ipv6Info, LinkState, NetCardEvent, NetCardInfo, Request, Response, RpcError,
    DEFAULT_SOCKET_PATH,
};

fn card() -> NetCardInfo {
    NetCardInfo::new(
        "eth0".to_string(),
        true,
        HardwareInfo::new(1, [0; 6], 0, LinkState::Up),
        Ipv4Info::default(),
        Ipv6Info::default(),
    )
}

fn failed(id: u64, code: i32, message: &str) -> Response {
    Response { id, result: None, error: Some(RpcError { code, message: message.to_string() }) }
}

#[test]
fn the_socket() {
    assert_eq!(DEFAULT_SOCKET_PATH, "/tmp/netman.sock");
}

#[test]
fn making_responses() {
    assert_eq!(RpcError::new(5, "no".to_string()), RpcError { code: 5, message: "no".to_string() });
    assert_eq!(RpcError::new(5, "no".to_string()).clone(), RpcError::new(5, "no".to_string()));
    assert_eq!(Response::ok(3, RpcValue::Null), Response { id: 3, result: Some(RpcValue::Null), error: None });
    assert_eq!(Response::err(3, -1, "no".to_string()), failed(3, -1, "no"));
}

#[test]
fn lines_in_and_out() {
    assert_eq!(outgoing("{}"), "{}\n");
    assert_eq!(incoming("  {\"id\":1} \r\n"), Some("{\"id\":1}".to_string()));
    assert_eq!(incoming(" \t"), None);
    assert_eq!(incoming(&outgoing("{\"id\":1}")), Some("{\"id\":1}".to_string()));
}

#[test]
fn a_line_that_is_no_request() {
    match take_in(Err("expected value".to_string())) {
        SessionStep::Reply(r) => assert_eq!(r, failed(0, -32700, "parse error: expected value")),
        _ => panic!("no reply"),
    }
}

#[test]
fn a_subscription_is_acknowledged() {
    match take_in(Ok(Envelope { id: 9, request: Request::Subscribe })) {
        SessionStep::Subscribe(r) => {
            assert_eq!(r, Response { id: 9, result: Some(RpcValue::Text("subscribed".to_string())), error: None })
        }
        _ => panic!("no acknowledgement"),
    }
}

#[test]
fn requests_become_commands() {
    let name = || "eth0".to_string();
    match take_in(Ok(Envelope { id: 4, request: Request::SetLinkState { iface_name: name(), up: true } })) {
        SessionStep::Dispatch(4, Command::SetLinkState { iface_name, up }) => {
            assert_eq!(iface_name, "eth0");
            assert!(up);
        }
        _ => panic!("wrong step"),
    }
    match take_in(Ok(Envelope { id: 5, request: Request::GetNetCard { iface_name: name() } })) {
        SessionStep::Dispatch(5, Command::GetNetCard { iface_name }) => assert_eq!(iface_name, "eth0"),
        _ => panic!("wrong step"),
    }
    match take_in(Ok(Envelope { id: 6, request: Request::GetAllNetCards })) {
        SessionStep::Dispatch(id, Command::GetAllNetCards) => assert_eq!(id, 6),
        _ => panic!("wrong step"),
    }
    match take_in(Ok(Envelope { id: 7, request: Request::SetIpv4 { iface_name: name(), info: Ipv4Info::default() } })) {
        SessionStep::Dispatch(7, Command::SetIpv4 { info, .. }) => assert_eq!(info, Ipv4Info::default()),
        _ => panic!("wrong step"),
    }
    match take_in(Ok(Envelope { id: 8, request: Request::SetIpv6 { iface_name: name(), info: Ipv6Info::default() } })) {
        SessionStep::Dispatch(8, Command::SetIpv6 { info, .. }) => assert_eq!(info, Ipv6Info::default()),
        _ => panic!("wrong step"),
    }
}

#[test]
fn responses_carry_the_id() {
    assert_eq!(respond(1, Reply::Card(Ok(card()))), Response::ok(1, RpcValue::Card(card())));
    assert_eq!(respond(2, Reply::Cards(Ok(vec![card()]))), Response::ok(2, RpcValue::Cards(vec![card()])));
    assert_eq!(respond(3, Reply::Done(Ok(()))), Response::ok(3, RpcValue::Null));
    let gone = || NetError::NotFound("eth9".to_string());
    assert_eq!(respond(4, Reply::Card(Err(gone()))), failed(4, -32000, "Interface 'eth9' not found"));
    assert_eq!(respond(5, Reply::Cards(Err(NetError::LoopClosed))), failed(5, -32000, "event loop closed"));
    assert_eq!(respond(6, Reply::Done(Err(NetError::Outside("x".to_string())))), failed(6, -32000, "x"));
}

#[test]
fn events_are_forwarded() {
    match forward(Received::Event(NetCardEvent::Added(card()))) {
        SubscriberStep::Send(ev) => assert_eq!(ev, NetCardEvent::Added(card())),
        _ => panic!("not sent"),
    }
    assert!(matches!(forward(Received::Lagged(3)), SubscriberStep::Skip(3)));
    assert!(matches!(forward(Received::Closed), SubscriberStep::Stop));
}

#[test]
fn the_line_that_a_client_reads() {
    assert_eq!(response_line(0, ""), Err("no response".to_string()));
    assert_eq!(response_line(3, "{}\n"), Ok("{}".to_string()));
}
