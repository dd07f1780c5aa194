use meio::connect::client::{attempt_verdict, retry_plan, AttemptEnd, RetryPlan, WsFailReason};
use meio::connect::route::{
    direct_path_query, first_route_step, response_status, restart_delay, route_step, ws_upgrade_answer,
    ws_upgrade_plan, AddrState, NoParameters, RouteStep,
    RouteError, RouteOutcome,
};
use meio::connect::talker::{
    classify, MessageKind, TalkerEvent, TalkerStep, TermReason, WsIncoming, Talker,
};
use meio::http::PlainExtractor;

#[test]
fn term_reason_is_interrupted() {
    assert!(TermReason::Interrupted.is_interrupted());
    assert!(!TermReason::Closed.is_interrupted());
}

#[test]
fn messages_are_classified_data_first() {
    assert_eq!(classify(true, false, false, false, false), MessageKind::Data);
    assert_eq!(classify(false, true, false, false, true), MessageKind::Data);
    assert_eq!(classify(false, false, true, false, false), MessageKind::Control);
    assert_eq!(classify(false, false, false, true, false), MessageKind::Control);
    assert_eq!(classify(false, false, false, false, true), MessageKind::Close);
    assert_eq!(classify(false, false, false, false, false), MessageKind::Other);
}

#[test]
fn session_closed_by_peer_ends_as_closed() {
    let mut t = Talker::new();
    let a = t.on_event(TalkerEvent::Incoming(MessageKind::Data));
    assert_eq!(a.step, TalkerStep::Forward);
    assert_eq!(a.finish, None);
    assert_eq!(t.on_event(TalkerEvent::Outgoing).step, TalkerStep::Send);
    assert_eq!(t.on_event(TalkerEvent::Incoming(MessageKind::Control)).step, TalkerStep::Skip);
    assert_eq!(t.on_event(TalkerEvent::Incoming(MessageKind::Other)).step, TalkerStep::ReportUnhandled);
    assert_eq!(t.on_event(TalkerEvent::Incoming(MessageKind::Close)).step, TalkerStep::CloseOutgoing);
    let a = t.on_event(TalkerEvent::OutgoingEnded);
    assert_eq!(a.step, TalkerStep::CloseConnection);
    assert_eq!(a.finish, None);
    let a = t.on_event(TalkerEvent::ConnectionEnded);
    assert_eq!(a.step, TalkerStep::Skip);
    assert_eq!(a.finish, Some(TermReason::Closed));
}

#[test]
fn stopped_session_ends_as_interrupted() {
    let mut t = Talker::new();
    assert_eq!(t.on_event(TalkerEvent::Stopped).step, TalkerStep::CloseOutgoing);
    assert_eq!(t.on_event(TalkerEvent::ConnectionEnded).finish, None);
    let a = t.on_event(TalkerEvent::OutgoingEnded);
    assert_eq!(a.finish, Some(TermReason::Interrupted));
    assert!(t.is_done());
    assert_eq!(t.term_reason(), TermReason::Interrupted);
}

#[test]
fn failing_connection_fails_the_session() {
    let mut t = Talker::new();
    let a = t.on_event(TalkerEvent::ConnectionFailed);
    assert_eq!(a.step, TalkerStep::Fail);
    assert_eq!(a.finish, None);
    assert!(!t.is_done());
}

#[test]
fn ws_incoming_wraps_its_value() {
    let msg = WsIncoming(5u8);
    assert_eq!(msg.0, 5);
}

#[test]
fn attempts_end_with_reasons() {
    assert_eq!(attempt_verdict(AttemptEnd::Unreachable), Some(WsFailReason::ServerNotAvailable));
    assert_eq!(attempt_verdict(AttemptEnd::Interrupted), None);
    assert_eq!(attempt_verdict(AttemptEnd::Closed), Some(WsFailReason::ClosedByServer));
    assert_eq!(attempt_verdict(AttemptEnd::Failed), Some(WsFailReason::ConnectionFailed));
}

#[test]
fn fail_reasons_describe_themselves() {
    assert_eq!(WsFailReason::ClosedByServer.to_string(), "closed by server");
    assert_eq!(WsFailReason::ConnectionFailed.to_string(), "connection failed");
    assert_eq!(WsFailReason::ServerNotAvailable.to_string(), "server not available");
}

#[test]
fn retries_wait_for_the_rest_of_the_interval() {
    assert_eq!(retry_plan(None, 10), RetryPlan::GiveUp);
    assert_eq!(retry_plan(Some(1_000), 300), RetryPlan::Retry { wait_nanos: 700 });
    assert_eq!(retry_plan(Some(1_000), 1_000), RetryPlan::Retry { wait_nanos: 0 });
    assert_eq!(retry_plan(Some(1_000), 5_000), RetryPlan::Retry { wait_nanos: 0 });
}

#[test]
fn route_error_keeps_request_and_describes_itself() {
    let err = RouteError::new("/api", "query=abc", "missing field");
    assert_eq!(err.path, "/api");
    assert_eq!(err.query, "query=abc");
    assert_eq!(err.reason, "missing field");
    assert_eq!(err.to_string(), "route error [path = /api, query = query=abc]: missing field");
}

#[test]
fn direct_paths_match_listed_paths_only() {
    let paths: &[&str] = &["/", "/index.html"];
    assert_eq!(direct_path_query(paths, "/index.html", Some("a=1")), Some("a=1".to_string()));
    assert_eq!(direct_path_query(paths, "/", None), Some(String::new()));
    assert_eq!(direct_path_query(paths, "/other", Some("a=1")), None);
    assert_eq!(direct_path_query(&[], "/", None), None);
}

#[test]
fn refused_requests_get_status_codes() {
    assert_eq!(response_status(RouteOutcome::NoRoute), 404);
    assert_eq!(response_status(RouteOutcome::Failed), 500);
    assert_eq!(response_status(RouteOutcome::Responded(201)), 201);
}

#[test]
fn websocket_requests_switch_protocols() {
    // The sample handshake of RFC 6455.
    let p = ws_upgrade_plan(true, Some(b"dGhlIHNhbXBsZSBub25jZQ==".as_slice()));
    assert_eq!(p.status, 101);
    assert_eq!(p.accept.as_deref(), Some("s3pPLMBiTxaQ9kYGzzhZRbK+xOo="));
    let p = ws_upgrade_plan(false, None);
    assert_eq!(p.status, 101);
    assert!(p.accept.is_none());
    let p = ws_upgrade_answer(true, Some("x".to_string()));
    assert_eq!(p.status, 101);
    assert_eq!(p.accept.as_deref(), Some("x"));
}

#[test]
fn requests_go_to_the_first_accepting_route() {
    assert_eq!(first_route_step(0), RouteStep::NoRoute);
    assert_eq!(first_route_step(3), RouteStep::Try(0));
    assert_eq!(route_step(0, 3, false), RouteStep::Try(1));
    assert_eq!(route_step(1, 3, true), RouteStep::Take(1));
    assert_eq!(route_step(2, 3, false), RouteStep::NoRoute);
}

#[test]
fn failed_listener_restarts_only_when_asked() {
    assert_eq!(restart_delay(false, true, Some(5)), Some(5));
    assert_eq!(restart_delay(true, true, Some(5)), None);
    assert_eq!(restart_delay(false, false, Some(5)), None);
    assert_eq!(restart_delay(false, true, None), None);
}

#[test]
fn address_waiters_are_answered_once_bound() {
    let mut state: AddrState<u16, &str> = AddrState::new();
    assert_eq!(state.wait("first"), None);
    assert_eq!(state.wait("second"), None);
    assert_eq!(state.assign(8080), vec!["first", "second"]);
    assert_eq!(state.wait("third"), Some(("third", 8080)));
    assert!(state.assign(9090).is_empty());
    assert_eq!(state.wait("fourth"), Some(("fourth", 9090)));
}

#[test]
fn plain_extractor_matches_its_path() {
    let e = PlainExtractor::new("/metrics".to_string());
    assert_eq!(e.try_extract("/metrics").map(|p| p.path), Some("/metrics".to_string()));
    assert!(e.try_extract("/metrics/").is_none());
}

#[test]
fn no_parameters_are_equal() {
    assert_eq!(NoParameters {}, NoParameters {});
}
