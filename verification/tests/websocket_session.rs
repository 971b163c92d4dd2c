use congo_ps::command::Command;
use congo_ps::command::CommandError;
use congo_ps::ws::handle_event;
use congo_ps::ws::WsAction;
use congo_ps::ws::WsEvent;
use congo_ps::ws::ERROR_CLOSE_REASON;

#[test]
fn text_message_is_applied() {
    assert_eq!(
        handle_event(WsEvent::Text("V:5")),
        Ok(WsAction::Apply(Command::SetVoltage(b"5".to_vec())))
    );
    assert_eq!(handle_event(WsEvent::Text("M:1")), Ok(WsAction::Apply(Command::SetMppt(true))));
    assert_eq!(handle_event(WsEvent::Text("F")), Ok(WsAction::Apply(Command::Ignored)));
}

#[test]
fn malformed_text_message_is_refused() {
    assert_eq!(handle_event(WsEvent::Text("I")), Err(CommandError::MissingValue));
    assert_eq!(handle_event(WsEvent::Text("M:yes")), Err(CommandError::InvalidNumber));
}

#[test]
fn control_messages() {
    assert_eq!(handle_event(WsEvent::Ping(b"abc")), Ok(WsAction::SendPong(b"abc".to_vec())));
    assert_eq!(handle_event(WsEvent::Ping(b"")), Ok(WsAction::SendPong(Vec::new())));
    assert_eq!(handle_event(WsEvent::Pong), Ok(WsAction::Continue));
    assert_eq!(handle_event(WsEvent::Binary), Ok(WsAction::Continue));
}

#[test]
fn closing() {
    assert_eq!(handle_event(WsEvent::Close), Ok(WsAction::Close(None)));
    assert_eq!(handle_event(WsEvent::ReadError(1002)), Ok(WsAction::Close(Some(1002))));
    assert_eq!(ERROR_CLOSE_REASON, "Websocket Error");
}

#[test]
fn batches_are_forwarded() {
    assert_eq!(handle_event(WsEvent::BatchReady), Ok(WsAction::ForwardBatch));
}
