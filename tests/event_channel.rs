use nativeshell_core::{
    EventChannelAction, EventHandler, EventSink, PlatformError, RegisteredEventChannel, Value,
};

#[derive(Default)]
struct Sinks {
    registered: Vec<(i64, i64, Value)>,
    unregistered: Vec<i64>,
}

impl EventHandler for Sinks {
    fn register_event_sink(&mut self, sink: EventSink, listen_argument: Value) {
        assert_eq!(sink.channel_name(), "events");
        self.registered.push((sink.id(), sink.isolate_id(), listen_argument));
    }

    fn unregister_event_sink(&mut self, sink_id: i64) {
        self.unregistered.push(sink_id);
    }
}

fn give(channel: &mut RegisteredEventChannel<Sinks>, action: EventChannelAction) {
    match action {
        EventChannelAction::Register(sink, argument) => {
            channel.borrow_mut().register_event_sink(sink, argument)
        }
        EventChannelAction::Unregister(Some(id)) => channel.borrow_mut().unregister_event_sink(id),
        EventChannelAction::Unregister(None) | EventChannelAction::UnknownMethod => {}
    }
}

#[test]
fn listen_creates_fresh_sinks() {
    let mut channel = RegisteredEventChannel::new("events", Sinks::default());
    let action = channel.on_method_call("listen", 7, Value::I64(1));
    assert_eq!(action.reply(), Ok(Value::Null));
    match &action {
        EventChannelAction::Register(sink, argument) => {
            assert_eq!(sink.id(), 1);
            assert_eq!(sink.isolate_id(), 7);
            assert_eq!(sink.channel_name(), "events");
            assert_eq!(*argument, Value::I64(1));
        }
        _ => panic!("listen must register a sink"),
    }
    give(&mut channel, action);
    let action = channel.on_method_call("listen", 8, Value::Null);
    give(&mut channel, action);
    assert_eq!(channel.borrow().registered, vec![(1, 7, Value::I64(1)), (2, 8, Value::Null)]);
}

#[test]
fn cancel_hands_out_the_old_sink_once() {
    let mut channel = RegisteredEventChannel::new("events", Sinks::default());
    let action = channel.on_method_call("listen", 7, Value::Null);
    give(&mut channel, action);
    let action = channel.on_method_call("cancel", 7, Value::Null);
    assert!(matches!(action, EventChannelAction::Unregister(Some(1))));
    assert_eq!(action.reply(), Ok(Value::Null));
    give(&mut channel, action);
    let action = channel.on_method_call("cancel", 7, Value::Null);
    assert!(matches!(action, EventChannelAction::Unregister(None)));
    assert_eq!(action.reply(), Ok(Value::Null));
    assert_eq!(channel.borrow().unregistered, vec![1]);
}

#[test]
fn unknown_method_is_an_error() {
    let mut channel = RegisteredEventChannel::new("events", Sinks::default());
    let action = channel.on_method_call("other", 8, Value::Null);
    assert!(matches!(action, EventChannelAction::UnknownMethod));
    assert_eq!(
        action.reply(),
        Err(PlatformError { code: "not_implemented".to_string(), message: None, detail: Value::Null })
    );
    assert!(channel.borrow().registered.is_empty());
}

#[test]
fn exited_isolate_sink_is_unregistered() {
    let mut channel = RegisteredEventChannel::new("events", Sinks::default());
    let action = channel.on_method_call("listen", 8, Value::Null);
    give(&mut channel, action);
    assert_eq!(channel.on_isolate_destroyed(8), Some(1));
    assert_eq!(channel.on_isolate_destroyed(8), None);
    let action = channel.on_method_call("listen", 8, Value::Null);
    assert!(matches!(action, EventChannelAction::Register(ref s, _) if s.id() == 2));
}
