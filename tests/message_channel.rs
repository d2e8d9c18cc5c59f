use std::cell::RefCell;
use std::rc::Rc;

use nativeshell_core::{
    encode_method_call, encode_method_result, unpack_result, FinalizableHandle, HandleRegistry,
    MessageChannel, MessageChannelDelegate, MethodCallError, MockIsolate, MockMethodCall,
    PlatformError, PostMessageError, SendMessageError, Value,
};

type Reply = Box<dyn FnOnce(Value)>;
type Handler = Box<dyn Fn(Value, Option<Reply>)>;
type Finalizer = Box<dyn FnOnce()>;

struct Recorder {
    events: Rc<RefCell<Vec<String>>>,
}

impl MessageChannelDelegate for Recorder {
    type Reply = Box<dyn FnOnce(Value) -> bool>;

    fn on_isolate_joined(&self, isolate: i64) {
        self.events.borrow_mut().push(format!("joined {}", isolate));
    }

    fn on_message(&self, isolate: i64, message: Value, reply: Self::Reply) {
        self.events.borrow_mut().push(format!("message {} {:?}", isolate, message));
        reply(message);
    }

    fn on_isolate_exited(&self, isolate: i64) {
        self.events.borrow_mut().push(format!("exited {}", isolate));
    }
}

fn echo_handler() -> Handler {
    Box::new(|value, reply| {
        if let Some(reply) = reply {
            reply(value);
        }
    })
}

fn send(
    channel: &MessageChannel<Handler, Recorder>,
    registry: &mut HandleRegistry<Finalizer>,
    isolate: i64,
    name: &str,
    message: Value,
) -> Result<Value, SendMessageError> {
    let result: Rc<RefCell<Option<Result<Value, SendMessageError>>>> = Rc::new(RefCell::new(None));
    match channel.send_message(registry, isolate, name, &message) {
        Ok(handler) => {
            let r = result.clone();
            handler(message, Some(Box::new(move |v| *r.borrow_mut() = Some(Ok(v)))));
        }
        Err(e) => *result.borrow_mut() = Some(Err(e)),
    }
    let out = result.borrow_mut().take();
    out.expect("reply was sent")
}

#[test]
fn ping_is_echoed() {
    let mut channel: MessageChannel<Handler, Recorder> = MessageChannel::new();
    let mut registry: HandleRegistry<Finalizer> = HandleRegistry::new();
    let mut isolate = MockIsolate::new();
    isolate.register_message_handler("ping", echo_handler());
    let registered = isolate.apply(&mut channel);
    let a = registered.isolate_id();
    assert_eq!(send(&channel, &mut registry, a, "ping", Value::I64(42)), Ok(Value::I64(42)));
}

#[test]
fn unknown_isolate_is_invalid() {
    let mut channel: MessageChannel<Handler, Recorder> = MessageChannel::new();
    let mut registry: HandleRegistry<Finalizer> = HandleRegistry::new();
    let mut isolate = MockIsolate::new();
    isolate.register_message_handler("ping", echo_handler());
    let a = isolate.apply(&mut channel).isolate_id();
    let b = a + 100;
    assert_eq!(
        send(&channel, &mut registry, b, "ping", Value::I64(42)),
        Err(SendMessageError::InvalidIsolate)
    );
    assert_eq!(
        channel.post_message(&mut registry, b, "ping", &Value::Null).err(),
        Some(PostMessageError::InvalidIsolate)
    );
}

#[test]
fn missing_channel_is_reported_for_send_and_dropped_for_post() {
    let mut channel: MessageChannel<Handler, Recorder> = MessageChannel::new();
    let mut registry: HandleRegistry<Finalizer> = HandleRegistry::new();
    let a = MockIsolate::new().apply(&mut channel).isolate_id();
    assert_eq!(
        send(&channel, &mut registry, a, "nope", Value::Null),
        Err(SendMessageError::ChannelNotFound { channel: "nope".to_string() })
    );
    assert!(matches!(channel.post_message(&mut registry, a, "nope", &Value::Null), Ok(None)));
}

#[test]
fn later_handler_registration_wins() {
    let mut channel: MessageChannel<Handler, Recorder> = MessageChannel::new();
    let mut registry: HandleRegistry<Finalizer> = HandleRegistry::new();
    let mut isolate = MockIsolate::new();
    isolate.register_message_handler("ping", echo_handler());
    isolate.register_message_handler(
        "ping",
        Box::new(|_, reply| {
            if let Some(reply) = reply {
                reply(Value::Bool(true));
            }
        }),
    );
    assert!(isolate.handler("ping").is_some());
    assert!(isolate.handler("pong").is_none());
    let a = isolate.apply(&mut channel).isolate_id();
    assert_eq!(send(&channel, &mut registry, a, "ping", Value::I64(1)), Ok(Value::Bool(true)));
}

#[test]
fn nested_handles_are_attached_to_target_isolate() {
    let mut channel: MessageChannel<Handler, Recorder> = MessageChannel::new();
    let mut registry: HandleRegistry<Finalizer> = HandleRegistry::new();
    let mut isolate: MockIsolate<Handler> = MockIsolate::new();
    let ignore: Handler = Box::new(|_, _| {});
    isolate.register_message_handler("sink", ignore);
    let a = isolate.apply(&mut channel).isolate_id();
    let h1 = FinalizableHandle::new(&mut registry, 1, a, Box::new(|| {}));
    let h2 = FinalizableHandle::new(&mut registry, 1, a, Box::new(|| {}));
    let h3 = FinalizableHandle::new(&mut registry, 1, a, Box::new(|| {}));
    let unrelated = FinalizableHandle::new(&mut registry, 1, a, Box::new(|| {}));
    let message = Value::List(vec![
        Value::FinalizableHandle(h1.id()),
        Value::Dict(vec![(
            Value::FinalizableHandle(h2.id()),
            Value::List(vec![Value::List(vec![Value::FinalizableHandle(h3.id())])]),
        )]),
        Value::String("x".to_string()),
    ]);
    assert!(matches!(channel.post_message(&mut registry, a, "sink", &message), Ok(Some(_))));
    assert!(h1.is_attached(&registry));
    assert!(h2.is_attached(&registry));
    assert!(h3.is_attached(&registry));
    assert!(!unrelated.is_attached(&registry));
}

#[test]
fn handles_are_not_attached_when_isolate_is_unknown() {
    let mut channel: MessageChannel<Handler, Recorder> = MessageChannel::new();
    let mut registry: HandleRegistry<Finalizer> = HandleRegistry::new();
    let a = MockIsolate::new().apply(&mut channel).isolate_id();
    let h = FinalizableHandle::new(&mut registry, 1, a, Box::new(|| {}));
    let message = Value::FinalizableHandle(h.id());
    assert!(channel.send_message(&mut registry, a + 1, "x", &message).is_err());
    assert!(!h.is_attached(&registry));
    assert!(channel.send_message(&mut registry, a, "x", &message).is_err());
    assert!(h.is_attached(&registry));
}

#[test]
fn delegates_are_listed_in_registration_order() {
    let events = Rc::new(RefCell::new(Vec::new()));
    let mut channel: MessageChannel<Handler, Recorder> = MessageChannel::new();
    let mut registry: HandleRegistry<Finalizer> = HandleRegistry::new();
    channel.register_delegate("a", Recorder { events: events.clone() });
    channel.register_delegate("b", Recorder { events: Rc::new(RefCell::new(Vec::new())) });
    channel.register_delegate("a", Recorder { events: events.clone() });
    let id = MockIsolate::new().apply(&mut channel).isolate_id();
    assert_eq!(id, 1);
    let order = channel.delegates_in_order();
    assert_eq!(order.len(), 2);
    assert!(Rc::ptr_eq(&order[1].events, &events));
    assert!(!Rc::ptr_eq(&order[0].events, &events));
    for d in channel.delegates_in_order() {
        d.on_isolate_joined(id);
    }
    let runs = Rc::new(RefCell::new(0));
    let r = runs.clone();
    let h = FinalizableHandle::new(&mut registry, 1, id, Box::new(move || *r.borrow_mut() += 1));
    let finalizers = channel.unregister_isolate(&mut registry, id);
    assert_eq!(finalizers.len(), 1);
    for f in finalizers {
        f();
    }
    for d in channel.delegates_in_order() {
        d.on_isolate_exited(id);
    }
    assert_eq!(*runs.borrow(), 1);
    assert!(h.is_finalized(&registry));
    assert!(!channel.has_isolate(id));
    assert_eq!(*events.borrow(), vec!["joined 1", "exited 1"]);
    channel.unregister_delegate("a");
    assert_eq!(channel.delegates_in_order().len(), 1);
}

#[test]
fn isolate_messages_reach_delegates() {
    let events = Rc::new(RefCell::new(Vec::new()));
    let mut channel: MessageChannel<Handler, Recorder> = MessageChannel::new();
    channel.register_delegate("chan", Recorder { events: events.clone() });
    let registered = MockIsolate::new().apply(&mut channel);
    let delegate = registered.send_message(&channel, "chan").expect("delegate");
    let got = Rc::new(RefCell::new(None));
    let g = got.clone();
    delegate.on_message(
        registered.isolate_id(),
        Value::I64(3),
        Box::new(move |v| {
            *g.borrow_mut() = Some(v);
            true
        }),
    );
    assert_eq!(*got.borrow(), Some(Value::I64(3)));
    assert_eq!(
        registered.send_message(&channel, "other").err(),
        Some(SendMessageError::ChannelNotFound { channel: "other".to_string() })
    );
    channel.unregister_delegate("chan");
    assert!(channel.delegate("chan").is_none());
    assert!(registered.send_message(&channel, "chan").is_err());
}

#[test]
fn unregistered_isolate_messages_are_refused() {
    let mut channel: MessageChannel<Handler, Recorder> = MessageChannel::new();
    let mut registry: HandleRegistry<Finalizer> = HandleRegistry::new();
    channel.register_delegate("chan", Recorder { events: Rc::new(RefCell::new(Vec::new())) });
    let registered = MockIsolate::new().apply(&mut channel);
    channel.unregister_isolate(&mut registry, registered.isolate_id());
    assert_eq!(
        registered.send_message(&channel, "chan").err(),
        Some(SendMessageError::MessageRefused)
    );
}

#[test]
fn method_calls_are_encoded_and_decoded() {
    let call = encode_method_call("add", Value::I64(2));
    assert_eq!(
        call,
        Value::List(vec![Value::String("add".to_string()), Value::I64(2)])
    );
    let decoded = MockMethodCall::from_value(call).expect("a call");
    assert_eq!(decoded.method, "add");
    assert_eq!(decoded.args, Value::I64(2));
    assert!(MockMethodCall::from_value(Value::List(vec![Value::I64(1), Value::Null])).is_none());
    assert!(MockMethodCall::from_value(Value::Null).is_none());
}

#[test]
fn method_results_round_trip() {
    let ok = encode_method_result(Ok(Value::I64(9)));
    assert_eq!(
        ok,
        Value::List(vec![Value::String("ok".to_string()), Value::I64(9)])
    );
    assert_eq!(unpack_result(ok), Ok(Value::I64(9)));
    let err = PlatformError {
        code: "E1".to_string(),
        message: Some("bad".to_string()),
        detail: Value::Bool(false),
    };
    let encoded = encode_method_result(Err(PlatformError {
        code: "E1".to_string(),
        message: Some("bad".to_string()),
        detail: Value::Bool(false),
    }));
    assert_eq!(unpack_result(encoded), Err(MethodCallError::PlatformError(err)));
    let no_message = encode_method_result(Err(PlatformError {
        code: "E2".to_string(),
        message: None,
        detail: Value::Null,
    }));
    assert_eq!(
        no_message,
        Value::List(vec![
            Value::String("err".to_string()),
            Value::String("E2".to_string()),
            Value::Null,
            Value::Null
        ])
    );
    assert_eq!(unpack_result(Value::I64(1)), Err(MethodCallError::InvalidReply));
}

#[test]
fn call_method_routes_to_delegate_with_encoded_call() {
    let events = Rc::new(RefCell::new(Vec::new()));
    let mut channel: MessageChannel<Handler, Recorder> = MessageChannel::new();
    channel.register_delegate("m", Recorder { events: events.clone() });
    let registered = MockIsolate::new().apply(&mut channel);
    let (_, value) = registered
        .call_method(&channel, "m", "get", Value::Null)
        .expect("routed");
    assert_eq!(value, Value::List(vec![Value::String("get".to_string()), Value::Null]));
    assert!(registered.call_method(&channel, "zz", "get", Value::Null).is_err());
}

#[test]
fn error_messages() {
    assert_eq!(SendMessageError::InvalidIsolate.message(), "target isolate not found");
    assert_eq!(
        SendMessageError::ChannelNotFound { channel: "ping".to_string() }.message(),
        "message channel \"ping\" not found"
    );
    assert_eq!(
        SendMessageError::HandlerNotRegistered { channel: "x".to_string() }.message(),
        "message handler for channel \"x\" not registered"
    );
    assert_eq!(
        SendMessageError::IsolateShutDown.message(),
        "target isolate was shut down while waiting for response"
    );
    assert_eq!(PostMessageError::MessageRefused.message(), "target isolate refused the message");
}
