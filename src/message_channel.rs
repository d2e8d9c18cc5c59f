use vstd::prelude::*;

use crate::finalizable_handle::{
    kept_rows, swept_finalizers, FinalizableObjectState, HandleRegistry,
};
use crate::keyed::{
    entry_pairs, find_isolate, find_named, keyed_map, lemma_without_key_map, lemma_without_key_pairs,
    remove_isolate, remove_named, without_name, Keyed,
};
use crate::value::{dict_holds_handle, holds_handle, list_holds_handle, Value};
use crate::IsolateId;

verus! {

/// Why a message with a reply could not be delivered.
#[derive(Debug, PartialEq)]
pub enum SendMessageError {
    InvalidIsolate,
    MessageRefused,
    IsolateShutDown,
    ChannelNotFound { channel: String },
    HandlerNotRegistered { channel: String },
}

/// Why a message without a reply could not be delivered.
#[derive(Debug, PartialEq)]
pub enum PostMessageError {
    InvalidIsolate,
    MessageRefused,
}

impl SendMessageError {
    /// A sentence describing the error.
    pub fn message(&self) -> (r: String)
        ensures
            r@ == match self {
                SendMessageError::InvalidIsolate => "target isolate not found"@,
                SendMessageError::MessageRefused => "target isolate refused the message"@,
                SendMessageError::IsolateShutDown => "target isolate was shut down while waiting for response"@,
                SendMessageError::ChannelNotFound { channel } => "message channel \""@ + channel@
                    + "\" not found"@,
                SendMessageError::HandlerNotRegistered { channel } => "message handler for channel \""@
                    + channel@ + "\" not registered"@,
            },
    {
        match self {
            SendMessageError::InvalidIsolate => "target isolate not found".to_owned(),
            SendMessageError::MessageRefused => "target isolate refused the message".to_owned(),
            SendMessageError::IsolateShutDown => "target isolate was shut down while waiting for response".to_owned(),
            SendMessageError::ChannelNotFound { channel } => "message channel \"".to_owned().concat(
                channel.as_str(),
            ).concat("\" not found"),
            SendMessageError::HandlerNotRegistered { channel } => "message handler for channel \"".to_owned().concat(
                channel.as_str(),
            ).concat("\" not registered"),
        }
    }
}

impl PostMessageError {
    /// A sentence describing the error.
    pub fn message(&self) -> (r: String)
        ensures
            r@ == match self {
                PostMessageError::InvalidIsolate => "target isolate not found"@,
                PostMessageError::MessageRefused => "target isolate refused the message"@,
            },
    {
        match self {
            PostMessageError::InvalidIsolate => "target isolate not found".to_owned(),
            PostMessageError::MessageRefused => "target isolate refused the message".to_owned(),
        }
    }
}

/// Outcome of initialising the host side of the channel.
#[derive(Debug, PartialEq, Eq)]
pub enum FunctionResult {
    NoError,
    InvalidStructSize,
}

/// Receiver of an isolate's lifecycle and of messages sent from an isolate on
/// one channel.
pub trait MessageChannelDelegate {
    /// Continuation through which the reply to a message is sent back.
    type Reply;

    fn on_isolate_joined(&self, isolate: IsolateId);

    fn on_message(&self, isolate: IsolateId, message: Value, reply: Self::Reply);

    fn on_isolate_exited(&self, isolate: IsolateId);
}

/// The token an in-process channel binds to an object it attaches: with no
/// host to issue weak references, the object's id stands for one.
pub open spec fn local_token(id: isize) -> u64 {
    id as u64
}

/// A row after a reference to it was sent to `isolate`.
pub open spec fn attached_for<F>(row: FinalizableObjectState<F>, isolate: IsolateId) -> FinalizableObjectState<F> {
    if row.isolate_id == isolate && row.weak_handle is None {
        FinalizableObjectState { weak_handle: Some(local_token(row.id)), ..row }
    } else {
        row
    }
}

/// `after` is `before` with every object that `message` refers to attached
/// for `isolate`, and nothing else changed.
pub open spec fn attached_refs<F>(
    before: HandleRegistry<F>,
    after: HandleRegistry<F>,
    message: Value,
    isolate: IsolateId,
) -> bool {
    &&& after.wf()
    &&& after.next_id() == before.next_id()
    &&& forall|id: isize| #[trigger] after.has_row(id) == before.has_row(id)
    &&& forall|id: isize|
        before.has_row(id) ==> #[trigger] after.row(id) == (if holds_handle(message, id) {
            attached_for(before.row(id), isolate)
        } else {
            before.row(id)
        })
}

/// Attaches to `isolate` every finalizable object that `value` refers to, at
/// any depth of lists and maps.
pub fn attach_finalizable_handles<F>(
    registry: &mut HandleRegistry<F>,
    value: &Value,
    isolate: IsolateId,
)
    requires
        old(registry).wf(),
    ensures
        attached_refs(*old(registry), *final(registry), *value, isolate),
    decreases value,
{
    match value {
        Value::FinalizableHandle(id) => {
            let _ = registry.attach(*id, isolate, #[verifier::truncate] (*id as u64));
        },
        Value::List(items) => {
            let mut i: usize = 0;
            while i < items.len()
                invariant
                    *value is List,
                    value->List_0 == *items,
                    i <= items@.len(),
                    registry.wf(),
                    registry.next_id() == old(registry).next_id(),
                    forall|id: isize| #[trigger] registry.has_row(id) == old(registry).has_row(id),
                    forall|id: isize|
                        old(registry).has_row(id) ==> #[trigger] registry.row(id) == (if list_holds_handle(
                            items@.take(i as int),
                            id,
                        ) {
                            attached_for(old(registry).row(id), isolate)
                        } else {
                            old(registry).row(id)
                        }),
                decreases items@.len() - i,
            {
                proof {
                    assert(decreases_to!(*value => value->List_0));
                    assert(decreases_to!(value->List_0 => value->List_0@));
                    assert(decreases_to!(value->List_0@ => value->List_0@[i as int]));
                }
                attach_finalizable_handles(registry, &items[i], isolate);
                proof {
                    assert(items@.take(i + 1).drop_last() =~= items@.take(i as int));
                    assert(items@.take(i + 1).last() == items@[i as int]);
                }
                i = i + 1;
            }
            proof {
                assert(items@.take(i as int) =~= items@);
            }
        },
        Value::Dict(entries) => {
            let mut i: usize = 0;
            while i < entries.len()
                invariant
                    *value is Dict,
                    value->Dict_0 == *entries,
                    i <= entries@.len(),
                    registry.wf(),
                    registry.next_id() == old(registry).next_id(),
                    forall|id: isize| #[trigger] registry.has_row(id) == old(registry).has_row(id),
                    forall|id: isize|
                        old(registry).has_row(id) ==> #[trigger] registry.row(id) == (if dict_holds_handle(
                            entries@.take(i as int),
                            id,
                        ) {
                            attached_for(old(registry).row(id), isolate)
                        } else {
                            old(registry).row(id)
                        }),
                decreases entries@.len() - i,
            {
                proof {
                    assert(decreases_to!(*value => value->Dict_0));
                    assert(decreases_to!(value->Dict_0 => value->Dict_0@));
                    assert(decreases_to!(value->Dict_0@ => value->Dict_0@[i as int]));
                    assert(decreases_to!(value->Dict_0@[i as int] => value->Dict_0@[i as int].0));
                    assert(decreases_to!(value->Dict_0@[i as int] => value->Dict_0@[i as int].1));
                }
                attach_finalizable_handles(registry, &entries[i].0, isolate);
                attach_finalizable_handles(registry, &entries[i].1, isolate);
                proof {
                    assert(entries@.take(i + 1).drop_last() =~= entries@.take(i as int));
                    assert(entries@.take(i + 1).last() == entries@[i as int]);
                }
                i = i + 1;
            }
            proof {
                assert(entries@.take(i as int) =~= entries@);
            }
        },
        _ => {},
    }
}


/// An isolate living in this process, with its message handlers by channel name.
pub struct MockIsolate<H> {
    handlers: Vec<Keyed<String, H>>,
}

impl<H> MockIsolate<H> {
    /// The handler registered for each channel name.
    pub closed spec fn handlers(&self) -> Map<Seq<char>, H> {
        keyed_map(self.handlers@)
    }

    /// An isolate with no handlers.
    pub fn new() -> (r: Self)
        ensures
            r.handlers() == Map::<Seq<char>, H>::empty(),
    {
        MockIsolate { handlers: Vec::new() }
    }

    /// Registers `handler` for `channel`, replacing an earlier one.
    pub fn register_message_handler(&mut self, channel: &str, handler: H)
        ensures
            final(self).handlers() == old(self).handlers().insert(channel@, handler),
    {
        remove_named(&mut self.handlers, channel);
        proof {
            lemma_without_key_map(old(self).handlers@, channel@);
        }
        self.handlers.push(Keyed { key: channel.to_owned(), value: handler });
        proof {
            assert(self.handlers@.drop_last() =~= crate::keyed::without_key(old(self).handlers@, channel@));
            assert(self.handlers() =~= old(self).handlers().insert(channel@, handler));
        }
    }

    /// The handler registered for `channel`.
    pub fn handler(&self, channel: &str) -> (r: Option<&H>)
        ensures
            match r {
                Some(h) => self.handlers().contains_key(channel@) && *h == self.handlers()[channel@],
                None => !self.handlers().contains_key(channel@),
            },
    {
        match find_named(&self.handlers, channel) {
            Some(i) => Some(&self.handlers[i].value),
            None => None,
        }
    }

    /// Registers this isolate with `channel` and returns its registration.
    pub fn apply<D>(self, channel: &mut MessageChannel<H, D>) -> (r:
        RegisteredMockIsolate)
        requires
            old(channel).wf(),
            old(channel).next_isolate() < IsolateId::MAX,
        ensures
            final(channel).wf(),
            r@ == old(channel).next_isolate(),
            !old(channel).isolates().contains_key(r@),
            final(channel).isolates() == old(channel).isolates().insert(r@, self),
            final(channel).delegates() == old(channel).delegates(),
            final(channel).delegate_order() == old(channel).delegate_order(),
            final(channel).next_isolate() == old(channel).next_isolate() + 1,
    {
        let isolate_id = channel.register_isolate(self);
        RegisteredMockIsolate { isolate_id }
    }
}

/// The channel between native code and the isolates of this process: the
/// registered isolates, and the delegates by channel name.
pub struct MessageChannel<H, D> {
    next_isolate: IsolateId,
    isolates: Vec<Keyed<IsolateId, MockIsolate<H>>>,
    delegates: Vec<Keyed<String, D>>,
}

impl<H, D> MessageChannel<H, D> {
    /// The registered isolates by id.
    pub closed spec fn isolates(&self) -> Map<IsolateId, MockIsolate<H>> {
        keyed_map(self.isolates@)
    }

    /// The delegate registered for each channel name.
    pub closed spec fn delegates(&self) -> Map<Seq<char>, D> {
        keyed_map(self.delegates@)
    }

    /// The delegates with their channel names, in registration order; a
    /// registration for a name already present moves it to the end.
    pub closed spec fn delegate_order(&self) -> Seq<(Seq<char>, D)> {
        entry_pairs(self.delegates@)
    }

    /// The id the next registered isolate receives.
    pub closed spec fn next_isolate(&self) -> IsolateId {
        self.next_isolate
    }

    /// Isolate ids are positive and below `next_isolate`.
    pub open spec fn wf(&self) -> bool {
        &&& 1 <= self.next_isolate()
        &&& forall|id: IsolateId| #[trigger]
            self.isolates().contains_key(id) ==> 1 <= id < self.next_isolate()
    }

    /// A channel with no isolates and no delegates.
    pub fn new() -> (r: Self)
        ensures
            r.wf(),
            r.isolates() == Map::<IsolateId, MockIsolate<H>>::empty(),
            r.delegates() == Map::<Seq<char>, D>::empty(),
            r.next_isolate() == 1,
    {
        MessageChannel { next_isolate: 1, isolates: Vec::new(), delegates: Vec::new() }
    }

    /// Routes a message with a reply to `channel` of `target_isolate`.
    ///
    /// When the isolate is registered, every finalizable object the message
    /// refers to is first attached to it; the handler to invoke is returned, or
    /// the error to reply with.
    pub fn send_message<F>(
        &self,
        registry: &mut HandleRegistry<F>,
        target_isolate: IsolateId,
        channel: &str,
        message: &Value,
    ) -> (r: Result<&H, SendMessageError>)
        requires
            old(registry).wf(),
        ensures
            !self.isolates().contains_key(target_isolate) ==> r == Err::<&H, SendMessageError>(
                SendMessageError::InvalidIsolate,
            ) && *final(registry) == *old(registry),
            self.isolates().contains_key(target_isolate) ==> attached_refs(
                *old(registry),
                *final(registry),
                *message,
                target_isolate,
            ),
            self.isolates().contains_key(target_isolate) && self.isolates()[target_isolate].handlers().contains_key(
                channel@,
            ) ==> (r matches Ok(h) && *h == self.isolates()[target_isolate].handlers()[channel@]),
            self.isolates().contains_key(target_isolate) && !self.isolates()[target_isolate].handlers().contains_key(
                channel@,
            ) ==> (r matches Err(SendMessageError::ChannelNotFound { channel: c }) && c@ == channel@),
    {
        match find_isolate(&self.isolates, target_isolate) {
            None => Err(SendMessageError::InvalidIsolate),
            Some(i) => {
                attach_finalizable_handles(registry, message, target_isolate);
                match self.isolates[i].value.handler(channel) {
                    Some(h) => Ok(h),
                    None => Err(SendMessageError::ChannelNotFound { channel: channel.to_owned() }),
                }
            },
        }
    }

    /// Routes a message without a reply to `channel` of `target_isolate`.
    ///
    /// As [`MessageChannel::send_message`], but a missing handler is no error:
    /// the message is dropped and `Ok(None)` comes back.
    pub fn post_message<F>(
        &self,
        registry: &mut HandleRegistry<F>,
        target_isolate: IsolateId,
        channel: &str,
        message: &Value,
    ) -> (r: Result<Option<&H>, PostMessageError>)
        requires
            old(registry).wf(),
        ensures
            !self.isolates().contains_key(target_isolate) ==> r == Err::<Option<&H>, PostMessageError>(
                PostMessageError::InvalidIsolate,
            ) && *final(registry) == *old(registry),
            self.isolates().contains_key(target_isolate) ==> attached_refs(
                *old(registry),
                *final(registry),
                *message,
                target_isolate,
            ),
            self.isolates().contains_key(target_isolate) && self.isolates()[target_isolate].handlers().contains_key(
                channel@,
            ) ==> (r matches Ok(Some(h)) && *h == self.isolates()[target_isolate].handlers()[channel@]),
            self.isolates().contains_key(target_isolate) && !self.isolates()[target_isolate].handlers().contains_key(
                channel@,
            ) ==> r == Ok::<Option<&H>, PostMessageError>(None),
    {
        match find_isolate(&self.isolates, target_isolate) {
            None => Err(PostMessageError::InvalidIsolate),
            Some(i) => {
                attach_finalizable_handles(registry, message, target_isolate);
                Ok(self.isolates[i].value.handler(channel))
            },
        }
    }

    /// Registers `delegate` for `channel`; a later registration replaces it.
    pub fn register_delegate(&mut self, channel: &str, delegate: D)
        requires
            old(self).wf(),
        ensures
            final(self).wf(),
            final(self).delegates() == old(self).delegates().insert(channel@, delegate),
            final(self).delegate_order() == without_name(old(self).delegate_order(), channel@).push(
                (channel@, delegate),
            ),
            final(self).isolates() == old(self).isolates(),
            final(self).next_isolate() == old(self).next_isolate(),
    {
        remove_named(&mut self.delegates, channel);
        proof {
            lemma_without_key_map(old(self).delegates@, channel@);
            lemma_without_key_pairs(old(self).delegates@, channel@);
        }
        self.delegates.push(Keyed { key: channel.to_owned(), value: delegate });
        proof {
            assert(self.delegates@.drop_last() =~= crate::keyed::without_key(old(self).delegates@, channel@));
            assert(self.delegates() =~= old(self).delegates().insert(channel@, delegate));
            assert(self.delegate_order() =~= without_name(old(self).delegate_order(), channel@).push(
                (channel@, delegate),
            ));
            assert(self.isolates() == old(self).isolates());
        }
    }

    /// Removes the delegate of `channel`, if any.
    pub fn unregister_delegate(&mut self, channel: &str)
        requires
            old(self).wf(),
        ensures
            final(self).wf(),
            final(self).delegates() == old(self).delegates().remove(channel@),
            final(self).delegate_order() == without_name(old(self).delegate_order(), channel@),
            final(self).isolates() == old(self).isolates(),
            final(self).next_isolate() == old(self).next_isolate(),
    {
        remove_named(&mut self.delegates, channel);
        proof {
            lemma_without_key_map(old(self).delegates@, channel@);
            lemma_without_key_pairs(old(self).delegates@, channel@);
            assert(self.isolates() == old(self).isolates());
        }
    }

    /// The delegate registered for `channel`.
    pub fn delegate(&self, channel: &str) -> (r: Option<&D>)
        ensures
            match r {
                Some(d) => self.delegates().contains_key(channel@) && *d == self.delegates()[channel@],
                None => !self.delegates().contains_key(channel@),
            },
    {
        match find_named(&self.delegates, channel) {
            Some(i) => Some(&self.delegates[i].value),
            None => None,
        }
    }

    /// The delegates in registration order: the ones to tell, in this order,
    /// that an isolate joined or exited.
    pub fn delegates_in_order(&self) -> (r: Vec<&D>)
        ensures
            r@.len() == self.delegate_order().len(),
            forall|i: int| 0 <= i < r@.len() ==> *#[trigger] r@[i] == self.delegate_order()[i].1,
    {
        let mut out: Vec<&D> = Vec::new();
        let mut i: usize = 0;
        while i < self.delegates.len()
            invariant
                i <= self.delegates@.len(),
                out@.len() == i,
                forall|j: int| 0 <= j < i ==> *#[trigger] out@[j] == self.delegates@[j].value,
            decreases self.delegates@.len() - i,
        {
            out.push(&self.delegates[i].value);
            i = i + 1;
        }
        out
    }

    /// Whether another isolate can still receive a fresh id.
    pub fn has_free_isolate_id(&self) -> (r: bool)
        ensures
            r == (self.next_isolate() < IsolateId::MAX),
    {
        self.next_isolate < IsolateId::MAX
    }

    /// Whether `isolate` is registered.
    pub fn has_isolate(&self, isolate: IsolateId) -> (r: bool)
        ensures
            r == self.isolates().contains_key(isolate),
    {
        find_isolate(&self.isolates, isolate).is_some()
    }
}

impl<H, D> MessageChannel<H, D> {
    /// Registers `isolate` under a fresh id. The caller then tells each of
    /// [`MessageChannel::delegates_in_order`] that it joined.
    pub fn register_isolate(&mut self, isolate: MockIsolate<H>) -> (r: IsolateId)
        requires
            old(self).wf(),
            old(self).next_isolate() < IsolateId::MAX,
        ensures
            final(self).wf(),
            r == old(self).next_isolate(),
            !old(self).isolates().contains_key(r),
            final(self).isolates() == old(self).isolates().insert(r, isolate),
            final(self).delegates() == old(self).delegates(),
            final(self).delegate_order() == old(self).delegate_order(),
            final(self).next_isolate() == old(self).next_isolate() + 1,
    {
        let isolate_id = self.next_isolate;
        self.next_isolate = isolate_id + 1;
        self.isolates.push(Keyed { key: isolate_id, value: isolate });
        proof {
            assert(self.isolates@.drop_last() =~= old(self).isolates@);
            assert forall|id: IsolateId| #[trigger] self.isolates().contains_key(id) implies 1 <= id
                < self.next_isolate() by {
                if id != isolate_id {
                    assert(old(self).isolates().contains_key(id));
                }
            }
        }
        isolate_id
    }

    /// Unregisters `isolate` and sweeps its never-attached finalizable objects
    /// from `registry`. Returns the swept finalizers, to run on the owner
    /// thread; the caller then tells each of
    /// [`MessageChannel::delegates_in_order`] that the isolate exited.
    pub fn unregister_isolate<F>(&mut self, registry: &mut HandleRegistry<F>, isolate: IsolateId) -> (r:
        Vec<F>)
        requires
            old(self).wf(),
            old(registry).wf(),
        ensures
            final(self).wf(),
            final(self).isolates() == old(self).isolates().remove(isolate),
            final(self).delegates() == old(self).delegates(),
            final(self).delegate_order() == old(self).delegate_order(),
            final(self).next_isolate() == old(self).next_isolate(),
            final(registry).wf(),
            final(registry).next_id() == old(registry).next_id(),
            final(registry).rows() == kept_rows(old(registry).rows(), isolate),
            r@ == swept_finalizers(old(registry).rows(), isolate),
    {
        let finalizers = registry.finalize_all(isolate);
        remove_isolate(&mut self.isolates, isolate);
        proof {
            lemma_without_key_map(old(self).isolates@, isolate);
        }
        proof {
            assert forall|id: IsolateId| #[trigger] self.isolates().contains_key(id) implies 1 <= id
                < self.next_isolate() by {
                assert(old(self).isolates().contains_key(id));
            }
        }
        finalizers
    }
}

/// Registration of an in-process isolate with a [`MessageChannel`].
pub struct RegisteredMockIsolate {
    isolate_id: IsolateId,
}

impl View for RegisteredMockIsolate {
    type V = IsolateId;

    closed spec fn view(&self) -> IsolateId {
        self.isolate_id
    }
}

impl RegisteredMockIsolate {
    pub fn isolate_id(&self) -> (r: IsolateId)
        ensures
            r == self@,
    {
        self.isolate_id
    }

    /// Routes a message from this isolate to the delegate of `channel_name`.
    ///
    /// Once the isolate is no longer registered the channel refuses messages.
    pub fn send_message<'a, H, D>(&self, channel: &'a MessageChannel<H, D>, channel_name: &str) -> (r:
        Result<&'a D, SendMessageError>)
        ensures
            !channel.isolates().contains_key(self@) ==> r == Err::<&D, SendMessageError>(
                SendMessageError::MessageRefused,
            ),
            channel.isolates().contains_key(self@) && channel.delegates().contains_key(channel_name@)
                ==> (r matches Ok(d) && *d == channel.delegates()[channel_name@]),
            channel.isolates().contains_key(self@) && !channel.delegates().contains_key(
                channel_name@,
            ) ==> (r matches Err(SendMessageError::ChannelNotFound { channel: c }) && c@
                == channel_name@),
    {
        if !channel.has_isolate(self.isolate_id) {
            return Err(SendMessageError::MessageRefused);
        }
        match channel.delegate(channel_name) {
            Some(d) => Ok(d),
            None => Err(SendMessageError::ChannelNotFound { channel: channel_name.to_owned() }),
        }
    }

    /// Routes a method call from this isolate to the delegate of `channel_name`
    /// and returns it with the encoded call to deliver.
    pub fn call_method<'a, H, D>(
        &self,
        channel: &'a MessageChannel<H, D>,
        channel_name: &str,
        method: &str,
        argument: Value,
    ) -> (r: Result<(&'a D, Value), SendMessageError>)
        ensures
            !channel.isolates().contains_key(self@) ==> (r matches Err(SendMessageError::MessageRefused)),
            channel.isolates().contains_key(self@) && channel.delegates().contains_key(channel_name@)
                ==> (r matches Ok((d, v)) && *d == channel.delegates()[channel_name@] && is_method_call(
                v,
                method@,
                argument,
            )),
            channel.isolates().contains_key(self@) && !channel.delegates().contains_key(
                channel_name@,
            ) ==> (r matches Err(SendMessageError::ChannelNotFound { channel: c }) && c@
                == channel_name@),
    {
        match self.send_message(channel, channel_name) {
            Ok(d) => Ok((d, encode_method_call(method, argument))),
            Err(e) => Err(e),
        }
    }
}

/// Whether `v` is the two-item list that encodes a call of `method` with `args`.
pub open spec fn is_method_call(v: Value, method: Seq<char>, args: Value) -> bool {
    &&& v matches Value::List(items)
    &&& items@.len() == 2
    &&& items@[0] matches Value::String(m)
    &&& m@ == method
    &&& items@[1] == args
}

/// Encodes a method call as the list `[method, args]`.
pub fn encode_method_call(method: &str, args: Value) -> (r: Value)
    ensures
        is_method_call(r, method@, args),
{
    let mut items: Vec<Value> = Vec::new();
    items.push(Value::String(method.to_owned()));
    items.push(args);
    Value::List(items)
}

/// A method call as an isolate's handler receives it.
#[derive(Debug)]
pub struct MockMethodCall {
    pub method: String,
    pub args: Value,
}

impl MockMethodCall {
    /// Decodes a call encoded as a list whose first item is the method name and
    /// whose second is the argument; further items are ignored.
    pub fn from_value(value: Value) -> (r: Option<MockMethodCall>)
        ensures
            r matches Some(call) <==> (value matches Value::List(items) && items@.len() >= 2
                && items@[0] is String),
            r matches Some(call) ==> value matches Value::List(items) && items@[0] == Value::String(
                call.method,
            ) && items@[1] == call.args,
    {
        match value {
            Value::List(mut items) => {
                if items.len() < 2 {
                    return None;
                }
                let args = items.remove(1);
                let first = items.remove(0);
                match first {
                    Value::String(method) => Some(MockMethodCall { method, args }),
                    _ => None,
                }
            },
            _ => None,
        }
    }
}


/// Sending or posting a message to a registered isolate attaches to it every
/// finalizable object of that isolate that the message refers to, however
/// deeply nested in lists and maps; objects it does not refer to are left as
/// they were.
pub proof fn lemma_message_attaches_all_handles<F>(
    before: HandleRegistry<F>,
    after: HandleRegistry<F>,
    message: Value,
    isolate: IsolateId,
)
    requires
        before.wf(),
        attached_refs(before, after, message, isolate),
    ensures
        forall|id: isize|
            holds_handle(message, id) && before.has_row(id) && before.row(id).isolate_id == isolate
                ==> #[trigger] after.is_attached_row(id),
        forall|id: isize|
            !holds_handle(message, id) && before.has_row(id) ==> #[trigger] after.row(id) == before.row(
                id,
            ),
        forall|id: isize| #[trigger] after.has_row(id) == before.has_row(id),
{
}

/// An error a platform method handler replies with.
#[derive(Debug, PartialEq)]
pub struct PlatformError {
    pub code: String,
    pub message: Option<String>,
    pub detail: Value,
}

/// The outcome of a method call.
pub type PlatformResult = Result<Value, PlatformError>;

/// Why a method call produced no result.
#[derive(Debug, PartialEq)]
pub enum MethodCallError {
    SendError(SendMessageError),
    PlatformError(PlatformError),
    /// The reply was not an encoded result.
    InvalidReply,
}

/// Whether `v` is the list that encodes `result`: `["ok", value]` or
/// `["err", code, message or null, detail]`.
pub open spec fn encodes_result(v: Value, result: PlatformResult) -> bool {
    &&& v matches Value::List(items)
    &&& match result {
        Ok(value) => items@.len() == 2 && (items@[0] matches Value::String(tag) && tag@ == "ok"@)
            && items@[1] == value,
        Err(e) => items@.len() == 4 && (items@[0] matches Value::String(tag) && tag@ == "err"@)
            && items@[1] == Value::String(e.code) && match e.message {
            Some(m) => items@[2] == Value::String(m),
            None => items@[2] == Value::Null,
        } && items@[3] == e.detail,
    }
}

/// Encodes the result of a method call for the caller's isolate.
pub fn encode_method_result(result: PlatformResult) -> (r: Value)
    ensures
        encodes_result(r, result),
{
    let mut items: Vec<Value> = Vec::new();
    match result {
        Ok(value) => {
            items.push(Value::String("ok".to_owned()));
            items.push(value);
        },
        Err(e) => {
            items.push(Value::String("err".to_owned()));
            items.push(Value::String(e.code));
            match e.message {
                Some(m) => items.push(Value::String(m)),
                None => items.push(Value::Null),
            }
            items.push(e.detail);
        },
    }
    Value::List(items)
}

/// Decodes a method result encoded by [`encode_method_result`]; anything else
/// is an invalid reply.
pub fn unpack_result(value: Value) -> (r: Result<Value, MethodCallError>)
    ensures
        forall|res: PlatformResult| #[trigger] encodes_result(value, res) ==> match res {
            Ok(v) => r == Ok::<Value, MethodCallError>(v),
            Err(e) => r == Err::<Value, MethodCallError>(MethodCallError::PlatformError(e)),
        },
        r matches Err(MethodCallError::InvalidReply) <==> !exists|res: PlatformResult|
            #[trigger] encodes_result(value, res),
{
    proof {
        reveal_strlit("ok");
        reveal_strlit("err");
    }
    let ok_tag = "ok".to_owned();
    let err_tag = "err".to_owned();
    match value {
        Value::List(mut items) => {
            let ghost orig = items@;
            if items.len() == 2 {
                let v = items.remove(1);
                let tag = items.remove(0);
                if let Value::String(t) = tag {
                    if t == ok_tag {
                        proof {
                            assert(orig[1] == v);
                            assert(encodes_result(value, Ok::<Value, PlatformError>(v)));
                        }
                        return Ok(v);
                    }
                }
                return Err(MethodCallError::InvalidReply);
            }
            if items.len() == 4 {
                let detail = items.remove(3);
                let message = items.remove(2);
                let code = items.remove(1);
                let tag = items.remove(0);
                if let Value::String(t) = tag {
                    if t == err_tag {
                        if let Value::String(code) = code {
                            match message {
                                Value::String(m) => {
                                    proof {
                                        let e = PlatformError { code, message: Some(m), detail };
                                        assert(orig[3] == detail);
                                        assert(encodes_result(value, Err::<Value, PlatformError>(e)));
                                    }
                                    return Err(
                                        MethodCallError::PlatformError(
                                            PlatformError { code, message: Some(m), detail },
                                        ),
                                    );
                                },
                                Value::Null => {
                                    proof {
                                        let e = PlatformError { code, message: None, detail };
                                        assert(orig[3] == detail);
                                        assert(encodes_result(value, Err::<Value, PlatformError>(e)));
                                    }
                                    return Err(
                                        MethodCallError::PlatformError(
                                            PlatformError { code, message: None, detail },
                                        ),
                                    );
                                },
                                _ => {},
                            }
                        }
                    }
                }
            }
            Err(MethodCallError::InvalidReply)
        },
        _ => Err(MethodCallError::InvalidReply),
    }
}

/// Decoding an encoded method result gives the result back.
pub proof fn lemma_method_result_round_trip(result: PlatformResult, v: Value, r: Result<Value, MethodCallError>)
    requires
        encodes_result(v, result),
        forall|res: PlatformResult| #[trigger] encodes_result(v, res) ==> match res {
            Ok(x) => r == Ok::<Value, MethodCallError>(x),
            Err(e) => r == Err::<Value, MethodCallError>(MethodCallError::PlatformError(e)),
        },
    ensures
        match result {
            Ok(x) => r == Ok::<Value, MethodCallError>(x),
            Err(e) => r == Err::<Value, MethodCallError>(MethodCallError::PlatformError(e)),
        },
{
}

} // verus!
