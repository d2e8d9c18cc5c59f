use vstd::prelude::*;

use crate::finalizable_handle::HandleRegistry;
use crate::keyed::{find_isolate, keyed_map, lemma_without_key_map, remove_isolate, Keyed};
use crate::message_channel::{
    attached_refs, MessageChannel, PlatformError, PlatformResult, PostMessageError,
};
use crate::value::Value;
use crate::IsolateId;

verus! {

/// Endpoint through which native code pushes events to one isolate.
pub struct EventSink {
    id: i64,
    channel_name: String,
    isolate_id: IsolateId,
}

impl EventSink {
    pub closed spec fn spec_id(&self) -> i64 {
        self.id
    }

    pub closed spec fn spec_channel_name(&self) -> Seq<char> {
        self.channel_name@
    }

    pub closed spec fn spec_isolate_id(&self) -> IsolateId {
        self.isolate_id
    }

    pub fn id(&self) -> (r: i64)
        ensures
            r == self.spec_id(),
    {
        self.id
    }

    pub fn isolate_id(&self) -> (r: IsolateId)
        ensures
            r == self.spec_isolate_id(),
    {
        self.isolate_id
    }

    pub fn channel_name(&self) -> (r: &str)
        ensures
            r@ == self.spec_channel_name(),
    {
        self.channel_name.as_str()
    }

    /// Posts `message` to the sink's isolate on the sink's channel; returns
    /// the handler to invoke, if the isolate has one for that channel.
    pub fn post_message<'a, H, D, F>(
        &self,
        channel: &'a MessageChannel<H, D>,
        registry: &mut HandleRegistry<F>,
        message: &Value,
    ) -> (r: Result<Option<&'a H>, PostMessageError>)
        requires
            old(registry).wf(),
        ensures
            !channel.isolates().contains_key(self.spec_isolate_id()) ==> r == Err::<
                Option<&H>,
                PostMessageError,
            >(PostMessageError::InvalidIsolate) && *final(registry) == *old(registry),
            channel.isolates().contains_key(self.spec_isolate_id()) ==> attached_refs(
                *old(registry),
                *final(registry),
                *message,
                self.spec_isolate_id(),
            ),
            channel.isolates().contains_key(self.spec_isolate_id())
                && channel.isolates()[self.spec_isolate_id()].handlers().contains_key(
                self.spec_channel_name(),
            ) ==> (r matches Ok(Some(h))
                && *h == channel.isolates()[self.spec_isolate_id()].handlers()[self.spec_channel_name()]),
            channel.isolates().contains_key(self.spec_isolate_id())
                && !channel.isolates()[self.spec_isolate_id()].handlers().contains_key(
                self.spec_channel_name(),
            ) ==> r == Ok::<Option<&H>, PostMessageError>(None),
    {
        channel.post_message(registry, self.isolate_id, self.channel_name.as_str(), message)
    }
}

/// Receiver of event sink registrations for one channel.
pub trait EventHandler {
    /// A sink was created for an isolate that started listening.
    fn register_event_sink(&mut self, sink: EventSink, listen_argument: Value);

    /// The sink was cancelled, or its isolate exited.
    fn unregister_event_sink(&mut self, sink_id: i64);
}

/// Bookkeeping of an event channel: the sink of each listening isolate.
pub struct EventChannelState {
    channel_name: String,
    next_sink_id: i64,
    isolate_to_sink: Vec<Keyed<IsolateId, i64>>,
}

impl EventChannelState {
    /// The sink id of each listening isolate.
    pub closed spec fn sinks(&self) -> Map<IsolateId, i64> {
        keyed_map(self.isolate_to_sink@)
    }

    pub closed spec fn next_sink_id(&self) -> i64 {
        self.next_sink_id
    }

    pub closed spec fn channel_name(&self) -> Seq<char> {
        self.channel_name@
    }

    /// Sink ids are positive and below `next_sink_id`.
    pub open spec fn wf(&self) -> bool {
        &&& 1 <= self.next_sink_id()
        &&& forall|i: IsolateId| #[trigger]
            self.sinks().contains_key(i) ==> 1 <= self.sinks()[i] < self.next_sink_id()
    }

    /// No isolate listens yet.
    pub fn new(channel: &str) -> (r: Self)
        ensures
            r.wf(),
            r.sinks() == Map::<IsolateId, i64>::empty(),
            r.next_sink_id() == 1,
            r.channel_name() == channel@,
    {
        EventChannelState { channel_name: channel.to_owned(), next_sink_id: 1, isolate_to_sink: Vec::new() }
    }

    /// Whether another sink can still receive a fresh id.
    pub fn has_free_sink_id(&self) -> (r: bool)
        ensures
            r == (self.next_sink_id() < i64::MAX),
    {
        self.next_sink_id < i64::MAX
    }

    /// `isolate` starts listening: creates its sink under a fresh id, replacing
    /// any earlier one.
    pub fn listen(&mut self, isolate: IsolateId) -> (r: EventSink)
        requires
            old(self).wf(),
            old(self).next_sink_id() < i64::MAX,
        ensures
            final(self).wf(),
            r.spec_id() == old(self).next_sink_id(),
            r.spec_isolate_id() == isolate,
            r.spec_channel_name() == old(self).channel_name(),
            final(self).channel_name() == old(self).channel_name(),
            final(self).next_sink_id() == old(self).next_sink_id() + 1,
            final(self).sinks() == old(self).sinks().insert(isolate, r.spec_id()),
    {
        let sink_id = self.next_sink_id;
        self.next_sink_id = sink_id + 1;
        remove_isolate(&mut self.isolate_to_sink, isolate);
        proof {
            lemma_without_key_map(old(self).isolate_to_sink@, isolate);
        }
        self.isolate_to_sink.push(Keyed { key: isolate, value: sink_id });
        proof {
            assert(self.isolate_to_sink@.drop_last() =~= crate::keyed::without_key(
                old(self).isolate_to_sink@,
                isolate,
            ));
            assert(self.sinks() =~= old(self).sinks().insert(isolate, sink_id));
            assert forall|i: IsolateId| #[trigger] self.sinks().contains_key(i) implies 1
                <= self.sinks()[i] < self.next_sink_id() by {
                if i != isolate {
                    assert(old(self).sinks().contains_key(i));
                }
            }
        }
        EventSink { id: sink_id, channel_name: self.channel_name.clone(), isolate_id: isolate }
    }

    /// `isolate` stops listening, or exited: removes its sink and returns its id.
    pub fn cancel(&mut self, isolate: IsolateId) -> (r: Option<i64>)
        requires
            old(self).wf(),
        ensures
            final(self).wf(),
            final(self).channel_name() == old(self).channel_name(),
            final(self).next_sink_id() == old(self).next_sink_id(),
            final(self).sinks() == old(self).sinks().remove(isolate),
            r == (if old(self).sinks().contains_key(isolate) {
                Some(old(self).sinks()[isolate])
            } else {
                None::<i64>
            }),
    {
        let found = match find_isolate(&self.isolate_to_sink, isolate) {
            Some(i) => Some(self.isolate_to_sink[i].value),
            None => None,
        };
        remove_isolate(&mut self.isolate_to_sink, isolate);
        proof {
            lemma_without_key_map(old(self).isolate_to_sink@, isolate);
            assert forall|i: IsolateId| #[trigger] self.sinks().contains_key(i) implies 1
                <= self.sinks()[i] < self.next_sink_id() by {
                assert(old(self).sinks().contains_key(i));
            }
        }
        found
    }
}

/// Which pseudo-method an isolate called on an event channel.
pub open spec fn is_listen(method: Seq<char>) -> bool {
    method == "listen"@
}

pub open spec fn is_cancel(method: Seq<char>) -> bool {
    method == "cancel"@
}

/// An event channel: its sink bookkeeping and the application's handler.
pub struct RegisteredEventChannel<T> {
    state: EventChannelState,
    handler: T,
}

impl<T: EventHandler> RegisteredEventChannel<T> {
    pub closed spec fn state(&self) -> EventChannelState {
        self.state
    }

    pub closed spec fn handler(&self) -> T {
        self.handler
    }

    /// An event channel named `channel` served by `handler`.
    pub fn new(channel: &str, handler: T) -> (r: Self)
        ensures
            r.state().wf(),
            r.state().sinks() == Map::<IsolateId, i64>::empty(),
            r.state().next_sink_id() == 1,
            r.state().channel_name() == channel@,
            r.handler() == handler,
    {
        RegisteredEventChannel { state: EventChannelState::new(channel), handler }
    }

    /// Whether the next `listen` can still receive a fresh sink id.
    pub fn can_listen(&self) -> (r: bool)
        ensures
            r == (self.state().next_sink_id() < i64::MAX),
    {
        self.state.has_free_sink_id()
    }

    pub fn borrow(&self) -> (r: &T)
        ensures
            *r == self.handler(),
    {
        &self.handler
    }

    pub fn borrow_mut(&mut self) -> (r: &mut T)
        ensures
            *r == old(self).handler(),
            final(self).handler() == *final(r),
            final(self).state() == old(self).state(),
    {
        &mut self.handler
    }

    /// Handles a call of `method` by `isolate` and returns what the handler
    /// must be given, and how the call is answered (see
    /// [`EventChannelAction::reply`]). `listen` creates the isolate's sink;
    /// `cancel` removes the isolate's sink, if it has one.
    pub fn on_method_call(&mut self, method: &str, isolate: IsolateId, args: Value) -> (r:
        EventChannelAction)
        requires
            old(self).state().wf(),
            is_listen(method@) ==> old(self).state().next_sink_id() < i64::MAX,
        ensures
            final(self).state().wf(),
            final(self).handler() == old(self).handler(),
            final(self).state().channel_name() == old(self).state().channel_name(),
            is_listen(method@) ==> (r matches EventChannelAction::Register(sink, argument)
                && sink.spec_id() == old(self).state().next_sink_id()
                && sink.spec_isolate_id() == isolate
                && sink.spec_channel_name() == old(self).state().channel_name()
                && argument == args),
            is_listen(method@) ==> final(self).state().sinks() == old(self).state().sinks().insert(
                isolate,
                old(self).state().next_sink_id(),
            ) && final(self).state().next_sink_id() == old(self).state().next_sink_id() + 1,
            is_cancel(method@) ==> r == EventChannelAction::Unregister(
                if old(self).state().sinks().contains_key(isolate) {
                    Some(old(self).state().sinks()[isolate])
                } else {
                    None::<i64>
                },
            ),
            is_cancel(method@) ==> final(self).state().sinks() == old(self).state().sinks().remove(
                isolate,
            ) && final(self).state().next_sink_id() == old(self).state().next_sink_id(),
            !is_listen(method@) && !is_cancel(method@) ==> r is UnknownMethod && final(self).state()
                == old(self).state(),
    {
        proof {
            reveal_strlit("listen");
            reveal_strlit("cancel");
            assert("listen"@[0] != "cancel"@[0]);
        }
        let name = method.to_owned();
        if name == "listen".to_owned() {
            let sink = self.state.listen(isolate);
            EventChannelAction::Register(sink, args)
        } else if name == "cancel".to_owned() {
            EventChannelAction::Unregister(self.state.cancel(isolate))
        } else {
            EventChannelAction::UnknownMethod
        }
    }

    /// `isolate` exited: removes its sink and returns the id the handler's
    /// `unregister_event_sink` must be given, if it had one.
    pub fn on_isolate_destroyed(&mut self, isolate: IsolateId) -> (r: Option<i64>)
        requires
            old(self).state().wf(),
        ensures
            final(self).state().wf(),
            final(self).handler() == old(self).handler(),
            final(self).state().sinks() == old(self).state().sinks().remove(isolate),
            final(self).state().next_sink_id() == old(self).state().next_sink_id(),
            final(self).state().channel_name() == old(self).state().channel_name(),
            r == (if old(self).state().sinks().contains_key(isolate) {
                Some(old(self).state().sinks()[isolate])
            } else {
                None::<i64>
            }),
    {
        self.state.cancel(isolate)
    }
}

/// What an event channel's handler must be given after a method call.
pub enum EventChannelAction {
    /// Give the new sink and the listen argument to `register_event_sink`.
    Register(EventSink, Value),
    /// Give the cancelled sink's id, if there was one, to `unregister_event_sink`.
    Unregister(Option<i64>),
    /// The method is not one of the channel's; nothing to give.
    UnknownMethod,
}

/// Error code of the answer to a call of a method an event channel lacks.
pub open spec fn not_implemented_code() -> Seq<char> {
    "not_implemented"@
}

impl EventChannelAction {
    /// How the call is answered: an empty success for `listen` and `cancel`,
    /// a `not_implemented` error for any other method.
    pub fn reply(&self) -> (r: PlatformResult)
        ensures
            !(self is UnknownMethod) ==> r == Ok::<Value, PlatformError>(Value::Null),
            self is UnknownMethod ==> (r matches Err(e) && e.code@ == not_implemented_code()
                && e.message is None && e.detail == Value::Null),
    {
        match self {
            EventChannelAction::UnknownMethod => Err(
                PlatformError { code: "not_implemented".to_owned(), message: None, detail: Value::Null },
            ),
            _ => Ok(Value::Null),
        }
    }
}

} // verus!
