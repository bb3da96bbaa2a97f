//! Listeners: callbacks with an optional finite lifetime.

use vstd::prelude::*;
use std::sync::Arc;

verus! {

/// A payload handed to listeners: shared, so that every listener of an
/// emission sees the same value.
pub type EventPayload<T> = Arc<T>;

/// Failures of the event registry.
#[derive(Debug, Clone, PartialEq, Eq)]
pub enum EventError {
    /// Trying to add more than `max_listeners` to an event.
    OverloadedEvent,
    /// Trying to remove a listener that cannot be found.
    ListenerNotFound,
    /// Trying to reach an event that cannot be found.
    EventNotFound,
    /// Any other failure, with its description.
    Other(String),
}

/// The identity of a listener: the handle that a registration returns and
/// that names the listener afterwards. A listener that was never
/// registered has the identity 0, which names no registered listener.
#[derive(Debug, Clone, Copy, PartialEq, Eq, Structural)]
pub struct ListenerId {
    token: u64,
}

impl View for ListenerId {
    type V = u64;

    closed spec fn view(&self) -> u64 {
        self.token
    }
}

impl ListenerId {
    /// The identity with the given number.
    pub(crate) fn of(token: u64) -> (id: Self)
        ensures
            id@ == token,
    {
        ListenerId { token }
    }

    /// The number of the identity.
    pub fn token(&self) -> (token: u64)
        ensures
            token == self@,
    {
        self.token
    }

    /// Whether the identity names a registration at all.
    pub fn is_registered(&self) -> (b: bool)
        ensures
            b == (self@ != 0),
    {
        self.token != 0
    }
}

/// What a listener is: its identity, the number of invocations it has left
/// (`None`: no limit), and its callback.
pub struct ListenerView<F> {
    /// The identity of the listener.
    pub token: u64,
    /// The number of invocations left, where the lifetime is finite.
    pub lifetime: Option<u64>,
    /// The callback of the listener.
    pub callback: F,
}

impl<F> ListenerView<F> {
    /// Whether a finite lifetime has run out.
    pub open spec fn at_limit(self) -> bool {
        self.lifetime == Some(0u64)
    }

    /// The listener after one invocation.
    pub open spec fn spent(self) -> ListenerView<F> {
        ListenerView {
            token: self.token,
            lifetime: match self.lifetime {
                Some(n) => Some((n - 1) as u64),
                None => None,
            },
            callback: self.callback,
        }
    }
}

/// A callback that acts on the payload of an emitted event, with an
/// optional limit on the number of its invocations.
pub struct Listener<F> {
    token: u64,
    callback: F,
    lifetime: Option<u64>,
}

impl<F> View for Listener<F> {
    type V = ListenerView<F>;

    closed spec fn view(&self) -> ListenerView<F> {
        ListenerView { token: self.token, lifetime: self.lifetime, callback: self.callback }
    }
}

impl<F> Listener<F> {
    /// A listener that is not registered anywhere, with the given callback
    /// and lifetime.
    pub fn new(callback: F, lifetime: Option<u64>) -> (listener: Self)
        ensures
            listener@ == (ListenerView { token: 0, lifetime, callback }),
    {
        Listener { token: 0, callback, lifetime }
    }

    /// A listener with the given identity.
    pub(crate) fn registered(token: u64, callback: F, lifetime: Option<u64>) -> (listener: Self)
        ensures
            listener@ == (ListenerView { token, lifetime, callback }),
    {
        Listener { token, callback, lifetime }
    }

    /// The identity of the listener.
    pub fn id(&self) -> (id: ListenerId)
        ensures
            id@ == self@.token,
    {
        ListenerId { token: self.token }
    }

    /// The number of invocations left, where the lifetime is finite.
    pub fn lifetime(&self) -> (lifetime: Option<u64>)
        ensures
            lifetime == self@.lifetime,
    {
        self.lifetime
    }

    /// Invokes the callback with `payload`, in the caller's context, and
    /// counts the invocation against a finite lifetime. A listener whose
    /// lifetime has run out must not be called.
    pub fn call<T>(&mut self, payload: &EventPayload<T>) where F: Fn(&EventPayload<T>)
        requires
            !old(self)@.at_limit(),
            call_requires(old(self)@.callback, (payload,)),
        ensures
            final(self)@ == old(self)@.spent(),
            call_ensures(old(self)@.callback, (payload,), ()),
    {
        (self.callback)(payload);
        match self.lifetime {
            Some(n) => {
                self.lifetime = Some(n - 1);
            },
            None => {},
        }
    }

    /// Invokes the callback with `payload` without counting the invocation.
    pub(crate) fn invoke<T>(&self, payload: &EventPayload<T>) where F: Fn(&EventPayload<T>)
        requires
            call_requires(self@.callback, (payload,)),
        ensures
            call_ensures(self@.callback, (payload,), ()),
    {
        (self.callback)(payload);
    }

    /// Whether a finite lifetime has run out.
    pub fn at_limit(&self) -> (b: bool)
        ensures
            b == self@.at_limit(),
    {
        match self.lifetime {
            Some(n) => n == 0,
            None => false,
        }
    }

    /// Whether `other` is a handle of this listener: both carry the
    /// identity of the same registration.
    pub fn eq_callback(&self, other: &ListenerId) -> (same: bool)
        ensures
            same == (self@.token != 0 && self@.token == other@),
    {
        self.token != 0 && self.token == other.token
    }
}

} // verus!
