use vstd::prelude::*;

use crate::handler::HandlerEntry;
use crate::registry::{merged, registered, RegistryView, SubscriberList};

verus! {

/// A local staging area of (event name, handler) registrations, merged into
/// the process-wide registry in one step.
pub struct Subscriber<H> {
    subscribers: SubscriberList<H>,
}

impl<H> View for Subscriber<H> {
    type V = RegistryView<H>;

    closed spec fn view(&self) -> RegistryView<H> {
        self.subscribers@
    }
}

impl<H> Subscriber<H> {
    pub closed spec fn wf(&self) -> bool {
        self.subscribers.wf()
    }

    /// A staging area with no registrations.
    pub fn new() -> (r: Self)
        ensures
            r.wf(),
            r@ == RegistryView::<H>::empty(),
    {
        Subscriber { subscribers: SubscriberList::new() }
    }

    /// Stages `instance` for the event named `event`, after the handlers
    /// already staged for it.
    pub fn listen_str_with(self, event: &str, instance: HandlerEntry<H>) -> (r: Self)
        requires
            self.wf(),
        ensures
            r.wf(),
            r@ == registered(self@, event@, instance@),
    {
        self.register(event.to_owned(), instance)
    }

    fn register(self, event_name: String, handler: HandlerEntry<H>) -> (r: Self)
        requires
            self.wf(),
        ensures
            r.wf(),
            r@ == registered(self@, event_name@, handler@),
    {
        let mut subscribers = self.subscribers;
        subscribers.register(event_name, handler);
        Subscriber { subscribers }
    }

    /// The staged registrations, ready to be merged into a registry.
    pub fn into_subscriptions(self) -> (r: SubscriberList<H>)
        requires
            self.wf(),
        ensures
            r.wf(),
            r@ == self@,
    {
        self.subscribers
    }
}

/// Collects registrations, directly or from whole `Subscriber`s, for the
/// dispatcher that is being set up.
pub struct EventDispatcherBuilder<H> {
    subscribers: SubscriberList<H>,
}

impl<H> View for EventDispatcherBuilder<H> {
    type V = RegistryView<H>;

    closed spec fn view(&self) -> RegistryView<H> {
        self.subscribers@
    }
}

impl<H> EventDispatcherBuilder<H> {
    pub closed spec fn wf(&self) -> bool {
        self.subscribers.wf()
    }

    /// A builder with no registrations.
    pub fn new() -> (r: Self)
        ensures
            r.wf(),
            r@ == RegistryView::<H>::empty(),
    {
        EventDispatcherBuilder { subscribers: SubscriberList::new() }
    }

    /// Registers `instance` for the event named `event`, after the handlers
    /// already registered for it.
    pub fn listen_str_with(self, event: &str, instance: HandlerEntry<H>) -> (r: Self)
        requires
            self.wf(),
        ensures
            r.wf(),
            r@ == registered(self@, event@, instance@),
    {
        self.register(event.to_owned(), instance)
    }

    /// Takes over every registration of `subscriber`: for each of its event
    /// names the handlers are appended, in order, after those already here.
    pub fn subscribe(self, subscriber: Subscriber<H>) -> (r: Self)
        requires
            self.wf(),
            subscriber.wf(),
        ensures
            r.wf(),
            r@ == merged(self@, subscriber@),
    {
        let mut subscribers = self.subscribers;
        subscribers.merge(subscriber.into_subscriptions());
        EventDispatcherBuilder { subscribers }
    }

    fn register(self, event: String, handler: HandlerEntry<H>) -> (r: Self)
        requires
            self.wf(),
        ensures
            r.wf(),
            r@ == registered(self@, event@, handler@),
    {
        let mut subscribers = self.subscribers;
        subscribers.register(event, handler);
        EventDispatcherBuilder { subscribers }
    }

    /// The collected registrations, ready to be merged into a registry.
    pub fn into_subscriptions(self) -> (r: SubscriberList<H>)
        requires
            self.wf(),
        ensures
            r.wf(),
            r@ == self@,
    {
        self.subscribers
    }
}

} // verus!
