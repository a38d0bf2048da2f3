use vstd::prelude::*;

verus! {

/// What a registered handler is, as mathematical values: the handler
/// itself, its identity, and its two delivery policies.
pub struct HandlerView<H> {
    pub handler: H,
    pub identity: Seq<char>,
    pub run_once: bool,
    pub propagate: bool,
}

/// A handler as the registry holds it: the handler value together with the
/// identity used for unsubscribing, whether it is dropped after its first
/// invocation (`run_once`), and whether delivery goes on to later handlers
/// after it ran (`propagate`).
pub struct HandlerEntry<H> {
    pub handler: H,
    pub identity: String,
    pub run_once: bool,
    pub propagate: bool,
}

impl<H> View for HandlerEntry<H> {
    type V = HandlerView<H>;

    open spec fn view(&self) -> HandlerView<H> {
        HandlerView {
            handler: self.handler,
            identity: self.identity@,
            run_once: self.run_once,
            propagate: self.propagate,
        }
    }
}

impl<H> HandlerEntry<H> {
    pub fn new(handler: H, identity: String, run_once: bool, propagate: bool) -> (r: Self)
        ensures
            r@ == (HandlerView { handler, identity: identity@, run_once, propagate }),
    {
        HandlerEntry { handler, identity, run_once, propagate }
    }

    /// An entry with the default policies: kept after delivery, and
    /// letting delivery go on to the next handler.
    pub fn with_defaults(handler: H, identity: String) -> (r: Self)
        ensures
            r@ == (HandlerView { handler, identity: identity@, run_once: false, propagate: true }),
    {
        HandlerEntry { handler, identity, run_once: false, propagate: true }
    }
}

/// The views of a list of entries, in order.
pub open spec fn entries_view<H>(v: Seq<HandlerEntry<H>>) -> Seq<HandlerView<H>> {
    v.map_values(|e: HandlerEntry<H>| e@)
}

} // verus!
