use orsomafo::{DispatchedEvent, EventDispatcherBuilder, HandlerEntry, Subscriber, SubscriberList};

/// Runs one delivery of `event` the way the delivery worker does: invokes
/// the planned handlers in order, then completes the delivery.
fn deliver(list: &mut SubscriberList<&'static str>, event: &str, calls: &mut Vec<&'static str>) {
    let n = list.plan_delivery(event);
    for i in 0..n {
        calls.push(*list.handler_at(event, i).unwrap());
    }
    list.finish_delivery(event);
}

fn entry(name: &'static str, run_once: bool, propagate: bool) -> HandlerEntry<&'static str> {
    HandlerEntry::new(name, name.to_string(), run_once, propagate)
}

#[test]
fn test_event_dispatching() {
    let mut list = SubscriberList::new();
    list.register("UserCreated".to_string(), HandlerEntry::with_defaults("HandleUserCreated", "HandleUserCreated".to_string()));
    let envelope = DispatchedEvent::new("{\"id\":200}".to_string(), "UserCreated".to_string());
    let n = list.plan_delivery(envelope.name_ref());
    assert_eq!(n, 1);
    assert_eq!(*list.handler_at(envelope.name_ref(), 0).unwrap(), "HandleUserCreated");
    let payload: serde_json::Value = serde_json::from_str(envelope.data_ref()).unwrap();
    assert_eq!(payload["id"], 200);
    list.finish_delivery(envelope.name_ref());
    assert_eq!(list.handler_count("UserCreated"), 1);
}

#[test]
fn test_subscribers_merging() {
    let mut registry = SubscriberList::new();
    let first = Subscriber::new().listen_str_with("UserCreated", entry("HandleUserCreated", false, true));
    registry.merge(first.into_subscriptions());
    let second = Subscriber::new().listen_str_with("UserCreated", entry("HandleUserCreated", false, true));
    registry.merge(second.into_subscriptions());
    assert!(registry.contains_event("UserCreated"));
    assert_eq!(registry.handler_count("UserCreated"), 2);
}

#[test]
fn test_unsubscribing() {
    let mut registry = SubscriberList::new();
    registry.register("UserCreated2".to_string(), entry("HandleUserCreated2", false, true));
    registry.unsubscribe("UserCreated2", "HandleUserCreated2");
    let envelope = DispatchedEvent::new("{\"id\":8701}".to_string(), "UserCreated2".to_string());
    let mut calls = Vec::new();
    deliver(&mut registry, envelope.name_ref(), &mut calls);
    assert!(calls.is_empty());
}

#[test]
fn registration_order_is_invocation_order() {
    let mut list = SubscriberList::new();
    list.register("E".to_string(), entry("H1", false, true));
    list.register("E".to_string(), entry("H2", false, true));
    list.register("E".to_string(), entry("H3", false, true));
    let mut calls = Vec::new();
    deliver(&mut list, "E", &mut calls);
    assert_eq!(calls, vec!["H1", "H2", "H3"]);
}

#[test]
fn propagation_stops_for_one_dispatch_only() {
    let mut list = SubscriberList::new();
    list.register("E".to_string(), entry("H1", false, false));
    list.register("E".to_string(), entry("H2", false, true));
    let mut calls = Vec::new();
    deliver(&mut list, "E", &mut calls);
    deliver(&mut list, "E", &mut calls);
    assert_eq!(calls, vec!["H1", "H1"]);
    assert_eq!(list.handler_count("E"), 2);
}

#[test]
fn run_once_and_stopping_handler_is_removed() {
    let mut list = SubscriberList::new();
    list.register("E".to_string(), entry("A", false, true));
    list.register("E".to_string(), entry("B", true, false));
    list.register("E".to_string(), entry("C", false, true));
    let mut calls = Vec::new();
    deliver(&mut list, "E", &mut calls);
    assert_eq!(calls, vec!["A", "B"]);
    assert_eq!(list.identities("E"), vec!["A".to_string(), "C".to_string()]);
    deliver(&mut list, "E", &mut calls);
    assert_eq!(calls, vec!["A", "B", "A", "C"]);
}

#[test]
fn several_run_once_handlers_are_all_removed() {
    let mut list = SubscriberList::new();
    for (name, once) in [("A", true), ("B", false), ("C", true), ("D", true), ("E", false)] {
        list.register("X".to_string(), entry(name, once, true));
    }
    let mut calls = Vec::new();
    deliver(&mut list, "X", &mut calls);
    assert_eq!(calls, vec!["A", "B", "C", "D", "E"]);
    assert_eq!(list.identities("X"), vec!["B".to_string(), "E".to_string()]);
}

#[test]
fn run_once_handler_runs_exactly_once() {
    let mut list = SubscriberList::new();
    list.register("E".to_string(), entry("Once", true, true));
    let mut calls = Vec::new();
    for _ in 0..5 {
        deliver(&mut list, "E", &mut calls);
    }
    assert_eq!(calls, vec!["Once"]);
    assert_eq!(list.handler_count("E"), 0);
    assert!(list.contains_event("E"));
}

#[test]
fn unsubscribe_leaves_other_events_alone() {
    let mut list = SubscriberList::new();
    list.register("E".to_string(), entry("H", false, true));
    list.register("F".to_string(), entry("H", false, true));
    list.unsubscribe("E", "H");
    let mut calls = Vec::new();
    deliver(&mut list, "E", &mut calls);
    assert!(calls.is_empty());
    deliver(&mut list, "F", &mut calls);
    assert_eq!(calls, vec!["H"]);
}

#[test]
fn unsubscribe_removes_only_the_first_match() {
    let mut list = SubscriberList::new();
    list.register("E".to_string(), HandlerEntry::new("first", "H".to_string(), false, true));
    list.register("E".to_string(), entry("G", false, true));
    list.register("E".to_string(), HandlerEntry::new("second", "H".to_string(), false, true));
    list.unsubscribe("E", "H");
    let mut calls = Vec::new();
    deliver(&mut list, "E", &mut calls);
    assert_eq!(calls, vec!["G", "second"]);
}

#[test]
fn unsubscribe_of_unknown_identity_or_event_changes_nothing() {
    let mut list = SubscriberList::new();
    list.register("E".to_string(), entry("H", false, true));
    list.unsubscribe("E", "Nobody");
    list.unsubscribe("Missing", "H");
    assert_eq!(list.identities("E"), vec!["H".to_string()]);
    assert!(!list.contains_event("Missing"));
}

#[test]
fn logger_stopper_never_called_scenario() {
    let builder = EventDispatcherBuilder::new()
        .listen_str_with("X", entry("Logger", false, true))
        .listen_str_with("X", entry("Stopper", false, false))
        .listen_str_with("X", entry("NeverCalled", false, true));
    let mut registry = SubscriberList::new();
    registry.merge(builder.into_subscriptions());
    let mut calls = Vec::new();
    deliver(&mut registry, "X", &mut calls);
    assert_eq!(calls, vec!["Logger", "Stopper"]);
}

#[test]
fn run_once_greeter_scenario() {
    let mut registry = SubscriberList::new();
    registry.register("Hello".to_string(), entry("Greeter", true, true));
    let mut calls = Vec::new();
    deliver(&mut registry, "Hello", &mut calls);
    deliver(&mut registry, "Hello", &mut calls);
    assert_eq!(calls, vec!["Greeter"]);
}

#[test]
fn dispatch_without_handlers_scenario() {
    let mut registry: SubscriberList<&'static str> = SubscriberList::new();
    registry.register("Other".to_string(), entry("H", false, true));
    let mut calls = Vec::new();
    assert_eq!(registry.plan_delivery("Nobody"), 0);
    assert!(registry.handler_at("Nobody", 0).is_none());
    deliver(&mut registry, "Nobody", &mut calls);
    assert!(calls.is_empty());
    assert!(!registry.contains_event("Nobody"));
    assert_eq!(registry.identities("Other"), vec!["H".to_string()]);
}

#[test]
fn empty_list_delivers_nothing() {
    let mut registry: SubscriberList<&'static str> = SubscriberList::new();
    let mut calls = Vec::new();
    deliver(&mut registry, "", &mut calls);
    assert!(calls.is_empty());
    assert_eq!(registry.handler_count(""), 0);
}

#[test]
fn handler_at_past_the_end_is_none() {
    let mut registry = SubscriberList::new();
    registry.register("E".to_string(), entry("H", false, true));
    assert_eq!(registry.handler_at("E", 0), Some(&"H"));
    assert!(registry.handler_at("E", 1).is_none());
}

#[test]
fn merge_appends_after_existing_handlers() {
    let mut registry = SubscriberList::new();
    registry.register("E".to_string(), entry("Old", false, true));
    let staged = Subscriber::new()
        .listen_str_with("E", entry("New1", false, true))
        .listen_str_with("F", entry("F1", false, true))
        .listen_str_with("E", entry("New2", false, true));
    registry.merge(staged.into_subscriptions());
    assert_eq!(
        registry.identities("E"),
        vec!["Old".to_string(), "New1".to_string(), "New2".to_string()]
    );
    assert_eq!(registry.identities("F"), vec!["F1".to_string()]);
}

#[test]
fn extend_appends_in_order() {
    let mut registry = SubscriberList::new();
    registry.register("E".to_string(), entry("A", false, true));
    registry.extend("E".to_string(), vec![entry("B", false, true), entry("C", false, true)]);
    registry.extend("G".to_string(), vec![entry("D", false, true)]);
    assert_eq!(registry.identities("E"), vec!["A".to_string(), "B".to_string(), "C".to_string()]);
    assert_eq!(registry.identities("G"), vec!["D".to_string()]);
}

#[test]
fn builder_subscribe_takes_over_staged_handlers() {
    let staged = Subscriber::new()
        .listen_str_with("E", entry("S1", false, true))
        .listen_str_with("E", entry("S2", false, true));
    let builder = EventDispatcherBuilder::new()
        .listen_str_with("E", entry("B1", false, true))
        .subscribe(staged);
    let list = builder.into_subscriptions();
    assert_eq!(
        list.identities("E"),
        vec!["B1".to_string(), "S1".to_string(), "S2".to_string()]
    );
}

#[test]
fn default_policies_keep_and_propagate() {
    let e = HandlerEntry::with_defaults(7u8, "seven".to_string());
    assert!(!e.run_once);
    assert!(e.propagate);
    assert_eq!(e.identity, "seven");
}
