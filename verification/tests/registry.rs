use std::cell::RefCell;
use std::rc::Rc;

use general_pub_sub::Client;
use general_pub_sub::PubSub;
use general_pub_sub::PubSubError;

/// A client that records every delivery it receives, so that tests can
/// observe which client was invoked, with which payload, in which order.
#[derive(Clone)]
struct RecordingClient {
    id: u64,
    tag: &'static str,
    log: Rc<RefCell<Vec<(u64, &'static str, &'static str)>>>,
}

impl RecordingClient {
    fn new(
        id: u64,
        tag: &'static str,
        log: &Rc<RefCell<Vec<(u64, &'static str, &'static str)>>>,
    ) -> RecordingClient {
        RecordingClient { id, tag, log: Rc::clone(log) }
    }
}

impl Client<&'static str> for RecordingClient {
    fn id_spec(&self) -> u64 {
        self.id
    }

    fn get_id(&self) -> u64 {
        self.id
    }

    fn send(&self, message: &'static str) {
        self.log.borrow_mut().push((self.id, self.tag, message));
    }
}

fn new_log() -> Rc<RefCell<Vec<(u64, &'static str, &'static str)>>> {
    Rc::new(RefCell::new(Vec::new()))
}

#[test]
fn second_subscription_fails_and_delivers_once() {
    let log = new_log();
    let mut pubsub = PubSub::new();
    pubsub.add_client(RecordingClient::new(1, "c", &log));

    assert_eq!(pubsub.sub_client(RecordingClient::new(1, "c", &log), "ch"), Ok(()));
    assert_eq!(
        pubsub.sub_client(RecordingClient::new(1, "c", &log), "ch"),
        Err(PubSubError::ClientAlreadySubscribedError)
    );

    pubsub.pub_message("ch", "payload");
    assert_eq!(*log.borrow(), vec![(1, "c", "payload")]);
}

#[test]
fn removal_is_symmetric_over_all_subscriptions() {
    let log = new_log();
    let mut pubsub = PubSub::new();
    pubsub.add_client(RecordingClient::new(1, "c", &log));
    pubsub.add_client(RecordingClient::new(2, "other", &log));

    assert_eq!(pubsub.sub_client(RecordingClient::new(1, "c", &log), "a"), Ok(()));
    assert_eq!(pubsub.sub_client(RecordingClient::new(1, "c", &log), "b"), Ok(()));
    assert_eq!(pubsub.sub_client(RecordingClient::new(1, "c", &log), "x*"), Ok(()));
    assert_eq!(pubsub.sub_client(RecordingClient::new(2, "other", &log), "a"), Ok(()));

    pubsub.remove_client(RecordingClient::new(1, "c", &log));

    pubsub.pub_message("a", "pa");
    pubsub.pub_message("b", "pb");
    pubsub.pub_message("xylophone", "px");
    assert_eq!(*log.borrow(), vec![(2, "other", "pa")]);
}

#[test]
fn literal_and_matching_pattern_deliver_once() {
    let log = new_log();
    let mut pubsub = PubSub::new();
    pubsub.add_client(RecordingClient::new(1, "c", &log));

    assert_eq!(pubsub.sub_client(RecordingClient::new(1, "c", &log), "x"), Ok(()));
    assert_eq!(pubsub.sub_client(RecordingClient::new(1, "c", &log), "x*"), Ok(()));

    pubsub.pub_message("x", "payload");
    assert_eq!(*log.borrow(), vec![(1, "c", "payload")]);
}

#[test]
fn two_matching_patterns_deliver_once() {
    let log = new_log();
    let mut pubsub = PubSub::new();
    pubsub.add_client(RecordingClient::new(1, "c", &log));

    assert_eq!(pubsub.sub_client(RecordingClient::new(1, "c", &log), "x*"), Ok(()));
    assert_eq!(pubsub.sub_client(RecordingClient::new(1, "c", &log), "*x"), Ok(()));

    pubsub.pub_message("x", "payload");
    assert_eq!(*log.borrow(), vec![(1, "c", "payload")]);
}

#[test]
fn publish_to_unknown_channel_is_a_no_op() {
    let log = new_log();
    let mut pubsub = PubSub::new();
    pubsub.add_client(RecordingClient::new(1, "c", &log));
    assert_eq!(pubsub.sub_client(RecordingClient::new(1, "c", &log), "known"), Ok(()));

    pubsub.pub_message("never.subscribed", "payload");
    assert!(log.borrow().is_empty());
}

#[test]
fn unsubscribe_from_nonexistent_channel_fails() {
    let log = new_log();
    let mut pubsub = PubSub::new();
    pubsub.add_client(RecordingClient::new(1, "c", &log));

    assert_eq!(
        pubsub.unsub_client(RecordingClient::new(1, "c", &log), "ghost"),
        Err(PubSubError::ChannelDoesNotExistError)
    );
}

#[test]
fn unsubscribe_of_unsubscribed_client_fails() {
    let log = new_log();
    let mut pubsub = PubSub::new();
    pubsub.add_client(RecordingClient::new(1, "c", &log));
    pubsub.add_client(RecordingClient::new(2, "d", &log));
    assert_eq!(pubsub.sub_client(RecordingClient::new(2, "d", &log), "ch"), Ok(()));

    assert_eq!(
        pubsub.unsub_client(RecordingClient::new(1, "c", &log), "ch"),
        Err(PubSubError::ClientNotSubscribedError)
    );
}

#[test]
fn full_scenario_two_clients() {
    let log = new_log();
    let mut pubsub = PubSub::new();
    pubsub.add_client(RecordingClient::new(1, "one", &log));
    pubsub.add_client(RecordingClient::new(2, "two", &log));

    assert_eq!(pubsub.sub_client(RecordingClient::new(1, "one", &log), "a"), Ok(()));
    assert_eq!(pubsub.sub_client(RecordingClient::new(2, "two", &log), "a"), Ok(()));
    assert_eq!(pubsub.sub_client(RecordingClient::new(1, "one", &log), "b"), Ok(()));

    pubsub.pub_message("a", "first");
    assert_eq!(*log.borrow(), vec![(1, "one", "first"), (2, "two", "first")]);
    log.borrow_mut().clear();

    pubsub.pub_message("b", "second");
    assert_eq!(*log.borrow(), vec![(1, "one", "second")]);
    log.borrow_mut().clear();

    assert_eq!(pubsub.unsub_client(RecordingClient::new(1, "one", &log), "a"), Ok(()));
    pubsub.pub_message("a", "third");
    assert_eq!(*log.borrow(), vec![(2, "two", "third")]);
    log.borrow_mut().clear();

    pubsub.remove_client(RecordingClient::new(1, "one", &log));
    pubsub.pub_message("a", "fourth");
    assert_eq!(*log.borrow(), vec![(2, "two", "fourth")]);
}

#[test]
fn re_adding_an_identifier_replaces_the_record() {
    let log = new_log();
    let mut pubsub = PubSub::new();
    pubsub.add_client(RecordingClient::new(1, "old", &log));
    assert_eq!(pubsub.sub_client(RecordingClient::new(1, "old", &log), "ch"), Ok(()));

    pubsub.add_client(RecordingClient::new(1, "new", &log));

    pubsub.pub_message("ch", "payload");
    assert_eq!(*log.borrow(), vec![(1, "new", "payload")]);
}

#[test]
fn delivery_is_in_ascending_identifier_order() {
    let log = new_log();
    let mut pubsub = PubSub::new();
    for (id, tag) in [(3, "three"), (1, "one"), (2, "two")] {
        pubsub.add_client(RecordingClient::new(id, tag, &log));
        assert_eq!(pubsub.sub_client(RecordingClient::new(id, tag, &log), "ch"), Ok(()));
    }

    pubsub.pub_message("ch", "payload");
    assert_eq!(
        *log.borrow(),
        vec![(1, "one", "payload"), (2, "two", "payload"), (3, "three", "payload")]
    );
}

#[test]
fn unsubscribe_keys_patterns_by_the_pattern_string() {
    let log = new_log();
    let mut pubsub = PubSub::new();
    pubsub.add_client(RecordingClient::new(1, "c", &log));
    assert_eq!(pubsub.sub_client(RecordingClient::new(1, "c", &log), "a*"), Ok(()));

    // "a" is a literal name; its table never saw a subscription.
    assert_eq!(
        pubsub.unsub_client(RecordingClient::new(1, "c", &log), "a"),
        Err(PubSubError::ChannelDoesNotExistError)
    );
    assert_eq!(pubsub.unsub_client(RecordingClient::new(1, "c", &log), "a*"), Ok(()));
}

#[test]
fn an_emptied_channel_entry_stays() {
    let log = new_log();
    let mut pubsub = PubSub::new();
    pubsub.add_client(RecordingClient::new(1, "c", &log));
    assert_eq!(pubsub.sub_client(RecordingClient::new(1, "c", &log), "ch"), Ok(()));
    assert_eq!(pubsub.unsub_client(RecordingClient::new(1, "c", &log), "ch"), Ok(()));

    // The channel still exists, so the failure names the client, not the
    // channel.
    assert_eq!(
        pubsub.unsub_client(RecordingClient::new(1, "c", &log), "ch"),
        Err(PubSubError::ClientNotSubscribedError)
    );
}

#[test]
fn stale_subscriber_identifiers_are_skipped() {
    let log = new_log();
    let mut pubsub = PubSub::new();
    // Subscribed but never registered: delivery silently skips it.
    assert_eq!(pubsub.sub_client(RecordingClient::new(9, "ghost", &log), "ch"), Ok(()));

    pubsub.pub_message("ch", "payload");
    assert!(log.borrow().is_empty());
}

#[test]
fn delivery_list_is_deduplicated_and_ascending() {
    let log = new_log();
    let mut pubsub = PubSub::new();
    for id in [5, 3, 9] {
        pubsub.add_client(RecordingClient::new(id, "c", &log));
        assert_eq!(pubsub.sub_client(RecordingClient::new(id, "c", &log), "ch"), Ok(()));
    }
    assert_eq!(pubsub.sub_client(RecordingClient::new(3, "c", &log), "c*"), Ok(()));

    assert_eq!(pubsub.delivery_list("ch"), vec![3, 5, 9]);
    assert_eq!(pubsub.delivery_list("elsewhere"), vec![]);
}

#[test]
fn extreme_identifiers_are_ordered_and_delivered() {
    let log = new_log();
    let mut pubsub = PubSub::new();
    for id in [u64::MAX, 0, 7] {
        pubsub.add_client(RecordingClient::new(id, "c", &log));
        assert_eq!(pubsub.sub_client(RecordingClient::new(id, "c", &log), "ch"), Ok(()));
    }

    assert_eq!(pubsub.delivery_list("ch"), vec![0, 7, u64::MAX]);
}

#[test]
fn the_empty_channel_name_is_a_literal() {
    let log = new_log();
    let mut pubsub = PubSub::new();
    pubsub.add_client(RecordingClient::new(1, "c", &log));
    assert_eq!(pubsub.sub_client(RecordingClient::new(1, "c", &log), ""), Ok(()));

    pubsub.pub_message("", "payload");
    assert_eq!(*log.borrow(), vec![(1, "c", "payload")]);
}

#[test]
fn error_messages_describe_each_variant() {
    assert_eq!(
        PubSubError::ClientAlreadySubscribedError.message(),
        "Client already subscribed to channel."
    );
    assert_eq!(
        PubSubError::ClientNotSubscribedError.message(),
        "Client is not subscribed to channel."
    );
    assert_eq!(PubSubError::ChannelDoesNotExistError.message(), "Channel does not exist.");
    assert_eq!(
        PubSubError::ClientWithIdentifierAlreadyExistsError.message(),
        "Client with that identifier already exists."
    );
    assert_eq!(PubSubError::ClientDoesNotExistError.message(), "Client does not exist.");
}
