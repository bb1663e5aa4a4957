use moq_wrapper::catalog::{Catalog, CatalogType, TrackDefinition};
use moq_wrapper::config::{ConnectionConfig, SessionConfig, WrapperError};
use moq_wrapper::session::{
    is_session_log_target, starts_with, BroadcastLookup, SessionEvent, SessionState, SessionType,
};
use moq_wrapper::subscription::{
    BroadcastSubscriptionManager, GroupOutcome, MaintainerStep, NextGroupStep, ResilientTrackConsumer,
    SubscriptionManager,
};
use moq_wrapper::track::StreamPublisher;

fn connected_publisher(track: &str, first: u64) -> SessionState {
    let mut s = SessionState::new(SessionType::Publisher, "test-broadcast");
    s.add_track_definition_with_start(TrackDefinition::data(track, 0), first);
    assert!(!s.on_connected());
    s
}

#[test]
fn write_before_connected_is_refused() {
    let mut s = SessionState::new(SessionType::Publisher, "b");
    s.add_track_definition_with_start(TrackDefinition::data("t", 0), 7);
    assert_eq!(s.write_frame("t", false), Err(WrapperError::NotConnected));
    assert_eq!(s.write_single_frame("t"), Err(WrapperError::NotConnected));
    assert_eq!(s.start_group("t"), Err(WrapperError::NotConnected));
    // No group was opened and the counter did not move.
    assert_eq!(s.open_group("t"), None);
    assert_eq!(s.next_sequence("t"), Some(7));
}

#[test]
fn write_after_close_opens_a_new_group() {
    let mut s = connected_publisher("t", 100);
    let first = s.write_frame("t", false).unwrap();
    assert_eq!(first.group, 100);
    assert_eq!(first.start.unwrap().closed, None);
    let again = s.write_frame("t", false).unwrap();
    assert_eq!(again.group, 100);
    assert!(again.start.is_none());
    assert_eq!(s.close_group("t"), Ok(Some(100)));
    assert_eq!(s.close_group("t"), Ok(None));
    let next = s.write_frame("t", false).unwrap();
    assert_eq!(next.group, 101);
    assert_eq!(next.start.unwrap().closed, None);
    let fresh = s.write_frame("t", true).unwrap();
    assert_eq!(fresh.group, 102);
    assert_eq!(fresh.start.unwrap().closed, Some(101));
}

#[test]
fn start_group_closes_the_open_group_first() {
    let mut s = connected_publisher("t", 42);
    let a = s.start_group("t").unwrap();
    assert_eq!(a.closed, None);
    let b = s.start_group("t").unwrap();
    assert_eq!(b.closed, Some(a.opened));
    assert!(b.opened > a.opened);
    assert_eq!(s.open_group("t"), Some(b.opened));
}

#[test]
fn single_frame_groups_increase() {
    let mut s = connected_publisher("seconds", 1);
    let g0 = s.write_single_frame("seconds").unwrap();
    let g1 = s.write_single_frame("seconds").unwrap();
    assert_eq!(g0.opened, 1);
    assert_eq!(g1.opened, 2);
    assert_eq!(g1.closed, None);
    assert_eq!(s.open_group("seconds"), None);
}

#[test]
fn empty_frame_is_a_frame() {
    let mut s = connected_publisher("t", 5);
    let frame: Vec<u8> = Vec::new();
    assert!(frame.is_empty());
    let plan = s.write_frame("t", false).unwrap();
    assert_eq!(plan.group, 5);
}

#[test]
fn sequence_keeps_increasing_across_reconnect() {
    let mut s = connected_publisher("t", 10);
    let g = s.write_single_frame("t").unwrap();
    s.start_group("t").unwrap();
    s.on_disconnected();
    assert!(!s.is_connected());
    assert_eq!(s.open_group("t"), None);
    assert_eq!(s.write_frame("t", false), Err(WrapperError::NotConnected));
    s.on_connected();
    let after = s.write_frame("t", false).unwrap();
    assert!(after.group > g.opened + 1);
    assert_eq!(after.group, 12);
}

#[test]
fn unknown_track_and_wrong_role() {
    let mut s = connected_publisher("t", 1);
    assert_eq!(s.write_frame("nope", false), Err(WrapperError::TrackNotFound("nope".to_string())));
    assert_eq!(s.close_group("nope"), Ok(None));
    let mut sub = SessionState::new(SessionType::Subscriber, "b");
    sub.on_connected();
    assert!(matches!(sub.start_group("t"), Err(WrapperError::Session(_))));
    assert!(matches!(sub.write_frame("t", true), Err(WrapperError::Session(_))));
    assert!(matches!(sub.close_group("t"), Err(WrapperError::Session(_))));
    let catalog = Catalog::new(CatalogType::Sesame, &[]).unwrap();
    assert!(matches!(sub.set_catalog(catalog), Err(WrapperError::Session(_))));
    assert!(matches!(s.subscribe_broadcast("x"), Err(WrapperError::Session(_))));
}

#[test]
fn track_registered_while_connected_waits_for_its_producer() {
    let mut s = connected_publisher("t", 1);
    s.add_track_definition_with_start(TrackDefinition::video("late", 0), 3);
    assert!(matches!(s.start_group("late"), Err(WrapperError::Session(_))));
    s.on_disconnected();
    s.on_connected();
    assert_eq!(s.start_group("late").unwrap().opened, 3);
}

#[test]
fn random_first_sequence_in_range() {
    let mut s = SessionState::new(SessionType::Publisher, "b");
    for name in ["a", "b", "c", "d"] {
        s.add_track_definition(TrackDefinition::data(name, 0));
        let seq = s.next_sequence(name).unwrap();
        assert!((1..=10_000).contains(&seq));
    }
    assert_eq!(s.list_tracks(), vec!["a", "b", "c", "d"]);
    // Registering a name again keeps its counter.
    let before = s.next_sequence("a");
    s.add_track_definition(TrackDefinition::video("a", 5));
    assert_eq!(s.next_sequence("a"), before);
    assert_eq!(s.list_tracks().len(), 4);
}

#[test]
fn catalog_published_once_per_connection() {
    let mut s = SessionState::new(SessionType::Publisher, "b");
    let tracks = vec![TrackDefinition::video("hd", 1), TrackDefinition::audio("data", 1)];
    for t in &tracks {
        s.add_track_definition(t.clone());
    }
    let catalog = Catalog::new(CatalogType::Hang, &tracks).unwrap();
    s.set_catalog(catalog).unwrap();
    assert!(s.list_tracks().contains(&"catalog.json".to_string()));
    assert!(s.on_connected());
    assert!(!s.on_connected());
    let published = s.catalog_to_publish().unwrap();
    assert!(published.find_track("hd"));
    assert!(published.find_track("data"));
    s.on_disconnected();
    assert!(s.on_connected());
}

#[test]
fn broadcast_consumed_once_per_connection() {
    let mut s = SessionState::new(SessionType::Subscriber, "b");
    assert_eq!(s.subscribe_broadcast("X"), Err(WrapperError::NotConnected));
    s.on_connected();
    let mut consumes = 0;
    for _ in 0..10 {
        match s.subscribe_broadcast("X").unwrap() {
            BroadcastLookup::Consume => {
                consumes += 1;
                s.broadcast_consumed("X", true).unwrap();
            }
            BroadcastLookup::Cached => {}
        }
    }
    assert_eq!(consumes, 1);
    assert_eq!(s.consume_count(), 1);
    s.on_disconnected();
    assert_eq!(s.consume_count(), 0);
    s.on_connected();
    assert_eq!(s.subscribe_broadcast("X"), Ok(BroadcastLookup::Consume));
}

#[test]
fn missing_broadcast_is_reported() {
    let mut s = SessionState::new(SessionType::Subscriber, "b");
    s.on_connected();
    assert_eq!(s.subscribe_broadcast("X"), Ok(BroadcastLookup::Consume));
    assert_eq!(s.broadcast_consumed("X", false), Err(WrapperError::BroadcastNotFound("X".to_string())));
    assert_eq!(s.subscribe_broadcast("X"), Ok(BroadcastLookup::Consume));
    assert_eq!(s.consume_count(), 2);
}

#[test]
fn withdrawal_drops_cached_consumer() {
    let mut s = SessionState::new(SessionType::Subscriber, "b");
    s.on_connected();
    s.subscribe_broadcast("X").unwrap();
    s.broadcast_consumed("X", true).unwrap();
    let out = s.on_announcement("Y", false);
    assert_eq!(out.event, SessionEvent::BroadcastUnannounced { path: "Y".to_string() });
    assert_eq!(s.subscribe_broadcast("X"), Ok(BroadcastLookup::Cached));
    s.on_announcement("X", false);
    assert_eq!(s.subscribe_broadcast("X"), Ok(BroadcastLookup::Consume));
    let on = s.on_announcement("X", true);
    assert_eq!(on.event, SessionEvent::BroadcastAnnounced { path: "X".to_string() });
    assert!(on.subscription.is_none());
}

#[test]
fn enabling_auto_subscription_twice_is_idempotent() {
    let mut s = SessionState::new(SessionType::Subscriber, "b");
    s.on_connected();
    let tracks = vec![TrackDefinition::data("seconds", 0)];
    assert!(s.enable_auto_subscription("clock", CatalogType::Sesame, tracks.clone()));
    assert!(!s.enable_auto_subscription("clock", CatalogType::Sesame, tracks.clone()));
    let first = s.on_announcement("clock", true).subscription.unwrap();
    assert!(first.subscribe_catalog);
    assert_eq!(first.tracks, vec!["seconds".to_string()]);
    let second = s.on_announcement("clock", true).subscription.unwrap();
    assert!(!second.subscribe_catalog);
    assert!(second.tracks.is_empty());
    assert!(s.is_auto_subscription_active());
    s.auto_subscription_track("seconds", true);
    assert_eq!(s.get_auto_subscription_active_tracks(), vec!["seconds".to_string()]);
    let catalog = Catalog::new(CatalogType::Sesame, &tracks).unwrap();
    assert!(s.auto_subscription_catalog(catalog));
    assert!(s.get_auto_subscription_catalog().unwrap().find_track("seconds"));
    assert!(s.disable_auto_subscription());
    assert!(!s.disable_auto_subscription());
    assert!(!s.is_auto_subscription_active());
    assert!(s.get_auto_subscription_active_tracks().is_empty());
}

#[test]
fn subscription_manager_waits_for_its_broadcast() {
    let tracks = vec![TrackDefinition::video("v", 1), TrackDefinition::audio("a", 1)];
    let mut m = BroadcastSubscriptionManager::new("X", CatalogType::NoCatalog, tracks);
    let other = m.on_announcement("Y");
    assert!(other.tracks.is_empty());
    assert!(!m.is_active());
    let plan = m.on_announcement("X");
    assert!(!plan.subscribe_catalog);
    assert_eq!(plan.tracks, vec!["v".to_string(), "a".to_string()]);
    assert!(m.is_active());
    m.on_track_subscribed("v");
    m.on_track_subscribed("a");
    m.on_track_subscribed("v");
    assert_eq!(m.get_active_tracks(), vec!["v".to_string(), "a".to_string()]);
    m.on_track_ended("v");
    assert_eq!(m.get_active_tracks(), vec!["a".to_string()]);
    m.stop();
    m.stop();
    assert!(!m.is_active());
    assert!(m.get_active_tracks().is_empty());
    assert!(m.get_catalog().is_none());
}

#[test]
fn resilient_consumer_resets_on_each_epoch() {
    let mut c = ResilientTrackConsumer::new("X", "t");
    assert_eq!(c.maintain(false), MaintainerStep::WaitForConnection);
    assert_eq!(c.maintain(true), MaintainerStep::Subscribe);
    assert_eq!(c.next_group(), NextGroupStep::Wait);
    c.on_subscribed(true);
    assert_eq!(c.generation_count(), 1);
    assert_eq!(c.next_group(), NextGroupStep::Delegate);
    assert!(c.on_group(GroupOutcome::Group));
    assert_eq!(c.maintain(true), MaintainerStep::Idle);
    // Events for other broadcasts leave the consumer alone.
    assert!(!c.on_broadcast_event("Y"));
    assert!(c.is_holding());
    // The withdrawal drops consumer A.
    assert!(c.on_broadcast_event("X"));
    assert_eq!(c.next_group(), NextGroupStep::Wait);
    // The next announcement finds nothing to drop; the maintainer subscribes B.
    assert!(!c.on_broadcast_event("X"));
    assert_eq!(c.maintain(true), MaintainerStep::Subscribe);
    c.on_subscribed(true);
    assert_eq!(c.generation_count(), 2);
    assert_eq!(c.next_group(), NextGroupStep::Delegate);
}

#[test]
fn resilient_consumer_drops_on_end_or_error() {
    let mut c = ResilientTrackConsumer::new("X", "t");
    c.on_subscribed(false);
    assert!(!c.is_holding());
    assert_eq!(c.generation_count(), 0);
    c.on_subscribed(true);
    assert!(!c.on_group(GroupOutcome::Ended));
    assert!(!c.is_holding());
    c.on_subscribed(true);
    assert!(!c.on_group(GroupOutcome::Failed));
    assert_eq!(c.maintain(true), MaintainerStep::Subscribe);
}

#[test]
fn session_config_checks_the_url() {
    let c = SessionConfig::new("test-broadcast", "https://example.com/test").unwrap();
    assert_eq!(c.broadcast_name, "test-broadcast");
    assert_eq!(c.connection.url, "https://example.com/test");
    assert!(c.auto_reconnect);
    assert_eq!(c.connection.reconnect_delay_ms, 500);
    assert_eq!(c.connection.max_reconnect_delay_ms, 10_000);
    assert!(matches!(SessionConfig::new("b", "not a url"), Err(WrapperError::InvalidConfig(_))));
    assert!(matches!(SessionConfig::with_checked_url("b", "x", false), Err(WrapperError::InvalidConfig(_))));
    assert!(SessionConfig::with_checked_url("b", "x", true).is_ok());
}

#[test]
fn backoff_doubles_and_clamps() {
    let c = ConnectionConfig::default_config();
    assert_eq!(c.url, "https://relay.moq.dev/anon");
    assert_eq!(c.next_reconnect_delay(500), 1000);
    assert_eq!(c.next_reconnect_delay(4000), 8000);
    assert_eq!(c.next_reconnect_delay(6000), 10_000);
    assert_eq!(c.next_reconnect_delay(u64::MAX), 10_000);
    assert!(c.may_retry(1_000_000));
    let limited = ConnectionConfig { max_reconnect_attempts: 3, ..c };
    assert!(limited.may_retry(2));
    assert!(!limited.may_retry(3));
}

#[test]
fn session_log_targets() {
    assert!(is_session_log_target("moq_wrapper::session"));
    assert!(is_session_log_target("moq_wrapper::session::inner"));
    assert!(is_session_log_target("moq_ffi::x"));
    assert!(is_session_log_target("session"));
    assert!(!is_session_log_target("moq_wrapper::catalog"));
    assert!(!is_session_log_target("sess"));
    assert!(starts_with("abc", ""));
    assert!(!starts_with("", "a"));
}

#[test]
fn error_messages() {
    assert_eq!(WrapperError::TrackNotFound("t".to_string()).message(), "t");
    assert_eq!(WrapperError::NotConnected.message(), "session not connected");
}

#[test]
fn stream_publisher_numbers_groups_from_zero() {
    let mut p = StreamPublisher::new();
    assert!(matches!(p.write_frame(), Err(WrapperError::Session(_))));
    let a = p.start_group().unwrap();
    assert_eq!(a.opened, 0);
    assert_eq!(a.closed, None);
    assert_eq!(p.write_frame(), Ok(0));
    let b = p.start_group().unwrap();
    assert_eq!(b.closed, Some(0));
    assert_eq!(b.opened, 1);
    let c = p.write_single_frame().unwrap();
    assert_eq!(c.closed, Some(1));
    assert_eq!(c.opened, 2);
    assert!(p.write_frame().is_err());
    assert_eq!(p.close_group(), None);
}

#[test]
fn subscription_manager_refuses_duplicates() {
    let mut m = SubscriptionManager::new();
    assert!(m.subscribe_track_with_callback("b", "t").is_ok());
    assert!(matches!(m.subscribe_track_with_callback("b", "t"), Err(WrapperError::Session(_))));
    assert!(m.subscribe_track_with_callback("b", "u").is_ok());
    assert_eq!(m.active_subscription_count(), 2);
    assert!(m.remove_subscription("b", "t"));
    assert!(!m.remove_subscription("b", "t"));
    assert_eq!(m.active_subscription_count(), 1);
    m.shutdown();
    assert_eq!(m.active_subscription_count(), 0);
}
