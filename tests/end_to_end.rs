//! A publisher and a subscriber in one process, over moq-lite's in-memory
//! broadcast, each driven by the library's session state.

use std::collections::HashMap;

use moq_wrapper::catalog::{Catalog, CatalogType, SesameCatalog, TrackDefinition, CATALOG_TRACK};
use moq_wrapper::session::{BroadcastLookup, SessionState, SessionType};

fn runtime() -> tokio::runtime::Runtime {
    tokio::runtime::Builder::new_current_thread().enable_all().build().unwrap()
}

#[test]
fn publish_and_subscribe_round_trip() {
    runtime().block_on(async {
        // Publisher side.
        let seconds = TrackDefinition::data("seconds", 0);
        let mut publisher = SessionState::new(SessionType::Publisher, "clock");
        publisher.add_track_definition(seconds.clone());
        let catalog = Catalog::new(CatalogType::Sesame, &[seconds.clone()]).unwrap();
        publisher.set_catalog(catalog).unwrap();

        let mut broadcast = moq_lite::Broadcast::new().produce();
        let mut producers: HashMap<String, moq_lite::TrackProducer> = HashMap::new();
        for name in publisher.list_tracks() {
            let track = broadcast.create_track(moq_lite::Track::new(name.clone())).unwrap();
            producers.insert(name, track);
        }
        assert!(publisher.on_connected());
        let flat = match publisher.catalog_to_publish().unwrap() {
            Catalog::Sesame(c) => c.to_json_bytes(),
            Catalog::Hang(_) => unreachable!(),
        };
        producers.get_mut(CATALOG_TRACK).unwrap().write_frame(flat).unwrap();
        assert!(!publisher.on_connected());

        // Subscriber side: the broadcast is announced.
        let mut subscriber = SessionState::new(SessionType::Subscriber, "clock");
        subscriber.on_connected();
        assert!(subscriber.enable_auto_subscription("clock", CatalogType::Sesame, vec![seconds.clone()]));
        let plan = subscriber.on_announcement("clock", true).subscription.unwrap();
        assert!(plan.subscribe_catalog);
        assert_eq!(plan.tracks, vec!["seconds".to_string()]);

        let consumer = broadcast.consume();
        let mut consumes = 0;
        let mut subscribe = |state: &mut SessionState| {
            if state.subscribe_broadcast("clock").unwrap() == BroadcastLookup::Consume {
                consumes += 1;
                state.broadcast_consumed("clock", true).unwrap();
            }
        };
        subscribe(&mut subscriber);
        let mut catalog_track = consumer.subscribe_track(&moq_lite::Track::new(CATALOG_TRACK)).unwrap();
        subscribe(&mut subscriber);
        let mut data_track = consumer.subscribe_track(&moq_lite::Track::new("seconds")).unwrap();
        assert_eq!(consumes, 1);

        // The catalog arrives as one group with one frame.
        let mut group = catalog_track.next_group().await.unwrap().unwrap();
        let frame = group.read_frame().await.unwrap().unwrap();
        let received = SesameCatalog::from_json_bytes(&frame).unwrap();
        assert!(received.find_track("seconds").is_some());
        assert!(subscriber.auto_subscription_catalog(Catalog::Sesame(received)));

        // The publisher writes two single-frame groups.
        let mut sequences = Vec::new();
        for payload in [b"00".to_vec(), b"01".to_vec()] {
            let plan = publisher.write_single_frame("seconds").unwrap();
            sequences.push(plan.opened);
            let track = producers.get_mut("seconds").unwrap();
            let mut group = track.create_group(moq_lite::Group { sequence: plan.opened }).unwrap();
            group.write_frame(payload).unwrap();
            group.finish().unwrap();
        }
        assert!(sequences[1] > sequences[0]);

        // The subscriber's callback sees both frames, in order.
        let mut delivered: Vec<(String, Vec<u8>)> = Vec::new();
        subscriber.auto_subscription_track("seconds", true);
        while delivered.len() < 2 && subscriber.is_auto_subscription_active() {
            let mut group = data_track.next_group().await.unwrap().unwrap();
            while let Some(frame) = group.read_frame().await.unwrap() {
                delivered.push(("seconds".to_string(), frame.to_vec()));
            }
        }
        assert_eq!(
            delivered,
            vec![("seconds".to_string(), b"00".to_vec()), ("seconds".to_string(), b"01".to_vec())]
        );
        assert_eq!(subscriber.get_auto_subscription_active_tracks(), vec!["seconds".to_string()]);
    });
}

#[test]
fn grouped_catalog_published_once() {
    let tracks = vec![TrackDefinition::video("hd", 1), TrackDefinition::audio("data", 1)];
    let mut publisher = SessionState::new(SessionType::Publisher, "b");
    for t in &tracks {
        publisher.add_track_definition(t.clone());
    }
    publisher.set_catalog(Catalog::new(CatalogType::Hang, &tracks).unwrap()).unwrap();
    let mut groups_on_catalog = 0;
    for _ in 0..3 {
        if publisher.on_connected() {
            groups_on_catalog += 1;
        }
    }
    assert_eq!(groups_on_catalog, 1);
    match publisher.catalog_to_publish().unwrap() {
        Catalog::Hang(h) => {
            let video = h.video.as_ref().unwrap();
            let audio = h.audio.as_ref().unwrap();
            assert_eq!(video.renditions[0].name, "hd");
            assert_eq!(audio.renditions[0].name, "data");
        }
        Catalog::Sesame(_) => unreachable!(),
    }
}
