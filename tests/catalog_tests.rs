use moq_wrapper::config::WrapperError;
use moq_wrapper::catalog::{
    default_audio_config, default_video_config, Catalog, CatalogType, HangCatalog, SesameCatalog,
    TrackDefinition, TrackType,
};

#[test]
fn test_track_definition() {
    let track = TrackDefinition::video("test-video", 1);
    assert_eq!(track.name, "test-video");
    assert_eq!(track.priority, 1);
    assert_eq!(track.track_type, TrackType::Video);
}

#[test]
fn test_sesame_catalog() {
    let tracks = vec![
        TrackDefinition::video("video1", 1),
        TrackDefinition::audio("audio1", 0),
        TrackDefinition::data("data1", 2),
    ];

    let catalog = SesameCatalog::from_tracks(&tracks);
    assert_eq!(catalog.tracks.len(), 3);

    let json = catalog.to_json().unwrap();
    let parsed = SesameCatalog::from_json(&json).unwrap();
    assert_eq!(parsed.tracks.len(), 3);

    assert!(catalog.find_track("video1").is_some());
    assert!(catalog.find_track("nonexistent").is_none());
}

#[test]
fn test_catalog_creation() {
    let tracks = vec![TrackDefinition::video("test", 1)];

    let none_catalog = Catalog::new(CatalogType::NoCatalog, &tracks);
    assert!(none_catalog.is_none());

    let sesame_catalog = Catalog::new(CatalogType::Sesame, &tracks);
    assert!(sesame_catalog.is_some());

    if let Some(Catalog::Sesame(catalog)) = sesame_catalog {
        assert!(catalog.find_track("test").is_some());
    }
}

#[test]
fn flat_catalog_keeps_order_and_fields() {
    let tracks = vec![
        TrackDefinition::video("video1", 1),
        TrackDefinition::audio("audio1", 0),
        TrackDefinition::data("data1", 2),
    ];
    let catalog = SesameCatalog::from_tracks(&tracks);
    assert_eq!(catalog.tracks.len(), 3);
    assert_eq!(catalog.tracks[0].track_name, "video1");
    assert_eq!(catalog.tracks[0].track_type, TrackType::Video);
    assert_eq!(catalog.tracks[1].track_name, "audio1");
    assert_eq!(catalog.tracks[1].priority, 0);
    assert_eq!(catalog.tracks[2].track_type, TrackType::Data);
    assert_eq!(catalog.tracks[2].priority, 2);
    assert!(catalog.find_track("nonexistent").is_none());
}

#[test]
fn flat_find_track_returns_first_match() {
    let tracks = vec![TrackDefinition::video("same", 1), TrackDefinition::audio("same", 7)];
    let catalog = SesameCatalog::from_tracks(&tracks);
    let found = catalog.find_track("same").unwrap();
    assert_eq!(found.priority, 1);
    assert_eq!(found.track_type, TrackType::Video);
}

#[test]
fn flat_catalog_of_no_tracks_is_empty() {
    let catalog = SesameCatalog::from_tracks(&[]);
    assert!(catalog.tracks.is_empty());
    assert!(catalog.find_track("").is_none());
}

#[test]
fn grouped_catalog_from_tracks() {
    let tracks = vec![
        TrackDefinition::video("video1", 1),
        TrackDefinition::audio("audio1", 2),
    ];
    let catalog = HangCatalog::from_tracks(&tracks);
    assert!(catalog.find_track("video1"));
    assert!(catalog.find_track("audio1"));
    assert!(!catalog.find_track("nonexistent"));
    let video = catalog.video.as_ref().unwrap();
    assert_eq!(video.priority, 1);
    assert_eq!(video.renditions.len(), 1);
    assert_eq!(video.renditions[0].name, "video1");
    assert_eq!(video.renditions[0].config.codec, "avc1.42001e");
    assert_eq!(video.renditions[0].config.coded_width, Some(1280));
    assert_eq!(video.renditions[0].config.coded_height, Some(720));
    assert_eq!(video.renditions[0].config.bitrate, Some(2_000_000));
    assert_eq!(video.renditions[0].config.framerate, Some(30));
    let audio = catalog.audio.as_ref().unwrap();
    assert_eq!(audio.priority, 2);
    assert_eq!(audio.renditions[0].config.codec, "opus");
    assert_eq!(audio.renditions[0].config.sample_rate, 48000);
    assert_eq!(audio.renditions[0].config.channel_count, 2);
    assert_eq!(audio.renditions[0].config.bitrate, Some(128_000));
    assert!(catalog.preview.is_none());
    assert!(catalog.location.is_none());
}

#[test]
fn grouped_catalog_keeps_every_rendition_and_last_priority() {
    let tracks = vec![
        TrackDefinition::video("hd", 3),
        TrackDefinition::video("sd", 300),
        TrackDefinition::video("hd", 5),
    ];
    let catalog = HangCatalog::from_tracks(&tracks);
    let video = catalog.video.as_ref().unwrap();
    assert_eq!(video.renditions.len(), 2);
    assert!(catalog.find_track("hd"));
    assert!(catalog.find_track("sd"));
    // The section priority is the last definition's, as a u8.
    assert_eq!(video.priority, 5);
    let wrapped = HangCatalog::from_tracks(&[TrackDefinition::video("v", 300)]);
    assert_eq!(wrapped.video.unwrap().priority, 44);
}

#[test]
fn grouped_catalog_preview_is_last_data_track_but_not_catalog() {
    let tracks = vec![
        TrackDefinition::data("first", 1),
        TrackDefinition::data("second", 2),
        TrackDefinition::data("catalog.json", 9),
    ];
    let catalog = HangCatalog::from_tracks(&tracks);
    let preview = catalog.preview.as_ref().unwrap();
    assert_eq!(preview.name, "second");
    assert_eq!(preview.priority, 2);
    assert!(!catalog.find_track("first"));
    assert!(!catalog.find_track("catalog.json"));
    assert!(catalog.video.is_none());
    assert!(catalog.audio.is_none());
}

#[test]
fn grouped_add_tracks_insert_and_replace() {
    let mut catalog = HangCatalog::new();
    catalog.add_video_track("video".to_string(), default_video_config(), 1);
    catalog.add_audio_track("audio".to_string(), default_audio_config(), 2);
    let mut other = default_video_config();
    other.codec = "avc1.64001f".to_string();
    other.bitrate = Some(6_000_000);
    catalog.add_video_track("video".to_string(), other, 9);
    assert!(catalog.find_track("video"));
    assert!(catalog.find_track("audio"));
    let video = catalog.video.as_ref().unwrap();
    assert_eq!(video.renditions.len(), 1);
    assert_eq!(video.renditions[0].config.codec, "avc1.64001f");
    assert_eq!(video.renditions[0].config.bitrate, Some(6_000_000));
    // The section keeps the priority it was created with.
    assert_eq!(video.priority, 1);
    assert_eq!(catalog.audio.as_ref().unwrap().priority, 2);
}

#[test]
fn catalog_built_from_tracks_lists_each_track() {
    let tracks = vec![
        TrackDefinition::video("hd", 1),
        TrackDefinition::audio("data", 1),
        TrackDefinition::data("chat", 0),
    ];
    for format in [CatalogType::Sesame, CatalogType::Hang] {
        let catalog = Catalog::new(format, &tracks).unwrap();
        for t in &tracks {
            assert!(catalog.find_track(&t.name));
        }
        assert!(!catalog.find_track("missing"));
    }
}

#[test]
fn track_type_names() {
    assert_eq!(TrackType::Video.as_str(), "video");
    assert_eq!(TrackType::Audio.as_str(), "audio");
    assert_eq!(TrackType::Data.as_str(), "data");
}

#[test]
fn flat_json_exact_text() {
    let catalog = SesameCatalog::from_tracks(&[TrackDefinition::video("v\"1", 7)]);
    let json = catalog.to_json().unwrap();
    assert_eq!(json, r#"{"tracks":[{"type":"video","trackName":"v\"1","priority":7}]}"#);
    let empty = SesameCatalog::from_tracks(&[]);
    assert_eq!(empty.to_json().unwrap(), r#"{"tracks":[]}"#);
}

#[test]
fn flat_json_round_trip_keeps_everything() {
    let tracks = vec![
        TrackDefinition::video("caméra\\1", 4_000_000_000),
        TrackDefinition::audio("tab\there", 0),
        TrackDefinition::data("", 12),
    ];
    let catalog = SesameCatalog::from_tracks(&tracks);
    let back = SesameCatalog::from_json_bytes(&catalog.to_json_bytes()).unwrap();
    assert_eq!(back.tracks.len(), 3);
    for (a, b) in catalog.tracks.iter().zip(back.tracks.iter()) {
        assert_eq!(a.track_name, b.track_name);
        assert_eq!(a.track_type, b.track_type);
        assert_eq!(a.priority, b.priority);
    }
}

#[test]
fn flat_json_accepts_spacing_order_and_unknown_fields() {
    let text = r#"
      { "version": [1, {"x": "}"}], "tracks" : [
          { "priority": 3, "extra": null, "trackName": "aA\/b", "type": "audio" } ,
          {"type":"data","trackName":"c","priority":0, "note": "x,y"}
        ] , "other": true }
    "#;
    let c = SesameCatalog::from_json(text).unwrap();
    assert_eq!(c.tracks.len(), 2);
    assert_eq!(c.tracks[0].track_name, "aA/b");
    assert_eq!(c.tracks[0].track_type, TrackType::Audio);
    assert_eq!(c.tracks[0].priority, 3);
    assert_eq!(c.tracks[1].track_name, "c");
    assert_eq!(c.tracks[1].track_type, TrackType::Data);
}

#[test]
fn flat_json_rejects_malformed_documents() {
    for text in [
        "",
        "{}",
        "[]",
        r#"{"tracks":[{"type":"video","trackName":"a"}]}"#,
        r#"{"tracks":[{"type":"film","trackName":"a","priority":1}]}"#,
        r#"{"tracks":[{"type":"video","trackName":"a","priority":4294967296}]}"#,
        r#"{"tracks":[{"type":"video","trackName":"a","priority":-1}]}"#,
        r#"{"tracks":[] } trailing"#,
        r#"{"tracks":[{"type":"video","trackName":"a","priority":1},]}"#,
    ] {
        assert!(
            matches!(SesameCatalog::from_json(text), Err(WrapperError::Malformed(_))),
            "accepted {text:?}"
        );
    }
    let bad_utf8 = b"{\"tracks\":[{\"type\":\"data\",\"trackName\":\"\xff\",\"priority\":1}]}";
    assert!(matches!(SesameCatalog::from_json_bytes(bad_utf8), Err(WrapperError::Malformed(_))));
}
