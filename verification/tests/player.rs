use fung_preng_app::commands::{prefetch_ids, resolve_url_source, usable_direct_url, UrlSource, needs_prefetch};
use fung_preng_app::cache::CacheManager;
use fung_preng_app::player::{
    channel_count, config_matches, frame_count, playback_finished, push_step, ring_capacity, stream_decode_step,
    stream_packet_step, track_decode_step, track_packet_step, turn_step, DecodeOutcome, PacketRead, Step,
};

#[test]
fn playback_turns() {
    assert_eq!(turn_step(true, true), Step::Stop);
    assert_eq!(turn_step(false, true), Step::Sleep(50));
    assert_eq!(turn_step(false, false), Step::Decode);
}

#[test]
fn packets_while_streaming() {
    assert_eq!(stream_packet_step(PacketRead::Packet(1), 1), Step::Decode);
    assert_eq!(stream_packet_step(PacketRead::Packet(2), 1), Step::Skip);
    assert_eq!(stream_packet_step(PacketRead::EndOfInput, 1), Step::Stop);
    assert_eq!(stream_packet_step(PacketRead::IoFailure, 1), Step::Stop);
    assert_eq!(stream_packet_step(PacketRead::Failure, 1), Step::Skip);
    assert_eq!(stream_decode_step(DecodeOutcome::Decoded), Step::Keep);
    assert_eq!(stream_decode_step(DecodeOutcome::Failure), Step::Skip);
}

#[test]
fn packets_while_decoding_a_track() {
    assert_eq!(track_packet_step(PacketRead::Packet(3), 3), Step::Decode);
    assert_eq!(track_packet_step(PacketRead::EndOfInput, 3), Step::Stop);
    assert_eq!(track_packet_step(PacketRead::IoFailure, 3), Step::Fail);
    assert_eq!(track_packet_step(PacketRead::Failure, 3), Step::Fail);
    assert_eq!(track_decode_step(DecodeOutcome::BadPacket), Step::Skip);
    assert_eq!(track_decode_step(DecodeOutcome::Failure), Step::Fail);
}

#[test]
fn ring_buffer_pushes() {
    assert_eq!(push_step(false, true, true), Step::Keep);
    assert_eq!(push_step(true, true, false), Step::Stop);
    assert_eq!(push_step(true, false, true), Step::Keep);
    assert_eq!(push_step(true, false, false), Step::Sleep(5));
    assert_eq!(ring_capacity(48000, 2), 192000);
}

#[test]
fn small_numbers() {
    assert_eq!(channel_count(None), 2);
    assert_eq!(channel_count(Some(6)), 6);
    assert_eq!(frame_count(10, 0), 10);
    assert_eq!(frame_count(11, 2), 5);
    assert!(config_matches(2, 8000, 48000, 2, 44100));
    assert!(!config_matches(2, 8000, 32000, 2, 44100));
    assert!(config_matches(2, 8000, 48000, 65538, 44100));
    assert!(playback_finished(10, 10));
    assert!(!playback_finished(9, 10));
}

#[test]
fn url_resolution_order() {
    let mut c = CacheManager::default_dir();
    assert!(matches!(resolve_url_source(Some("https://d".to_string()), &c, "v", 0), UrlSource::Direct(u) if u == "https://d"));
    assert!(matches!(resolve_url_source(Some("  ".to_string()), &c, "v", 0), UrlSource::Extract));
    c.save_url_cache("v".to_string(), "https://c".to_string(), 0);
    assert!(matches!(resolve_url_source(None, &c, "v", 5), UrlSource::Cached(u) if u == "https://c"));
    assert!(matches!(resolve_url_source(Some(String::new()), &c, "v", 5), UrlSource::Cached(_)));
    assert_eq!(usable_direct_url(Some(" x ".to_string())), Some(" x ".to_string()));
    assert!(!needs_prefetch(&c, "v", 5));
    assert!(needs_prefetch(&c, "w", 5));
}

#[test]
fn prefetch_first_three() {
    let ids: Vec<String> = ["a", "b", "c", "d"].iter().map(|s| s.to_string()).collect();
    assert_eq!(prefetch_ids(ids), vec!["a", "b", "c"]);
    assert_eq!(prefetch_ids(vec!["a".to_string()]), vec!["a"]);
}
