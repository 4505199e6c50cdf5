use notata::dedup::fingerprint::{
    after_decode, after_read, fingerprint_finish, fingerprint_start, pick_track, AfterDecode, AfterRead, Decoded, PacketRead,
    TrackInfo, MAX_DECODE_SECONDS,
};

#[test]
fn the_first_track_with_a_known_codec_is_decoded() {
    let tracks = vec![
        TrackInfo { id: 3, null_codec: true },
        TrackInfo { id: 7, null_codec: false },
        TrackInfo { id: 9, null_codec: false },
    ];
    assert_eq!(pick_track(&tracks), Ok(7));
}

#[test]
fn a_file_without_a_known_codec_is_refused() {
    let tracks = vec![TrackInfo { id: 1, null_codec: true }];
    assert_eq!(pick_track(&tracks), Err("No decodable audio track".to_string()));
    assert_eq!(pick_track(&[]), Err("No decodable audio track".to_string()));
}

#[test]
fn packets_of_other_tracks_are_skipped() {
    let st = fingerprint_start(2);
    assert!(matches!(after_read(&st, &PacketRead::Packet { track_id: 2, frames: 10 }), AfterRead::Decode));
    assert!(matches!(after_read(&st, &PacketRead::Packet { track_id: 5, frames: 10 }), AfterRead::Skip));
    assert!(matches!(after_read(&st, &PacketRead::End), AfterRead::Finish));
    match after_read(&st, &PacketRead::Failed("bad".to_string())) {
        AfterRead::Fail(m) => assert_eq!(m, "bad"),
        _ => panic!("a read error gives up"),
    }
}

#[test]
fn decoding_stops_after_two_minutes_of_audio() {
    let st = fingerprint_start(1);
    let (st, action) = after_decode(&st, &Decoded::Audio { rate: 100, channels: 2 }, 6000);
    match action {
        AfterDecode::Consume { start, stop } => {
            assert_eq!(start, Some((100, 2)));
            assert!(!stop);
        }
        _ => panic!("audio is consumed"),
    }
    assert_eq!(st.max_frames, 100 * MAX_DECODE_SECONDS);
    assert_eq!(st.decoded_frames, 6000);
    let (st2, action) = after_decode(&st, &Decoded::Audio { rate: 100, channels: 2 }, 6000);
    match action {
        AfterDecode::Consume { start, stop } => {
            assert_eq!(start, None);
            assert!(stop);
        }
        _ => panic!("audio is consumed"),
    }
    assert_eq!(st2.decoded_frames, 12000);
}

#[test]
fn corrupt_packets_are_skipped_and_errors_give_up() {
    let st = fingerprint_start(1);
    let (same, action) = after_decode(&st, &Decoded::Corrupt, 50);
    assert!(matches!(action, AfterDecode::Skip));
    assert_eq!(same, st);
    let (_, action) = after_decode(&st, &Decoded::Failed("codec".to_string()), 50);
    match action {
        AfterDecode::Fail(m) => assert_eq!(m, "codec"),
        _ => panic!("a decoder error gives up"),
    }
}

#[test]
fn a_fingerprint_is_owed_only_once_audio_was_decoded() {
    let st = fingerprint_start(1);
    assert_eq!(fingerprint_finish(&st), Err("Could not decode any audio from the file".to_string()));
    let (st, _) = after_decode(&st, &Decoded::Audio { rate: 8000, channels: 1 }, 10);
    assert_eq!(fingerprint_finish(&st), Ok(()));
}
