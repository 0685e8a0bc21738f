use trackforge::ffprobe::{audio_tracks, AudioTrack, Disposition, Probe, Stream, Tags};

#[test]
fn tracks_are_numbered_among_audio_streams() {
    let probe = Probe {
        streams: vec![
            Stream {
                index: 0,
                codec_type: "video".to_string(),
                codec_name: Some("h264".to_string()),
                channels: None,
                sample_rate: None,
                bit_rate: None,
                tags: None,
                disposition: None,
            },
            Stream {
                index: 1,
                codec_type: "audio".to_string(),
                codec_name: None,
                channels: Some(2),
                sample_rate: Some("44100".to_string()),
                bit_rate: Some("128000".to_string()),
                tags: Some(Tags { language: Some("spa".to_string()), title: Some("Main".to_string()) }),
                disposition: Some(Disposition { default: Some(1) }),
            },
            Stream {
                index: 2,
                codec_type: "audio".to_string(),
                codec_name: Some("ac3".to_string()),
                channels: None,
                sample_rate: None,
                bit_rate: Some("bogus".to_string()),
                tags: None,
                disposition: Some(Disposition { default: Some(0) }),
            },
        ],
        format: None,
    };
    let tracks = audio_tracks(&probe);
    assert_eq!(tracks.len(), 2);
    assert_eq!((tracks[0].stream_index, tracks[0].audio_ordinal), (1, 0));
    assert_eq!((tracks[1].stream_index, tracks[1].audio_ordinal), (2, 1));
    assert_eq!(tracks[0].codec, "unknown");
    assert!(tracks[0].is_default);
    assert!(!tracks[1].is_default);
    assert_eq!(
        tracks[0].label(),
        "#0 audio:1 | unknown | 2ch | 44100Hz | 128 kbps | spa | \"Main\" | default"
    );
    assert_eq!(tracks[1].label(), "#1 audio:2 | ac3 | 0 kbps");
}

#[test]
fn label_of_a_bare_track() {
    let t = AudioTrack {
        stream_index: 12,
        audio_ordinal: 3,
        codec: "opus".to_string(),
        channels: None,
        sample_rate: None,
        bit_rate: Some("999".to_string()),
        language: None,
        title: None,
        is_default: false,
    };
    assert_eq!(t.label(), "#3 audio:12 | opus | 0 kbps");
}
