use trackforge::ffmpeg::{
    build_args, build_delete_audio_args, ConvertOptions, DeleteAudioOptions, TargetFormat,
    TrackMode,
};
use trackforge::ffprobe::{AudioTrack, Probe, Stream};
use trackforge::tools::ToolPaths;

#[test]
fn conversion_uses_source_bitrate_when_available() {
    let tools = ToolPaths {
        ffmpeg: "ffmpeg".into(),
        ffprobe: "ffprobe".into(),
    };
    let probe = Probe {
        streams: vec![Stream {
            index: 1,
            codec_type: "audio".to_string(),
            codec_name: Some("eac3".to_string()),
            channels: Some(6),
            sample_rate: Some("48000".to_string()),
            bit_rate: Some("384000".to_string()),
            tags: None,
            disposition: None,
        }],
        format: None,
    };
    let track = AudioTrack {
        stream_index: 1,
        audio_ordinal: 0,
        codec: "eac3".to_string(),
        channels: Some(6),
        sample_rate: Some("48000".to_string()),
        bit_rate: Some("384000".to_string()),
        language: None,
        title: None,
        is_default: false,
    };
    let options = ConvertOptions {
        tools: &tools,
        input: "input.mkv",
        output: "output.mkv",
        probe: &probe,
        track: &track,
        format: TargetFormat::Ac3,
        mode: TrackMode::Replace,
        make_default: false,
        default_audio_ordinal: None,
        titles: &[],
    };

    let args = build_args(&options);
    assert!(args.windows(2).any(|pair| pair == ["-b:0", "384000"]));
}

#[test]
fn delete_remaps_default_audio_ordinal() {
    let tools = ToolPaths {
        ffmpeg: "ffmpeg".into(),
        ffprobe: "ffprobe".into(),
    };
    let probe = Probe {
        streams: vec![
            Stream {
                index: 0,
                codec_type: "video".to_string(),
                codec_name: Some("h264".to_string()),
                channels: None,
                sample_rate: None,
                bit_rate: None,
                tags: None,
                disposition: None,
            },
            Stream {
                index: 1,
                codec_type: "audio".to_string(),
                codec_name: Some("eac3".to_string()),
                channels: Some(6),
                sample_rate: Some("48000".to_string()),
                bit_rate: Some("640000".to_string()),
                tags: None,
                disposition: None,
            },
            Stream {
                index: 2,
                codec_type: "audio".to_string(),
                codec_name: Some("ac3".to_string()),
                channels: Some(6),
                sample_rate: Some("48000".to_string()),
                bit_rate: Some("640000".to_string()),
                tags: None,
                disposition: None,
            },
        ],
        format: None,
    };
    let options = DeleteAudioOptions {
        tools: &tools,
        input: "input.mkv",
        output: "output.mkv",
        probe: &probe,
        stream_indices: &[1],
        default_audio_ordinal: Some(1),
        titles: &[],
    };

    let args = build_delete_audio_args(&options);
    assert!(
        args.windows(2)
            .any(|pair| pair == ["-disposition:a:0", "default"])
    );
}
