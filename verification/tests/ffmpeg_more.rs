use trackforge::error::TrackforgeError;
use trackforge::ffmpeg::{
    append_default_disposition, base_args, build_args, build_delete_audio_args,
    classify_progress_line, count_audio, format_duration_secs, parse_total_size, target_bitrate,
    AudioTitleUpdate, ConvertOptions, DeleteAudioOptions, ProgressLine, TargetFormat, TrackMode,
};
use trackforge::ffprobe::{audio_tracks, AudioTrack, Probe, Stream};
use trackforge::tools::ToolPaths;

fn stream(index: usize, kind: &str, bit_rate: Option<&str>) -> Stream {
    Stream {
        index,
        codec_type: kind.to_string(),
        codec_name: Some("codec".to_string()),
        channels: None,
        sample_rate: None,
        bit_rate: bit_rate.map(|b| b.to_string()),
        tags: None,
        disposition: None,
    }
}

fn tools() -> ToolPaths {
    ToolPaths {
        ffmpeg: "ffmpeg".into(),
        ffprobe: "ffprobe".into(),
    }
}

fn strs(args: &[String]) -> Vec<&str> {
    args.iter().map(|s| s.as_str()).collect()
}

fn sample_probe() -> Probe {
    Probe {
        streams: vec![
            stream(0, "video", None),
            stream(1, "audio", Some("192000")),
            stream(2, "subtitle", None),
            stream(3, "audio", Some("768000")),
        ],
        format: None,
    }
}

#[test]
fn replace_mode_maps_every_stream_and_encodes_the_selected_one() {
    let t = tools();
    let probe = sample_probe();
    let tracks = audio_tracks(&probe);
    let titles = vec![AudioTitleUpdate { audio_ordinal: 1, title: "Main".to_string() }];
    let options = ConvertOptions {
        tools: &t,
        input: "in.mkv",
        output: "out.mkv",
        probe: &probe,
        track: &tracks[1],
        format: TargetFormat::Ac3,
        mode: TrackMode::Replace,
        make_default: true,
        default_audio_ordinal: Some(0),
        titles: &titles,
    };
    let args = build_args(&options);
    assert_eq!(
        strs(&args),
        vec![
            "-hide_banner", "-y", "-nostats", "-v", "error", "-progress", "pipe:1", "-i", "in.mkv",
            "-map", "0:0", "-map", "0:1", "-map", "0:2", "-map", "0:3",
            "-c", "copy", "-c:3", "ac3", "-b:3", "640000",
            "-disposition:a", "0", "-disposition:a:1", "default",
            "-metadata:s:a:1", "title=Main",
            "out.mkv",
        ]
    );
}

#[test]
fn add_mode_appends_the_converted_track() {
    let t = tools();
    let probe = sample_probe();
    let tracks = audio_tracks(&probe);
    let titles = vec![AudioTitleUpdate { audio_ordinal: 0, title: "Spa".to_string() }];
    let options = ConvertOptions {
        tools: &t,
        input: "in.mkv",
        output: "out.mkv",
        probe: &probe,
        track: &tracks[0],
        format: TargetFormat::Flac,
        mode: TrackMode::Add,
        make_default: false,
        default_audio_ordinal: Some(1),
        titles: &titles,
    };
    let args = build_args(&options);
    assert_eq!(
        strs(&args),
        vec![
            "-hide_banner", "-y", "-nostats", "-v", "error", "-progress", "pipe:1", "-i", "in.mkv",
            "-map", "0", "-map", "0:1",
            "-c", "copy", "-c:4", "flac",
            "-disposition:a", "0", "-disposition:a:1", "default",
            "-metadata:s:a:0", "title=Spa", "-metadata:s:a:2", "title=Spa",
            "out.mkv",
        ]
    );
}

#[test]
fn delete_skips_selected_tracks_and_renumbers_titles() {
    let t = tools();
    let probe = sample_probe();
    let titles = vec![
        AudioTitleUpdate { audio_ordinal: 1, title: "Kept".to_string() },
        AudioTitleUpdate { audio_ordinal: 1, title: "Ignored".to_string() },
    ];
    let options = DeleteAudioOptions {
        tools: &t,
        input: "in.mkv",
        output: "out.mkv",
        probe: &probe,
        stream_indices: &[1],
        default_audio_ordinal: Some(0),
        titles: &titles,
    };
    let args = build_delete_audio_args(&options);
    assert_eq!(
        strs(&args),
        vec![
            "-hide_banner", "-y", "-nostats", "-v", "error", "-progress", "pipe:1", "-i", "in.mkv",
            "-map", "0:0", "-map", "0:2", "-map", "0:3", "-metadata:s:a:0", "title=Kept",
            "-c", "copy", "out.mkv",
        ]
    );
}

fn track_with_rate(rate: Option<&str>) -> AudioTrack {
    AudioTrack {
        stream_index: 1,
        audio_ordinal: 0,
        codec: "eac3".to_string(),
        channels: None,
        sample_rate: None,
        bit_rate: rate.map(|r| r.to_string()),
        language: None,
        title: None,
        is_default: false,
    }
}

#[test]
fn bitrate_rules() {
    assert_eq!(target_bitrate(TargetFormat::Ac3, &track_with_rate(Some("768000"))), Some("640000".to_string()));
    assert_eq!(target_bitrate(TargetFormat::Ac3, &track_with_rate(Some("640000"))), Some("640000".to_string()));
    assert_eq!(target_bitrate(TargetFormat::Aac, &track_with_rate(Some("768000"))), Some("768000".to_string()));
    assert_eq!(target_bitrate(TargetFormat::Opus, &track_with_rate(Some("+96000"))), Some("96000".to_string()));
    assert_eq!(target_bitrate(TargetFormat::Mp3, &track_with_rate(Some("0"))), None);
    assert_eq!(target_bitrate(TargetFormat::Mp3, &track_with_rate(Some("abc"))), None);
    assert_eq!(target_bitrate(TargetFormat::Mp3, &track_with_rate(Some("18446744073709551616"))), None);
    assert_eq!(target_bitrate(TargetFormat::Mp3, &track_with_rate(None)), None);
    assert_eq!(target_bitrate(TargetFormat::Flac, &track_with_rate(Some("768000"))), None);
    assert_eq!(target_bitrate(TargetFormat::Wav, &track_with_rate(Some("768000"))), None);
}

#[test]
fn format_and_mode_names() {
    assert_eq!(TargetFormat::parse("AC3").unwrap(), TargetFormat::Ac3);
    assert_eq!(TargetFormat::parse("pcm").unwrap(), TargetFormat::Wav);
    assert_eq!("Opus".parse::<TargetFormat>().unwrap(), TargetFormat::Opus);
    match TargetFormat::parse("ogg") {
        Err(e @ TrackforgeError::UnsupportedFormat(_)) => assert_eq!(
            e.message(),
            "Formato no soportado: ogg. Usa aac, ac3, mp3, opus, flac o wav."
        ),
        _ => panic!("expected an unsupported format"),
    }
    for format in TargetFormat::all() {
        assert_eq!(TargetFormat::parse(format.slug()).unwrap(), format);
    }
    assert_eq!(TargetFormat::Mp3.codec(), "libmp3lame");
    assert_eq!(TargetFormat::Wav.label(), "WAV / PCM 16-bit");
    assert_eq!(TrackMode::parse("Sustituir").unwrap(), TrackMode::Replace);
    assert_eq!("AGREGAR".parse::<TrackMode>().unwrap(), TrackMode::Add);
    match TrackMode::parse("swap") {
        Err(e @ TrackforgeError::UnsupportedMode(_)) => {
            assert_eq!(e.message(), "Modo no soportado: swap. Usa replace o add.")
        }
        _ => panic!("expected an unsupported mode"),
    }
    assert_eq!(TrackMode::Add.label(), "Anadir la pista convertida y conservar la original");
}

#[test]
fn progress_lines() {
    assert_eq!(parse_total_size("total_size=1024"), Some(1024));
    assert_eq!(parse_total_size("total_size=x"), None);
    assert_eq!(parse_total_size("out_time_us=5"), None);
    assert_eq!(parse_total_size("no equals"), None);
    match classify_progress_line("out_time_us=1500000") {
        ProgressLine::MediaMicros(v) => assert_eq!(v, "1500000"),
        _ => panic!(),
    }
    match classify_progress_line("out_time_ms=7") {
        ProgressLine::MediaMicros(v) => assert_eq!(v, "7"),
        _ => panic!(),
    }
    match classify_progress_line("out_time=01:02:03.500000") {
        ProgressLine::MediaClock(h, m, s) => {
            assert_eq!((h.as_str(), m.as_str(), s.as_str()), ("01", "02", "03.500000"))
        }
        _ => panic!(),
    }
    assert!(matches!(classify_progress_line("out_time=N/A"), ProgressLine::Other));
    assert!(matches!(classify_progress_line("total_size=99"), ProgressLine::TotalSize(99)));
    assert!(matches!(classify_progress_line("progress=end"), ProgressLine::End));
    assert!(matches!(classify_progress_line("progress=continue"), ProgressLine::Other));
    assert!(matches!(classify_progress_line("frame=10"), ProgressLine::Other));
}

#[test]
fn durations() {
    assert_eq!(format_duration_secs(0), "0m 00s");
    assert_eq!(format_duration_secs(65), "1m 05s");
    assert_eq!(format_duration_secs(3599), "59m 59s");
    assert_eq!(format_duration_secs(3600), "1h 00m 00s");
    assert_eq!(format_duration_secs(3725), "1h 02m 05s");
}

#[test]
fn small_builders() {
    let mut args = base_args("x.mkv");
    assert_eq!(args.len(), 9);
    append_default_disposition(&mut args, 2);
    assert_eq!(&strs(&args)[9..], &["-disposition:a", "0", "-disposition:a:2", "default"]);
    assert_eq!(count_audio(&sample_probe().streams), 2);
}
