use trackforge::jobs::check_local_temp_space;
use trackforge::error::TrackforgeError;
use trackforge::ffmpeg::AudioTitleUpdate;
use trackforge::ffprobe::{Probe, Stream};
use trackforge::jobs::{
    required_local_temp_bytes, validate_audio_indices, validate_audio_ordinals,
    validate_default_audio_ordinal,
};
use trackforge::logs::{is_log_file_name, parse_session_id, session_file_name, session_of_file_name, SessionId};
use trackforge::paths::is_stale_local_copy;
use trackforge::text::{decimal_string, parse_u64};
use trackforge::tools::{
    add_root_with_ancestors, candidate_paths, dedup_paths, executable_name, next_tool_check,
    tool_not_found_message, ToolCheck,
};

fn probe() -> Probe {
    let s = |index: usize, kind: &str| Stream {
        index,
        codec_type: kind.to_string(),
        codec_name: None,
        channels: None,
        sample_rate: None,
        bit_rate: None,
        tags: None,
        disposition: None,
    };
    Probe { streams: vec![s(0, "video"), s(1, "audio"), s(2, "audio")], format: None }
}

#[test]
fn request_checks() {
    let p = probe();
    assert!(validate_audio_indices(&p, &[2, 1]).is_ok());
    assert!(matches!(
        validate_audio_indices(&p, &[1, 0]),
        Err(TrackforgeError::UnknownAudioStream(0))
    ));
    let ok = vec![AudioTitleUpdate { audio_ordinal: 1, title: "x".into() }];
    assert!(validate_audio_ordinals(&p, &ok).is_ok());
    let bad = vec![
        AudioTitleUpdate { audio_ordinal: 0, title: "x".into() },
        AudioTitleUpdate { audio_ordinal: 2, title: "y".into() },
    ];
    match validate_audio_ordinals(&p, &bad) {
        Err(e @ TrackforgeError::UnknownAudioOrdinal(2)) => {
            assert_eq!(e.message(), "No audio track has ordinal 2")
        }
        _ => panic!(),
    }
    assert!(validate_default_audio_ordinal(&p, None).is_ok());
    assert!(validate_default_audio_ordinal(&p, Some(1)).is_ok());
    assert!(matches!(
        validate_default_audio_ordinal(&p, Some(2)),
        Err(TrackforgeError::UnknownAudioOrdinal(2))
    ));
    assert_eq!(
        TrackforgeError::UnknownAudioStream(7).message(),
        "No audio track has stream index 7"
    );
}

#[test]
fn local_space() {
    let margin = 512 * 1024 * 1024;
    assert_eq!(required_local_temp_bytes(0), margin);
    assert_eq!(required_local_temp_bytes(1000), 2000 + 100 + margin);
    assert_eq!(required_local_temp_bytes(u64::MAX / 2 + 1), u64::MAX);
    assert_eq!(required_local_temp_bytes(u64::MAX - margin), u64::MAX);
}

#[test]
fn tool_search() {
    assert_eq!(executable_name("ffmpeg", true), "ffmpeg.exe");
    assert_eq!(executable_name("ffmpeg", false), "ffmpeg");
    let mut roots = vec!["/x".to_string()];
    add_root_with_ancestors(&mut roots, "/a/b/c/d/e".to_string());
    assert_eq!(roots, vec!["/x", "/a/b/c/d/e", "/a/b/c/d", "/a/b/c", "/a/b"]);
    let mut short = Vec::new();
    add_root_with_ancestors(&mut short, "/a".to_string());
    assert_eq!(short, vec!["/a", "/"]);
    let candidates = candidate_paths(&vec!["/r".to_string(), "/r".to_string()], "ffprobe");
    assert_eq!(
        candidates,
        vec![
            "/r/vendor/ffmpeg/bin/ffprobe",
            "/r/ffmpeg/bin/ffprobe",
            "/r/bin/ffprobe",
            "/r/ffprobe",
            "/r/vendor/ffmpeg/bin/ffprobe",
            "/r/ffmpeg/bin/ffprobe",
            "/r/bin/ffprobe",
            "/r/ffprobe",
        ]
    );
    assert_eq!(
        dedup_paths(vec!["a".into(), "a".into(), "b".into(), "a".into(), "a".into()]),
        vec!["a", "b", "a"]
    );
    assert_eq!(
        dedup_paths(vec!["/x/a//b".into(), "/x/a/b".into(), "/x/./a/b/".into(), "/x/b".into()]),
        vec!["/x/a//b", "/x/b"]
    );
    let list = vec!["/p/ffmpeg".to_string()];
    assert!(matches!(next_tool_check("ffmpeg", &list, 0), ToolCheck::Candidate(p) if p == "/p/ffmpeg"));
    assert!(matches!(next_tool_check("ffmpeg", &list, 1), ToolCheck::OnPath(n) if n == "ffmpeg"));
    assert!(matches!(next_tool_check("ffmpeg", &list, 2), ToolCheck::NotFound));
    assert!(tool_not_found_message("ffprobe").starts_with("No se encontro `ffprobe`."));
}

#[test]
fn session_files() {
    assert_eq!(session_file_name(1720000000123), "trackforge-session-1720000000123.log");
    assert_eq!(session_of_file_name("trackforge-session-1720000000123.log"), Some(1720000000123));
    assert_eq!(session_of_file_name("trackforge-session-.log"), None);
    assert_eq!(session_of_file_name("trackforge.log"), None);
    assert!(is_log_file_name("trackforge.log"));
    assert!(is_log_file_name("trackforge-session-5.log"));
    assert!(!is_log_file_name("other.log"));
    assert!(matches!(parse_session_id("legacy"), Some(SessionId::Legacy)));
    assert!(matches!(parse_session_id("42"), Some(SessionId::StartedAt(42))));
    assert!(parse_session_id("x").is_none());
    assert!(is_stale_local_copy(".film.trackforge-1.local-copy.mkv", "film"));
    assert!(is_stale_local_copy("film.trackforge-1.local-copy.mkv", "film"));
    assert!(!is_stale_local_copy("film.trackforge-1.process.mkv", "film"));
    assert!(!is_stale_local_copy("other.trackforge-1.local-copy.mkv", "film"));
}

#[test]
fn numbers_round_trip() {
    for n in [0u64, 7, 10, 99, 100, 1234567, u64::MAX] {
        let text = decimal_string(n);
        assert_eq!(text, n.to_string());
        let chars: Vec<char> = text.chars().collect();
        assert_eq!(parse_u64(&chars), Some(n));
    }
    let plus: Vec<char> = "+5".chars().collect();
    assert_eq!(parse_u64(&plus), Some(5));
    let lone: Vec<char> = "+".chars().collect();
    assert_eq!(parse_u64(&lone), None);
    let empty: Vec<char> = Vec::new();
    assert_eq!(parse_u64(&empty), None);
    let neg: Vec<char> = "-1".chars().collect();
    assert_eq!(parse_u64(&neg), None);
}

#[test]
fn candidates_drop_the_same_path_written_twice() {
    let candidates =
        candidate_paths(&vec!["/x/vendor//ffmpeg/bin".to_string(), "/x".to_string()], "ffmpeg");
    assert_eq!(
        candidates,
        vec![
            "/x/vendor//ffmpeg/bin/vendor/ffmpeg/bin/ffmpeg",
            "/x/vendor//ffmpeg/bin/ffmpeg/bin/ffmpeg",
            "/x/vendor//ffmpeg/bin/bin/ffmpeg",
            "/x/vendor//ffmpeg/bin/ffmpeg",
            "/x/ffmpeg/bin/ffmpeg",
            "/x/bin/ffmpeg",
            "/x/ffmpeg",
        ]
    );
}

#[test]
fn local_space_is_checked_against_the_need() {
    let margin = 512 * 1024 * 1024;
    assert_eq!(check_local_temp_space(1000, 2100 + margin).unwrap(), 2100 + margin);
    let short = check_local_temp_space(1000, 2099 + margin).err().unwrap();
    assert_eq!((short.required, short.available), (2100 + margin, 2099 + margin));
    assert!(check_local_temp_space(u64::MAX, u64::MAX - 1).is_err());
}
