use trackforge::cli::{is_invisible_path_marker, sanitize_path_input, validate_audio_indices, Operation};
use trackforge::error::TrackforgeError;
use trackforge::ffprobe::AudioTrack;
use trackforge::paths::{
    backup_path, check_video_extensions, default_delete_audio_output_path, default_output_path,
    default_process_output_path, output_file_name, process_tag, replacement_file_name,
    temporary_replacement_path, validate_selected_video_paths,
};
use trackforge::ffmpeg::TargetFormat;

#[test]
fn sanitizes_pasted_windows_paths() {
    assert_eq!(
        sanitize_path_input("\u{202a}\"M:\\PELICULAS\\Bitelchus Bitelchus.mkv\"\u{202c}"),
        "M:\\PELICULAS\\Bitelchus Bitelchus.mkv"
    );
}

#[test]
fn sanitize_removes_marks_spaces_and_quotes() {
    assert_eq!(sanitize_path_input("  '/tmp/a\u{feff}b.mkv'  "), "/tmp/ab.mkv");
    assert_eq!(sanitize_path_input("\u{3000}/x.mp4\u{a0}"), "/x.mp4");
    assert!(is_invisible_path_marker('\u{200e}'));
    assert!(!is_invisible_path_marker('a'));
}

#[test]
fn validates_selected_video_extensions_case_insensitively() {
    let valid = validate_selected_video_paths(vec![
        "/tmp/video.MKV".to_string(),
        "/tmp/otro.mp4".to_string(),
    ]);
    let invalid = validate_selected_video_paths(vec!["/tmp/notas.txt".to_string()]);

    assert!(valid.is_ok());
    assert!(invalid.is_err());
}

#[test]
fn first_unsupported_video_is_reported() {
    let paths = vec!["a.mkv".to_string(), "b".to_string(), "c.doc".to_string()];
    let exts = vec![Some("mkv".to_string()), None, Some("doc".to_string())];
    match check_video_extensions(paths, &exts) {
        Err(TrackforgeError::UnsupportedVideo(p)) => assert_eq!(p, "b"),
        _ => panic!("expected an unsupported video"),
    }
    let e = TrackforgeError::UnsupportedVideo("b".to_string());
    assert_eq!(e.message(), "The selected file is not a supported video: b");
}

#[test]
fn default_output_names() {
    assert_eq!(
        default_output_path("/videos/movie.mkv", TargetFormat::Ac3),
        "/videos/movie_trackforge_ac3.mkv"
    );
    assert_eq!(default_output_path("movie", TargetFormat::Opus), "movie_trackforge_opus.mkv");
    assert_eq!(
        default_delete_audio_output_path("/v/film.mp4"),
        "/v/film_trackforge_audio_removed.mp4"
    );
    assert_eq!(
        default_process_output_path("/v/film.mp4", Some("aac"), true, true),
        "/v/film_trackforge_aac_audio-delete_metadata.mp4"
    );
    assert_eq!(
        default_process_output_path("/v/film.mp4", None, false, false),
        "/v/film_trackforge_process.mp4"
    );
    assert_eq!(process_tag(None, true, false), "audio-delete");
    assert_eq!(output_file_name(None, "x", None), "output_trackforge_x.mkv");
    assert_eq!(backup_path("/v/film.mp4"), "/v/film.mp4.trackforge-backup");
    assert_eq!(
        temporary_replacement_path("/v/film.mp4", 42, "ac3", false),
        "/v/film.trackforge-42.ac3.mp4"
    );
    assert_eq!(replacement_file_name(None, 7, "s", None, false), "output.trackforge-7.s.mkv");
    assert_eq!(
        temporary_replacement_path("/v/film.mp4", 9, "process", true),
        "/v/.film.trackforge-9.process.mp4"
    );
}

fn track(stream_index: usize, audio_ordinal: usize) -> AudioTrack {
    AudioTrack {
        stream_index,
        audio_ordinal,
        codec: "aac".to_string(),
        channels: None,
        sample_rate: None,
        bit_rate: None,
        language: None,
        title: None,
        is_default: false,
    }
}

#[test]
fn audio_indices_are_checked_against_tracks() {
    let tracks = vec![track(1, 0), track(3, 1)];
    assert_eq!(validate_audio_indices(&tracks, vec![3, 1]).unwrap(), vec![3, 1]);
    match validate_audio_indices(&tracks, vec![1, 2, 5]) {
        Err(TrackforgeError::UnknownAudioStream(x)) => assert_eq!(x, 2),
        _ => panic!("expected an unknown stream"),
    }
    assert_eq!(Operation::DeleteAudio.label(), "Delete one or more audio tracks");
}

#[test]
fn stems_and_extensions_follow_path_rules() {
    assert_eq!(default_output_path("/v/a.tar.gz", TargetFormat::Aac), "/v/a.tar_trackforge_aac.gz");
    assert_eq!(default_output_path("/v/.hidden", TargetFormat::Aac), "/v/.hidden_trackforge_aac.mkv");
    assert_eq!(default_output_path("/v/.a.b", TargetFormat::Aac), "/v/.a_trackforge_aac.b");
    assert_eq!(default_output_path("/v/noext", TargetFormat::Mp3), "/v/noext_trackforge_mp3.mkv");
    assert_eq!(default_output_path("/v/a.", TargetFormat::Mp3), "/v/a_trackforge_mp3.");
    assert_eq!(default_output_path("/", TargetFormat::Mp3), "./output_trackforge_mp3.mkv");
}
