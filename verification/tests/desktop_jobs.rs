use trackforge::cli::{asks_conversion_questions, find_track_by_index};
use trackforge::error::TrackforgeError;
use trackforge::ffmpeg::{AudioTitleUpdate, TargetFormat, TrackMode};
use trackforge::ffprobe::{audio_tracks, Probe, Stream};
use trackforge::logs::{list_log_sessions, LogSession};
use trackforge::plans::{
    finalize_step, initial_finalize, is_stale_copy_for_output, plan_convert, plan_delete, plan_process, ConvertOperationRequest,
    ConvertRequest, DeleteAudioRequest, FinalizeAction, FinalizeEvent, FinalizeState,
    ProcessFileRequest, WorkOutput,
};

fn stream(index: usize, kind: &str) -> Stream {
    Stream {
        index,
        codec_type: kind.to_string(),
        codec_name: None,
        channels: None,
        sample_rate: None,
        bit_rate: None,
        tags: None,
        disposition: None,
    }
}

fn probe() -> Probe {
    Probe {
        streams: vec![stream(0, "video"), stream(1, "audio"), stream(2, "subtitle"), stream(3, "audio")],
        format: None,
    }
}

fn convert_request() -> ConvertRequest {
    ConvertRequest {
        job_id: "j".to_string(),
        input: "/videos/film.mkv".to_string(),
        audio_index: 3,
        format: "AC3".to_string(),
        mode: "add".to_string(),
        make_default: true,
        replace_original: false,
        output: None,
        default_audio_ordinal: None,
        titles: Vec::new(),
    }
}

fn delete_request() -> DeleteAudioRequest {
    DeleteAudioRequest {
        job_id: "j".to_string(),
        input: "/videos/film.mkv".to_string(),
        audio_indices: Vec::new(),
        replace_original: false,
        output: None,
        default_audio_ordinal: None,
        titles: Vec::new(),
    }
}

fn process_request() -> ProcessFileRequest {
    ProcessFileRequest {
        job_id: "j".to_string(),
        input: "/videos/film.mkv".to_string(),
        replace_original: false,
        use_local_temp: false,
        convert: None,
        delete_audio_indices: Vec::new(),
        default_audio_ordinal: None,
        titles: Vec::new(),
    }
}

#[test]
fn finds_a_track_by_stream_index() {
    let tracks = audio_tracks(&probe());
    assert_eq!(find_track_by_index(&tracks, 3), Some(1));
    assert_eq!(find_track_by_index(&tracks, 1), Some(0));
    assert_eq!(find_track_by_index(&tracks, 2), None);
}

#[test]
fn asks_questions_unless_everything_was_given() {
    assert!(!asks_conversion_questions(false, true, true, true));
    assert!(asks_conversion_questions(true, true, true, true));
    assert!(asks_conversion_questions(false, true, false, true));
}

#[test]
fn convert_plan_with_default_output() {
    let plan = plan_convert(&convert_request(), &probe(), 42).unwrap();
    assert_eq!(plan.track_position, 1);
    assert_eq!(plan.format, TargetFormat::Ac3);
    assert_eq!(plan.mode, TrackMode::Add);
    assert_eq!(plan.work_output, "/videos/film_trackforge_ac3.mkv");
    assert_eq!(plan.final_output, "/videos/film_trackforge_ac3.mkv");
    assert!(!plan.replace_original);
}

#[test]
fn convert_plan_replacing_the_original() {
    let mut request = convert_request();
    request.replace_original = true;
    request.output = Some("/elsewhere/out.mkv".to_string());
    let plan = plan_convert(&request, &probe(), 42).unwrap();
    assert_eq!(plan.work_output, "/videos/.film.trackforge-42.ac3.mkv");
    assert_eq!(plan.final_output, "/videos/film.mkv");
    assert!(plan.replace_original);
}

#[test]
fn convert_plan_refusals_in_order() {
    let mut request = convert_request();
    request.audio_index = 2;
    request.format = "ogg".to_string();
    assert!(matches!(
        plan_convert(&request, &probe(), 1),
        Err(TrackforgeError::UnknownAudioStream(2))
    ));
    let mut request = convert_request();
    request.format = "ogg".to_string();
    request.mode = "x".to_string();
    assert!(matches!(
        plan_convert(&request, &probe(), 1),
        Err(TrackforgeError::UnsupportedFormat(ref v)) if v == "ogg"
    ));
    let mut request = convert_request();
    request.mode = "x".to_string();
    assert!(matches!(
        plan_convert(&request, &probe(), 1),
        Err(TrackforgeError::UnsupportedMode(ref v)) if v == "x"
    ));
    let mut request = convert_request();
    request.audio_index = 2;
    request.titles = vec![AudioTitleUpdate { audio_ordinal: 2, title: "t".to_string() }];
    assert!(matches!(
        plan_convert(&request, &probe(), 1),
        Err(TrackforgeError::UnknownAudioOrdinal(2))
    ));
    let mut request = convert_request();
    request.default_audio_ordinal = Some(5);
    assert!(matches!(
        plan_convert(&request, &probe(), 1),
        Err(TrackforgeError::UnknownAudioOrdinal(5))
    ));
}

#[test]
fn delete_plan_refuses_an_empty_request() {
    let e = plan_delete(&delete_request(), &probe(), 7).err().unwrap();
    assert!(matches!(e, TrackforgeError::NothingToDelete));
    assert_eq!(e.message(), "Select tracks to delete or change some audio metadata.");
}

#[test]
fn delete_plan_outputs() {
    let mut request = delete_request();
    request.audio_indices = vec![1];
    let plan = plan_delete(&request, &probe(), 7).unwrap();
    assert_eq!(plan.final_output, "/videos/film_trackforge_audio_removed.mkv");
    assert_eq!(plan.work_output, plan.final_output);

    let mut request = delete_request();
    request.default_audio_ordinal = Some(1);
    let plan = plan_delete(&request, &probe(), 7).unwrap();
    assert_eq!(plan.final_output, "/videos/film_trackforge_audio_metadata.mkv");

    let mut request = delete_request();
    request.audio_indices = vec![3];
    request.replace_original = true;
    let plan = plan_delete(&request, &probe(), 7).unwrap();
    assert_eq!(plan.work_output, "/videos/.film.trackforge-7.audio-delete.mkv");
    assert_eq!(plan.final_output, "/videos/film.mkv");

    let mut request = delete_request();
    request.audio_indices = vec![1, 0];
    assert!(matches!(
        plan_delete(&request, &probe(), 7),
        Err(TrackforgeError::UnknownAudioStream(0))
    ));
}

#[test]
fn process_plan_refuses_an_empty_request() {
    let e = plan_process(&process_request(), &probe(), 9).err().unwrap();
    assert!(matches!(e, TrackforgeError::NothingToProcess));
    assert_eq!(e.message(), "Select at least one operation to process the file.");
}

#[test]
fn process_plan_paths() {
    let mut request = process_request();
    request.convert = Some(ConvertOperationRequest {
        audio_index: 1,
        format: "opus".to_string(),
        mode: "replace".to_string(),
        make_default: false,
    });
    request.delete_audio_indices = vec![3];
    request.titles = vec![AudioTitleUpdate { audio_ordinal: 0, title: "Main".to_string() }];
    let plan = plan_process(&request, &probe(), 9).unwrap();
    let c = plan.conversion.unwrap();
    assert_eq!((c.track_position, c.format, c.mode), (0, TargetFormat::Opus, TrackMode::Replace));
    assert_eq!(plan.final_output, "/videos/film_trackforge_opus_audio-delete_metadata.mkv");
    assert!(matches!(plan.work_output, WorkOutput::At(ref p) if *p == plan.final_output));

    let mut request = process_request();
    request.default_audio_ordinal = Some(0);
    request.replace_original = true;
    let plan = plan_process(&request, &probe(), 9).unwrap();
    assert_eq!(plan.final_output, "/videos/film.mkv");
    assert!(matches!(plan.work_output, WorkOutput::At(ref p) if p == "/videos/.film.trackforge-9.process.mkv"));

    request.use_local_temp = true;
    let plan = plan_process(&request, &probe(), 9).unwrap();
    assert!(matches!(plan.work_output, WorkOutput::LocalTemporary));
}

#[test]
fn original_is_replaced_only_after_ffmpeg_succeeds() {
    let s = initial_finalize(false, true);
    let (s2, a) = finalize_step(s, FinalizeEvent::FfmpegDone { succeeded: true });
    assert!(a == FinalizeAction::ReplaceOriginal);
    let (s3, a) = finalize_step(s2, FinalizeEvent::FinalizeDone { succeeded: true });
    assert!(a == FinalizeAction::Report { succeeded: true });
    assert!(s3 == FinalizeState::Finished { succeeded: true });

    let (s2, a) = finalize_step(s, FinalizeEvent::FfmpegDone { succeeded: false });
    assert!(a == FinalizeAction::Report { succeeded: false });
    assert!(s2 == FinalizeState::Finished { succeeded: false });
}

#[test]
fn local_jobs_clean_up_before_reporting() {
    let s = initial_finalize(true, true);
    let (s, a) = finalize_step(s, FinalizeEvent::FfmpegDone { succeeded: true });
    assert!(a == FinalizeAction::CopyFromLocalTemp { replace_original: true });
    let (s, a) = finalize_step(s, FinalizeEvent::FinalizeDone { succeeded: false });
    assert!(a == FinalizeAction::RemoveLocalTemps);
    let (s, a) = finalize_step(s, FinalizeEvent::CleanupDone);
    assert!(a == FinalizeAction::Report { succeeded: false });
    let (_, a) = finalize_step(s, FinalizeEvent::CleanupDone);
    assert!(a == FinalizeAction::Wait);

    let s = initial_finalize(true, false);
    let (_, a) = finalize_step(s, FinalizeEvent::FfmpegDone { succeeded: false });
    assert!(a == FinalizeAction::RemoveLocalTemps);
}

fn summary(sessions: &[LogSession]) -> Vec<(String, u64, bool, u64)> {
    sessions.iter().map(|s| (s.id.clone(), s.started_at, s.is_current, s.size_bytes)).collect()
}

#[test]
fn log_sessions_newest_first_with_the_current_one() {
    let files = vec![
        ("trackforge-session-100.log".to_string(), 5, 10),
        ("notes.txt".to_string(), 1, 1),
        ("trackforge.log".to_string(), 150, 20),
        ("trackforge-session-300.log".to_string(), 6, 30),
    ];
    let sessions = list_log_sessions(&files, 200);
    assert_eq!(
        summary(&sessions),
        vec![
            ("300".to_string(), 300, false, 30),
            ("200".to_string(), 200, true, 0),
            ("legacy".to_string(), 150, false, 20),
            ("100".to_string(), 100, false, 10),
        ]
    );
    let sessions = list_log_sessions(&files, 300);
    assert_eq!(sessions.len(), 3);
    assert!(sessions[0].is_current && sessions[0].id == "300");
}

#[test]
fn log_sessions_keep_the_first_of_equal_starts() {
    let files = vec![
        ("trackforge.log".to_string(), 50, 1),
        ("trackforge-session-50.log".to_string(), 0, 2),
    ];
    let sessions = list_log_sessions(&files, 10);
    assert_eq!(
        summary(&sessions),
        vec![
            ("legacy".to_string(), 50, false, 1),
            ("50".to_string(), 50, false, 2),
            ("10".to_string(), 10, true, 0),
        ]
    );
}

#[test]
fn stale_local_copies_are_recognised() {
    let out = "/out/film_trackforge_ac3.mkv";
    assert!(is_stale_copy_for_output(out, ".film_trackforge_ac3.trackforge-123.local-copy.mkv"));
    assert!(is_stale_copy_for_output(out, "film_trackforge_ac3.trackforge-1.local-copy.mkv"));
    assert!(!is_stale_copy_for_output(out, "film_trackforge_ac3.trackforge-1.process.mkv"));
    assert!(!is_stale_copy_for_output(out, "other.trackforge-1.local-copy.mkv"));
    assert!(!is_stale_copy_for_output("/", ".trackforge-1.local-copy.mkv"));
}
