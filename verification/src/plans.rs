//! The jobs of the desktop application: what a request to convert a track,
//! to remove tracks or to process a file asks of the probe of its file, the
//! paths the job writes, and the steps that follow ffmpeg.
use vstd::prelude::*;
use crate::cli::{find_track_by_index, first_unknown};
use crate::error::{ErrorView, TrackforgeError};
use crate::ffmpeg::{parse_format_spec, parse_mode_spec, slug_spec, AudioTitleUpdate, TargetFormat, TrackMode};
use crate::ffprobe::{audio_count, audio_tracks, Probe};
use crate::jobs::{
    audio_stream_indices, first_ordinal_out_of_range, validate_audio_indices,
    validate_audio_ordinals, validate_default_audio_ordinal,
};
use crate::paths::{
    default_audio_metadata_output_path, default_delete_audio_output_path, default_output_path,
    default_process_output_path, path_extension_result, path_file_name, path_file_name_result,
    path_file_stem, path_file_stem_result, is_stale_local_copy, is_stale_local_copy_spec,
    process_tag_spec, replacement_file_name_spec, sibling_path, tagged_output_path,
    temporary_replacement_path,
};
use crate::text::opt_view;

verus! {

/// A request to convert one audio track of a file.
pub struct ConvertRequest {
    pub job_id: String,
    pub input: String,
    pub audio_index: usize,
    pub format: String,
    pub mode: String,
    pub make_default: bool,
    pub replace_original: bool,
    pub output: Option<String>,
    pub default_audio_ordinal: Option<usize>,
    pub titles: Vec<AudioTitleUpdate>,
}

/// A request to remove audio tracks of a file, or to change their metadata.
pub struct DeleteAudioRequest {
    pub job_id: String,
    pub input: String,
    pub audio_indices: Vec<usize>,
    pub replace_original: bool,
    pub output: Option<String>,
    pub default_audio_ordinal: Option<usize>,
    pub titles: Vec<AudioTitleUpdate>,
}

/// The conversion part of a processing request.
pub struct ConvertOperationRequest {
    pub audio_index: usize,
    pub format: String,
    pub mode: String,
    pub make_default: bool,
}

/// A request to process a file: an optional conversion, removals and
/// changes of metadata, in one ffmpeg run.
pub struct ProcessFileRequest {
    pub job_id: String,
    pub input: String,
    pub replace_original: bool,
    pub use_local_temp: bool,
    pub convert: Option<ConvertOperationRequest>,
    pub delete_audio_indices: Vec<usize>,
    pub default_audio_ordinal: Option<usize>,
    pub titles: Vec<AudioTitleUpdate>,
}

/// The position of the first element of `s` equal to `x`.
pub open spec fn position_of(s: Seq<usize>, x: usize) -> Option<int>
    decreases s.len(),
{
    if s.len() == 0 {
        None
    } else if s[0] == x {
        Some(0)
    } else {
        match position_of(s.drop_first(), x) {
            Some(i) => Some(i + 1),
            None => None,
        }
    }
}

proof fn lemma_position_of(s: Seq<usize>, x: usize, r: Option<int>)
    requires
        match r {
            Some(i) => 0 <= i < s.len() && s[i] == x && forall|j: int| 0 <= j < i ==> s[j] != x,
            None => forall|j: int| 0 <= j < s.len() ==> s[j] != x,
        },
    ensures
        position_of(s, x) == r,
    decreases s.len(),
{
    if s.len() > 0 && s[0] != x {
        let t = s.drop_first();
        let rt = match r {
            Some(i) => Some(i - 1),
            None => None,
        };
        assert forall|j: int| 0 <= j < t.len() && (r is None || j < r->0 - 1) implies t[j] != x by {
            assert(t[j] == s[j + 1]);
        }
        if let Some(i) = r {
            assert(t[i - 1] == s[i]);
        }
        lemma_position_of(t, x, rt);
    }
}

/// The path of the temporary file next to `input` that later replaces it,
/// as the desktop jobs name it (hidden, with a leading `.`).
pub open spec fn replacement_path_spec(input: Seq<char>, process_id: u32, slug: Seq<char>) -> Seq<char> {
    sibling_path(
        input,
        replacement_file_name_spec(
            path_file_stem_result(input),
            process_id,
            slug,
            path_extension_result(input),
            true,
        ),
    )
}

/// A requested default ordinal that names no audio track.
pub open spec fn default_out_of_range(ordinal: Option<usize>, count: nat) -> Option<usize> {
    match ordinal {
        Some(o) => if o >= count {
            Some(o)
        } else {
            None
        },
        None => None,
    }
}

/// The first refusal of the checks of titles and default ordinal that every
/// job makes, in the order the jobs make them.
pub open spec fn metadata_error(
    titles: Seq<AudioTitleUpdate>,
    default_audio_ordinal: Option<usize>,
    probe: &Probe,
) -> Option<ErrorView> {
    match first_ordinal_out_of_range(titles, audio_count(probe.streams@)) {
        Some(o) => Some(ErrorView::UnknownAudioOrdinal(o)),
        None => match default_out_of_range(default_audio_ordinal, audio_count(probe.streams@)) {
            Some(o) => Some(ErrorView::UnknownAudioOrdinal(o)),
            None => None,
        },
    }
}

/// The text of a requested output, or `default` where none was requested.
pub open spec fn requested_or(output: Option<String>, default: Seq<char>) -> Seq<char> {
    match opt_view(output) {
        Some(o) => o,
        None => default,
    }
}

/// What a conversion job does: the track it converts (by its position
/// among the audio tracks), the format and mode, where ffmpeg writes, and
/// what the job reports as its result.
pub struct ConvertPlan {
    pub track_position: usize,
    pub format: TargetFormat,
    pub mode: TrackMode,
    pub work_output: String,
    pub final_output: String,
    pub replace_original: bool,
}

/// The mathematical value of a conversion plan.
pub struct ConvertPlanView {
    pub track_position: usize,
    pub format: TargetFormat,
    pub mode: TrackMode,
    pub work_output: Seq<char>,
    pub final_output: Seq<char>,
    pub replace_original: bool,
}

impl View for ConvertPlan {
    type V = ConvertPlanView;

    open spec fn view(&self) -> ConvertPlanView {
        ConvertPlanView {
            track_position: self.track_position,
            format: self.format,
            mode: self.mode,
            work_output: self.work_output@,
            final_output: self.final_output@,
            replace_original: self.replace_original,
        }
    }
}

/// The plan of a conversion request, or why it is refused: first the
/// titles and the default ordinal, then the track, the format and the
/// mode. The output is the requested one or the default name; when the
/// original is to be replaced, ffmpeg writes a hidden temporary file next
/// to it and the result is the original's path.
pub open spec fn convert_plan_spec(request: &ConvertRequest, probe: &Probe, process_id: u32) -> Result<
    ConvertPlanView,
    ErrorView,
> {
    match metadata_error(request.titles@, request.default_audio_ordinal, probe) {
        Some(e) => Err(e),
        None => match position_of(audio_stream_indices(probe), request.audio_index) {
            None => Err(ErrorView::UnknownAudioStream(request.audio_index)),
            Some(k) => match parse_format_spec(request.format@) {
                None => Err(ErrorView::UnsupportedFormat(request.format@)),
                Some(f) => match parse_mode_spec(request.mode@) {
                    None => Err(ErrorView::UnsupportedMode(request.mode@)),
                    Some(m) => {
                        let output = requested_or(
                            request.output,
                            tagged_output_path(request.input@, slug_spec(f)),
                        );
                        Ok(
                            ConvertPlanView {
                                track_position: k as usize,
                                format: f,
                                mode: m,
                                work_output: if request.replace_original {
                                    replacement_path_spec(request.input@, process_id, slug_spec(f))
                                } else {
                                    output
                                },
                                final_output: if request.replace_original {
                                    request.input@
                                } else {
                                    output
                                },
                                replace_original: request.replace_original,
                            },
                        )
                    },
                },
            },
        },
    }
}

/// The view of a result whose both sides have views.
pub open spec fn result_view<T: View>(r: Result<T, TrackforgeError>) -> Result<T::V, ErrorView> {
    match r {
        Ok(p) => Ok(p@),
        Err(e) => Err(e@),
    }
}

fn check_metadata(probe: &Probe, titles: &Vec<AudioTitleUpdate>, default_audio_ordinal: Option<usize>) -> (r:
    Result<(), TrackforgeError>)
    ensures
        match metadata_error(titles@, default_audio_ordinal, probe) {
            Some(e) => r matches Err(x) && x@ == e,
            None => r is Ok,
        },
{
    match validate_audio_ordinals(probe, titles.as_slice()) {
        Err(e) => {
            return Err(e);
        },
        Ok(()) => {},
    }
    validate_default_audio_ordinal(probe, default_audio_ordinal)
}

/// The position among the audio tracks of the probe of the track with the
/// stream index `x`.
fn track_position(probe: &Probe, x: usize) -> (r: Option<usize>)
    ensures
        match position_of(audio_stream_indices(probe), x) {
            Some(k) => r == Some(k as usize),
            None => r is None,
        },
{
    let tracks = audio_tracks(probe);
    let ghost known = audio_stream_indices(probe);
    assert forall|k: int| 0 <= k < tracks@.len() implies (#[trigger] tracks@[k]).stream_index
        == known[k] by {
        assert(tracks@[k]@.stream_index == tracks@[k].stream_index);
    }
    let r = find_track_by_index(tracks.as_slice(), x);
    proof {
        match r {
            Some(i) => {
                assert forall|j: int| 0 <= j < i implies known[j] != x by {
                    assert(tracks@[j].stream_index != x);
                }
                lemma_position_of(known, x, Some(i as int));
            },
            None => {
                assert forall|j: int| 0 <= j < known.len() implies known[j] != x by {
                    assert(tracks@[j].stream_index != x);
                }
                lemma_position_of(known, x, None);
            },
        }
    }
    r
}

/// The plan of a conversion request on a file with this probe; the process
/// id names the temporary file that replaces the original.
pub fn plan_convert(request: &ConvertRequest, probe: &Probe, process_id: u32) -> (r: Result<
    ConvertPlan,
    TrackforgeError,
>)
    ensures
        result_view(r) == convert_plan_spec(request, probe, process_id),
{
    match check_metadata(probe, &request.titles, request.default_audio_ordinal) {
        Err(e) => {
            return Err(e);
        },
        Ok(()) => {},
    }
    let k = match track_position(probe, request.audio_index) {
        Some(k) => k,
        None => {
            return Err(TrackforgeError::UnknownAudioStream(request.audio_index));
        },
    };
    let format = match TargetFormat::parse(request.format.as_str()) {
        Ok(f) => f,
        Err(e) => {
            return Err(e);
        },
    };
    let mode = match TrackMode::parse(request.mode.as_str()) {
        Ok(m) => m,
        Err(e) => {
            return Err(e);
        },
    };
    let output = match &request.output {
        Some(o) => o.clone(),
        None => default_output_path(request.input.as_str(), format),
    };
    if request.replace_original {
        let work = temporary_replacement_path(request.input.as_str(), process_id, format.slug(), true);
        Ok(
            ConvertPlan {
                track_position: k,
                format,
                mode,
                work_output: work,
                final_output: request.input.clone(),
                replace_original: true,
            },
        )
    } else {
        Ok(
            ConvertPlan {
                track_position: k,
                format,
                mode,
                work_output: output.clone(),
                final_output: output,
                replace_original: false,
            },
        )
    }
}

/// What a removal job does: where ffmpeg writes, and what the job reports
/// as its result.
pub struct DeletePlan {
    pub work_output: String,
    pub final_output: String,
    pub replace_original: bool,
}

/// The mathematical value of a removal plan.
pub struct DeletePlanView {
    pub work_output: Seq<char>,
    pub final_output: Seq<char>,
    pub replace_original: bool,
}

impl View for DeletePlan {
    type V = DeletePlanView;

    open spec fn view(&self) -> DeletePlanView {
        DeletePlanView {
            work_output: self.work_output@,
            final_output: self.final_output@,
            replace_original: self.replace_original,
        }
    }
}

/// A removal request that asks for nothing: no track to remove, no title
/// and no default to change.
pub open spec fn delete_asks_nothing(request: &DeleteAudioRequest) -> bool {
    request.audio_indices@.len() == 0 && request.titles@.len() == 0
        && request.default_audio_ordinal is None
}

/// The plan of a removal request, or why it is refused: a request that
/// asks for nothing, then the stream indices, the titles and the default
/// ordinal. The default output is named `audio_metadata` when no track is
/// removed and `audio_removed` otherwise.
pub open spec fn delete_plan_spec(request: &DeleteAudioRequest, probe: &Probe, process_id: u32) -> Result<
    DeletePlanView,
    ErrorView,
> {
    if delete_asks_nothing(request) {
        Err(ErrorView::NothingToDelete)
    } else {
        match first_unknown(audio_stream_indices(probe), request.audio_indices@) {
            Some(x) => Err(ErrorView::UnknownAudioStream(x)),
            None => match metadata_error(request.titles@, request.default_audio_ordinal, probe) {
                Some(e) => Err(e),
                None => {
                    let output = requested_or(
                        request.output,
                        tagged_output_path(
                            request.input@,
                            if request.audio_indices@.len() == 0 {
                                "audio_metadata"@
                            } else {
                                "audio_removed"@
                            },
                        ),
                    );
                    Ok(
                        DeletePlanView {
                            work_output: if request.replace_original {
                                replacement_path_spec(request.input@, process_id, "audio-delete"@)
                            } else {
                                output
                            },
                            final_output: if request.replace_original {
                                request.input@
                            } else {
                                output
                            },
                            replace_original: request.replace_original,
                        },
                    )
                },
            },
        }
    }
}

/// The plan of a removal request on a file with this probe; the process id
/// names the temporary file that replaces the original.
pub fn plan_delete(request: &DeleteAudioRequest, probe: &Probe, process_id: u32) -> (r: Result<
    DeletePlan,
    TrackforgeError,
>)
    ensures
        result_view(r) == delete_plan_spec(request, probe, process_id),
        r matches Err(TrackforgeError::NothingToDelete) <==> delete_asks_nothing(request),
{
    if request.audio_indices.len() == 0 && request.titles.len() == 0
        && request.default_audio_ordinal.is_none() {
        return Err(TrackforgeError::NothingToDelete);
    }
    match validate_audio_indices(probe, request.audio_indices.as_slice()) {
        Err(e) => {
            return Err(e);
        },
        Ok(()) => {},
    }
    match check_metadata(probe, &request.titles, request.default_audio_ordinal) {
        Err(e) => {
            return Err(e);
        },
        Ok(()) => {},
    }
    let output = match &request.output {
        Some(o) => o.clone(),
        None => if request.audio_indices.len() == 0 {
            default_audio_metadata_output_path(request.input.as_str())
        } else {
            default_delete_audio_output_path(request.input.as_str())
        },
    };
    if request.replace_original {
        let work = temporary_replacement_path(request.input.as_str(), process_id, "audio-delete", true);
        Ok(
            DeletePlan {
                work_output: work,
                final_output: request.input.clone(),
                replace_original: true,
            },
        )
    } else {
        Ok(DeletePlan { work_output: output.clone(), final_output: output, replace_original: false })
    }
}

/// The conversion a processing job makes: the track (by its position among
/// the audio tracks), the format, the mode and the default flag.
#[derive(Clone, Copy)]
pub struct ConversionChoice {
    pub track_position: usize,
    pub format: TargetFormat,
    pub mode: TrackMode,
    pub make_default: bool,
}

/// Where ffmpeg writes in a processing job.
pub enum WorkOutput {
    /// A file in the local temporary folder, named by the caller.
    LocalTemporary,
    /// This path.
    At(String),
}

/// The mathematical value of where ffmpeg writes.
pub enum WorkOutputView {
    LocalTemporary,
    At(Seq<char>),
}

impl View for WorkOutput {
    type V = WorkOutputView;

    open spec fn view(&self) -> WorkOutputView {
        match self {
            WorkOutput::LocalTemporary => WorkOutputView::LocalTemporary,
            WorkOutput::At(p) => WorkOutputView::At(p@),
        }
    }
}

/// What a processing job does: the conversion, if any, the file the job
/// leaves as its result, and where ffmpeg writes.
pub struct ProcessPlan {
    pub conversion: Option<ConversionChoice>,
    pub final_output: String,
    pub work_output: WorkOutput,
    pub replace_original: bool,
    pub use_local_temp: bool,
}

/// The mathematical value of a processing plan.
pub struct ProcessPlanView {
    pub conversion: Option<ConversionChoice>,
    pub final_output: Seq<char>,
    pub work_output: WorkOutputView,
    pub replace_original: bool,
    pub use_local_temp: bool,
}

impl View for ProcessPlan {
    type V = ProcessPlanView;

    open spec fn view(&self) -> ProcessPlanView {
        ProcessPlanView {
            conversion: self.conversion,
            final_output: self.final_output@,
            work_output: self.work_output@,
            replace_original: self.replace_original,
            use_local_temp: self.use_local_temp,
        }
    }
}

/// A processing request that asks for no operation at all.
pub open spec fn process_asks_nothing(request: &ProcessFileRequest) -> bool {
    request.convert is None && request.delete_audio_indices@.len() == 0 && request.titles@.len() == 0
        && request.default_audio_ordinal is None
}

/// The conversion a processing request asks for, or why it is refused:
/// the track, then the format, then the mode.
pub open spec fn conversion_spec(convert: Option<ConvertOperationRequest>, probe: &Probe) -> Result<
    Option<ConversionChoice>,
    ErrorView,
> {
    match convert {
        None => Ok(None),
        Some(c) => match position_of(audio_stream_indices(probe), c.audio_index) {
            None => Err(ErrorView::UnknownAudioStream(c.audio_index)),
            Some(k) => match parse_format_spec(c.format@) {
                None => Err(ErrorView::UnsupportedFormat(c.format@)),
                Some(f) => match parse_mode_spec(c.mode@) {
                    None => Err(ErrorView::UnsupportedMode(c.mode@)),
                    Some(m) => Ok(
                        Some(
                            ConversionChoice {
                                track_position: k as usize,
                                format: f,
                                mode: m,
                                make_default: c.make_default,
                            },
                        ),
                    ),
                },
            },
        },
    }
}

/// The file a processing job leaves: the original when it is replaced,
/// otherwise the default output named by the operations that apply.
pub open spec fn process_final_output(request: &ProcessFileRequest, conversion: Option<ConversionChoice>) -> Seq<
    char,
> {
    if request.replace_original {
        request.input@
    } else {
        tagged_output_path(
            request.input@,
            process_tag_spec(
                match conversion {
                    Some(c) => Some(slug_spec(c.format)),
                    None => None,
                },
                request.delete_audio_indices@.len() > 0,
                request.titles@.len() > 0 || request.default_audio_ordinal is Some,
            ),
        )
    }
}

/// The plan of a processing request, or why it is refused: a request that
/// asks for nothing, then the stream indices to remove, the titles, the
/// default ordinal and the conversion. ffmpeg writes in the local temporary
/// folder when asked to, else next to the original when it is to be
/// replaced, else straight to the final output.
pub open spec fn process_plan_spec(request: &ProcessFileRequest, probe: &Probe, process_id: u32) -> Result<
    ProcessPlanView,
    ErrorView,
> {
    if process_asks_nothing(request) {
        Err(ErrorView::NothingToProcess)
    } else {
        match first_unknown(audio_stream_indices(probe), request.delete_audio_indices@) {
            Some(x) => Err(ErrorView::UnknownAudioStream(x)),
            None => match metadata_error(request.titles@, request.default_audio_ordinal, probe) {
                Some(e) => Err(e),
                None => match conversion_spec(request.convert, probe) {
                    Err(e) => Err(e),
                    Ok(conversion) => {
                        let final_output = process_final_output(request, conversion);
                        Ok(
                            ProcessPlanView {
                                conversion,
                                final_output,
                                work_output: if request.use_local_temp {
                                    WorkOutputView::LocalTemporary
                                } else if request.replace_original {
                                    WorkOutputView::At(
                                        replacement_path_spec(request.input@, process_id, "process"@),
                                    )
                                } else {
                                    WorkOutputView::At(final_output)
                                },
                                replace_original: request.replace_original,
                                use_local_temp: request.use_local_temp,
                            },
                        )
                    },
                },
            },
        }
    }
}

fn plan_conversion(convert: &Option<ConvertOperationRequest>, probe: &Probe) -> (r: Result<
    Option<ConversionChoice>,
    TrackforgeError,
>)
    ensures
        match conversion_spec(*convert, probe) {
            Ok(c) => r == Ok::<Option<ConversionChoice>, TrackforgeError>(c),
            Err(e) => r matches Err(x) && x@ == e,
        },
{
    match convert {
        None => Ok(None),
        Some(c) => {
            let k = match track_position(probe, c.audio_index) {
                Some(k) => k,
                None => {
                    return Err(TrackforgeError::UnknownAudioStream(c.audio_index));
                },
            };
            let format = match TargetFormat::parse(c.format.as_str()) {
                Ok(f) => f,
                Err(e) => {
                    return Err(e);
                },
            };
            let mode = match TrackMode::parse(c.mode.as_str()) {
                Ok(m) => m,
                Err(e) => {
                    return Err(e);
                },
            };
            Ok(Some(ConversionChoice { track_position: k, format, mode, make_default: c.make_default }))
        },
    }
}

/// The plan of a processing request on a file with this probe; the process
/// id names the temporary file that replaces the original.
pub fn plan_process(request: &ProcessFileRequest, probe: &Probe, process_id: u32) -> (r: Result<
    ProcessPlan,
    TrackforgeError,
>)
    ensures
        result_view(r) == process_plan_spec(request, probe, process_id),
        r matches Err(TrackforgeError::NothingToProcess) <==> process_asks_nothing(request),
{
    if request.convert.is_none() && request.delete_audio_indices.len() == 0 && request.titles.len() == 0
        && request.default_audio_ordinal.is_none() {
        return Err(TrackforgeError::NothingToProcess);
    }
    match validate_audio_indices(probe, request.delete_audio_indices.as_slice()) {
        Err(e) => {
            return Err(e);
        },
        Ok(()) => {},
    }
    match check_metadata(probe, &request.titles, request.default_audio_ordinal) {
        Err(e) => {
            return Err(e);
        },
        Ok(()) => {},
    }
    let conversion = match plan_conversion(&request.convert, probe) {
        Ok(c) => c,
        Err(e) => {
            return Err(e);
        },
    };
    let final_output = if request.replace_original {
        request.input.clone()
    } else {
        let slug = match conversion {
            Some(c) => Some(c.format.slug()),
            None => None,
        };
        default_process_output_path(
            request.input.as_str(),
            slug,
            request.delete_audio_indices.len() > 0,
            request.titles.len() > 0 || request.default_audio_ordinal.is_some(),
        )
    };
    let work_output = if request.use_local_temp {
        WorkOutput::LocalTemporary
    } else if request.replace_original {
        WorkOutput::At(temporary_replacement_path(request.input.as_str(), process_id, "process", true))
    } else {
        WorkOutput::At(final_output.clone())
    };
    Ok(
        ProcessPlan {
            conversion,
            final_output,
            work_output,
            replace_original: request.replace_original,
            use_local_temp: request.use_local_temp,
        },
    )
}

/// Where a job stands once its paths are planned.
#[derive(Clone, Copy, PartialEq, Eq, Structural)]
pub enum FinalizeState {
    /// ffmpeg is running; `local` when it writes in the local temporary
    /// folder, `replace` when the original is to be replaced.
    RunningFfmpeg { local: bool, replace: bool },
    /// The output is being put in place.
    Finalizing { local: bool },
    /// The local temporary files are being removed.
    CleaningUp { succeeded: bool },
    /// The job is over.
    Finished { succeeded: bool },
}

/// What happened last.
#[derive(Clone, Copy, PartialEq, Eq, Structural)]
pub enum FinalizeEvent {
    /// ffmpeg ended, successfully or not.
    FfmpegDone { succeeded: bool },
    /// The output was put in place, or that failed.
    FinalizeDone { succeeded: bool },
    /// The local temporary files were removed (failures there are ignored).
    CleanupDone,
}

/// What the job does next.
#[derive(Clone, Copy, PartialEq, Eq, Structural)]
pub enum FinalizeAction {
    /// Replace the original with the file ffmpeg wrote next to it.
    ReplaceOriginal,
    /// Copy the local temporary output to its destination; with
    /// `replace_original`, next to the original and then in its place.
    CopyFromLocalTemp { replace_original: bool },
    /// Remove the local temporary input and output.
    RemoveLocalTemps,
    /// Report the end of the job.
    Report { succeeded: bool },
    /// Nothing: the event does not belong to this state.
    Wait,
}

/// The first state of a job.
pub open spec fn initial_finalize_state(use_local_temp: bool, replace_original: bool) -> FinalizeState {
    FinalizeState::RunningFfmpeg { local: use_local_temp, replace: replace_original }
}

/// The next state and action of a job. After ffmpeg succeeds, the output
/// is put in place: copied from the local temporary folder, or put in the
/// original's place, or already where it belongs. After a failure nothing
/// is put in place. Local temporary files are removed in either case
/// before the job reports.
pub open spec fn finalize_spec(state: FinalizeState, event: FinalizeEvent) -> (FinalizeState, FinalizeAction) {
    match (state, event) {
        (FinalizeState::RunningFfmpeg { local, replace }, FinalizeEvent::FfmpegDone { succeeded }) => {
            if !succeeded {
                if local {
                    (FinalizeState::CleaningUp { succeeded: false }, FinalizeAction::RemoveLocalTemps)
                } else {
                    (FinalizeState::Finished { succeeded: false }, FinalizeAction::Report { succeeded: false })
                }
            } else if local {
                (
                    FinalizeState::Finalizing { local: true },
                    FinalizeAction::CopyFromLocalTemp { replace_original: replace },
                )
            } else if replace {
                (FinalizeState::Finalizing { local: false }, FinalizeAction::ReplaceOriginal)
            } else {
                (FinalizeState::Finished { succeeded: true }, FinalizeAction::Report { succeeded: true })
            }
        },
        (FinalizeState::Finalizing { local }, FinalizeEvent::FinalizeDone { succeeded }) => {
            if local {
                (FinalizeState::CleaningUp { succeeded }, FinalizeAction::RemoveLocalTemps)
            } else {
                (FinalizeState::Finished { succeeded }, FinalizeAction::Report { succeeded })
            }
        },
        (FinalizeState::CleaningUp { succeeded }, FinalizeEvent::CleanupDone) => {
            (FinalizeState::Finished { succeeded }, FinalizeAction::Report { succeeded })
        },
        _ => (state, FinalizeAction::Wait),
    }
}

/// The first state of a job.
pub fn initial_finalize(use_local_temp: bool, replace_original: bool) -> (r: FinalizeState)
    ensures
        r == initial_finalize_state(use_local_temp, replace_original),
{
    FinalizeState::RunningFfmpeg { local: use_local_temp, replace: replace_original }
}

/// The next state and action of a job.
pub fn finalize_step(state: FinalizeState, event: FinalizeEvent) -> (r: (FinalizeState, FinalizeAction))
    ensures
        r == finalize_spec(state, event),
{
    match (state, event) {
        (FinalizeState::RunningFfmpeg { local, replace }, FinalizeEvent::FfmpegDone { succeeded }) => {
            if !succeeded {
                if local {
                    (FinalizeState::CleaningUp { succeeded: false }, FinalizeAction::RemoveLocalTemps)
                } else {
                    (FinalizeState::Finished { succeeded: false }, FinalizeAction::Report { succeeded: false })
                }
            } else if local {
                (
                    FinalizeState::Finalizing { local: true },
                    FinalizeAction::CopyFromLocalTemp { replace_original: replace },
                )
            } else if replace {
                (FinalizeState::Finalizing { local: false }, FinalizeAction::ReplaceOriginal)
            } else {
                (FinalizeState::Finished { succeeded: true }, FinalizeAction::Report { succeeded: true })
            }
        },
        (FinalizeState::Finalizing { local }, FinalizeEvent::FinalizeDone { succeeded }) => {
            if local {
                (FinalizeState::CleaningUp { succeeded }, FinalizeAction::RemoveLocalTemps)
            } else {
                (FinalizeState::Finished { succeeded }, FinalizeAction::Report { succeeded })
            }
        },
        (FinalizeState::CleaningUp { succeeded }, FinalizeEvent::CleanupDone) => {
            (FinalizeState::Finished { succeeded }, FinalizeAction::Report { succeeded })
        },
        _ => (state, FinalizeAction::Wait),
    }
}

/// An action that puts the job's output in the original's place.
pub open spec fn touches_original(action: FinalizeAction) -> bool {
    action == FinalizeAction::ReplaceOriginal || action == FinalizeAction::CopyFromLocalTemp {
        replace_original: true,
    }
}

/// The states and actions of a job that starts in `state` and sees
/// `events` in turn: the pair after each event.
pub open spec fn finalize_run(state: FinalizeState, events: Seq<FinalizeEvent>) -> Seq<(FinalizeState, FinalizeAction)>
    decreases events.len(),
{
    if events.len() == 0 {
        Seq::empty()
    } else {
        let step = finalize_spec(state, events[0]);
        seq![step] + finalize_run(step.0, events.drop_first())
    }
}

/// The original is replaced only after ffmpeg succeeded: in any run of a
/// job, an action that puts the output in the original's place answers the
/// event that ffmpeg ended well, in a job that was asked to replace the
/// original, and it comes once at most.
pub proof fn law_replace_only_after_success(
    use_local_temp: bool,
    replace_original: bool,
    events: Seq<FinalizeEvent>,
    i: int,
)
    requires
        0 <= i < events.len(),
        touches_original(finalize_run(initial_finalize_state(use_local_temp, replace_original), events)[i].1),
    ensures
        events[i] == (FinalizeEvent::FfmpegDone { succeeded: true }),
        replace_original,
        forall|j: int|
            0 <= j < events.len() && j != i ==> !touches_original(
                #[trigger] finalize_run(initial_finalize_state(use_local_temp, replace_original), events)[j].1,
            ),
{
    lemma_run_touches(initial_finalize_state(use_local_temp, replace_original), events, i);
}

proof fn lemma_run_touches(state: FinalizeState, events: Seq<FinalizeEvent>, i: int)
    requires
        0 <= i < events.len(),
        touches_original(finalize_run(state, events)[i].1),
    ensures
        events[i] == (FinalizeEvent::FfmpegDone { succeeded: true }),
        state matches FinalizeState::RunningFfmpeg { replace, .. } && replace,
        forall|j: int| 0 <= j < i ==> (#[trigger] finalize_run(state, events)[j]).0 == state,
        forall|j: int| 0 <= j < i ==> (#[trigger] finalize_run(state, events)[j]).1 == FinalizeAction::Wait,
        forall|j: int|
            0 <= j < events.len() && j != i ==> !touches_original(#[trigger] finalize_run(state, events)[j].1),
    decreases events.len(),
{
    let step = finalize_spec(state, events[0]);
    let rest = finalize_run(step.0, events.drop_first());
    lemma_run_len(step.0, events.drop_first());
    assert(finalize_run(state, events) == seq![step] + rest);
    if i == 0 {
        assert(finalize_run(state, events)[0] == step);
        assert(events[0] == events[i]);
        // after the step the job is finalizing, and never runs ffmpeg again
        lemma_run_never_touches(step.0, events.drop_first());
        assert forall|j: int|
            0 <= j < events.len() && j != i implies !touches_original(
                #[trigger] finalize_run(state, events)[j].1,
            ) by {
            assert(finalize_run(state, events)[j] == rest[j - 1]);
        }
    } else {
        assert(finalize_run(state, events)[i] == rest[i - 1]);
        if step.1 != FinalizeAction::Wait {
            // a step that is not a wait leaves the running state for good
            lemma_run_never_touches(step.0, events.drop_first());
            assert(false);
        }
        assert(step.0 == state);
        lemma_run_touches(state, events.drop_first(), i - 1);
        assert(events.drop_first()[i - 1] == events[i]);
        assert forall|j: int| 0 <= j < i implies (#[trigger] finalize_run(state, events)[j]).0 == state
            && finalize_run(state, events)[j].1 == FinalizeAction::Wait by {
            if j > 0 {
                assert(finalize_run(state, events)[j] == rest[j - 1]);
            }
        }
        assert forall|j: int|
            0 <= j < events.len() && j != i implies !touches_original(
                #[trigger] finalize_run(state, events)[j].1,
            ) by {
            if j > 0 {
                assert(finalize_run(state, events)[j] == rest[j - 1]);
            }
        }
    }
}

proof fn lemma_run_len(state: FinalizeState, events: Seq<FinalizeEvent>)
    ensures
        finalize_run(state, events).len() == events.len(),
    decreases events.len(),
{
    if events.len() > 0 {
        lemma_run_len(finalize_spec(state, events[0]).0, events.drop_first());
    }
}

/// A run that starts after ffmpeg has ended never touches the original.
proof fn lemma_run_never_touches(state: FinalizeState, events: Seq<FinalizeEvent>)
    requires
        !(state is RunningFfmpeg),
    ensures
        forall|j: int| 0 <= j < events.len() ==> !touches_original(#[trigger] finalize_run(state, events)[j].1),
    decreases events.len(),
{
    if events.len() > 0 {
        let step = finalize_spec(state, events[0]);
        let rest = finalize_run(step.0, events.drop_first());
        lemma_run_len(step.0, events.drop_first());
        assert(finalize_run(state, events) == seq![step] + rest);
        lemma_run_never_touches(step.0, events.drop_first());
        assert forall|j: int| 0 <= j < events.len() implies !touches_original(
            #[trigger] finalize_run(state, events)[j].1,
        ) by {
            if j > 0 {
                assert(finalize_run(state, events)[j] == rest[j - 1]);
            }
        }
    }
}

/// A file of the destination folder left by an interrupted copy from the
/// local temporary folder to `final_output`: a leftover copy
/// (`is_stale_local_copy_spec`) for the stem of the final output, or its
/// file name where it has no stem. A final output without a file name has
/// none.
pub open spec fn is_stale_copy_for_output_spec(final_output: Seq<char>, name: Seq<char>) -> bool {
    match path_file_name_result(final_output) {
        None => false,
        Some(file_name) => is_stale_local_copy_spec(
            name,
            match path_file_stem_result(final_output) {
                Some(s) => s,
                None => file_name,
            },
        ),
    }
}

/// Whether the file `name` of the destination folder is left by an
/// interrupted copy to `final_output`, and is to be removed before a new
/// one.
pub fn is_stale_copy_for_output(final_output: &str, name: &str) -> (b: bool)
    ensures
        b == is_stale_copy_for_output_spec(final_output@, name@),
{
    let file_name = match path_file_name(final_output) {
        Some(f) => f,
        None => {
            return false;
        },
    };
    let stem = match path_file_stem(final_output) {
        Some(s) => s,
        None => file_name,
    };
    is_stale_local_copy(name, stem.as_str())
}

/// A conversion job that keeps the original writes where it was asked to:
/// to the requested output when one is named, else to the default name
/// next to the input; both its work and final outputs are that file. A job
/// that replaces the original writes a hidden temporary file next to it
/// and leaves the original's path as its result.
pub proof fn law_convert_output_choice(request: &ConvertRequest, probe: &Probe, process_id: u32)
    requires
        convert_plan_spec(request, probe, process_id) is Ok,
    ensures
        ({
            let p = convert_plan_spec(request, probe, process_id)->Ok_0;
            &&& p.replace_original == request.replace_original
            &&& !request.replace_original ==> match request.output {
                Some(o) => p.work_output == o@ && p.final_output == o@,
                None => p.work_output == tagged_output_path(request.input@, slug_spec(p.format))
                    && p.final_output == p.work_output,
            }
            &&& request.replace_original ==> p.final_output == request.input@ && p.work_output
                == replacement_path_spec(request.input@, process_id, slug_spec(p.format))
            &&& parse_format_spec(request.format@) == Some(p.format)
            &&& parse_mode_spec(request.mode@) == Some(p.mode)
        }),
{
}

/// A removal job that keeps the original writes to the requested output
/// when one is named, else to the default name, which says whether tracks
/// are removed or only metadata changes; one that replaces the original
/// writes a hidden temporary file next to it and leaves the original's
/// path as its result.
pub proof fn law_delete_output_choice(request: &DeleteAudioRequest, probe: &Probe, process_id: u32)
    requires
        delete_plan_spec(request, probe, process_id) is Ok,
    ensures
        ({
            let p = delete_plan_spec(request, probe, process_id)->Ok_0;
            &&& p.replace_original == request.replace_original
            &&& !request.replace_original ==> match request.output {
                Some(o) => p.work_output == o@ && p.final_output == o@,
                None => p.final_output == p.work_output && p.work_output == tagged_output_path(
                    request.input@,
                    if request.audio_indices@.len() == 0 {
                        "audio_metadata"@
                    } else {
                        "audio_removed"@
                    },
                ),
            }
            &&& request.replace_original ==> p.final_output == request.input@ && p.work_output
                == replacement_path_spec(request.input@, process_id, "audio-delete"@)
        }),
{
}

proof fn lemma_waits_keep_state(state: FinalizeState, events: Seq<FinalizeEvent>, i: int)
    requires
        0 <= i < events.len(),
        forall|j: int| 0 <= j < i ==> (#[trigger] finalize_run(state, events)[j]).1 == FinalizeAction::Wait,
    ensures
        finalize_run(state, events)[i] == finalize_spec(state, events[i]),
    decreases i,
{
    let step = finalize_spec(state, events[0]);
    let rest = finalize_run(step.0, events.drop_first());
    lemma_run_len(step.0, events.drop_first());
    assert(finalize_run(state, events) == seq![step] + rest);
    if i > 0 {
        assert(finalize_run(state, events)[0] == step);
        assert(step.1 == FinalizeAction::Wait);
        assert(step.0 == state) by {
            match (state, events[0]) {
                (FinalizeState::RunningFfmpeg { .. }, FinalizeEvent::FfmpegDone { .. }) => {},
                (FinalizeState::Finalizing { .. }, FinalizeEvent::FinalizeDone { .. }) => {},
                (FinalizeState::CleaningUp { .. }, FinalizeEvent::CleanupDone) => {},
                _ => {},
            }
        }
        assert forall|j: int| 0 <= j < i - 1 implies (#[trigger] rest[j]).1 == FinalizeAction::Wait by {
            assert(finalize_run(state, events)[j + 1] == rest[j]);
        }
        lemma_waits_keep_state(state, events.drop_first(), i - 1);
        assert(finalize_run(state, events)[i] == rest[i - 1]);
        assert(events.drop_first()[i - 1] == events[i]);
    }
}

/// After ffmpeg succeeds, a job first puts its output in place: a job that
/// ran in the local temporary folder copies the output from there (to the
/// original's place when it replaces the original, else to its
/// destination) before any cleanup; a job that wrote next to the original
/// replaces it; a job that wrote straight to its destination reports
/// success. In any run, this is the answer to the first event that gets
/// one, when that event is the successful end of ffmpeg.
pub proof fn law_success_puts_output_in_place(
    use_local_temp: bool,
    replace_original: bool,
    events: Seq<FinalizeEvent>,
    i: int,
)
    requires
        0 <= i < events.len(),
        events[i] == (FinalizeEvent::FfmpegDone { succeeded: true }),
        forall|j: int|
            0 <= j < i ==> (#[trigger] finalize_run(
                initial_finalize_state(use_local_temp, replace_original),
                events,
            )[j]).1 == FinalizeAction::Wait,
    ensures
        ({
            let step = finalize_run(initial_finalize_state(use_local_temp, replace_original), events)[i];
            &&& use_local_temp ==> step == (
                FinalizeState::Finalizing { local: true },
                FinalizeAction::CopyFromLocalTemp { replace_original },
            )
            &&& !use_local_temp && replace_original ==> step == (
                FinalizeState::Finalizing { local: false },
                FinalizeAction::ReplaceOriginal,
            )
            &&& !use_local_temp && !replace_original ==> step == (
                FinalizeState::Finished { succeeded: true },
                FinalizeAction::Report { succeeded: true },
            )
        }),
{
    lemma_waits_keep_state(initial_finalize_state(use_local_temp, replace_original), events, i);
}

/// A processing job leaves the original's path as its result when it
/// replaces the original; ffmpeg writes in the local temporary folder when
/// asked to, else next to the original when it is replaced, else straight
/// to the final output. It converts exactly when a conversion is asked
/// for, with the format and mode named in the request.
pub proof fn law_process_output_choice(request: &ProcessFileRequest, probe: &Probe, process_id: u32)
    requires
        process_plan_spec(request, probe, process_id) is Ok,
    ensures
        ({
            let p = process_plan_spec(request, probe, process_id)->Ok_0;
            &&& p.replace_original == request.replace_original
            &&& p.use_local_temp == request.use_local_temp
            &&& request.replace_original ==> p.final_output == request.input@
            &&& request.use_local_temp ==> p.work_output == WorkOutputView::LocalTemporary
            &&& !request.use_local_temp && request.replace_original ==> p.work_output
                == WorkOutputView::At(replacement_path_spec(request.input@, process_id, "process"@))
            &&& !request.use_local_temp && !request.replace_original ==> p.work_output
                == WorkOutputView::At(p.final_output)
            &&& (p.conversion is Some <==> request.convert is Some)
            &&& match (p.conversion, request.convert) {
                (Some(c), Some(r)) => parse_format_spec(r.format@) == Some(c.format) && parse_mode_spec(
                    r.mode@,
                ) == Some(c.mode) && c.make_default == r.make_default,
                _ => true,
            }
            &&& !process_asks_nothing(request)
        }),
{
}

} // verus!
