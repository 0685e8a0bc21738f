//! The ffmpeg command lines that convert or remove audio tracks.
use vstd::prelude::*;
use crate::error::TrackforgeError;
use crate::ffprobe::{audio_count, audio_streams, is_audio, stream_is_audio, AudioTrack, Probe, Stream};
use crate::text::{
    split_char, split_once_char, split_once_spec, split_spec, str_eq, string_of, vecs_view,
    write_decimal,
    chars_of, decimal, decimal_string, eq_ignore_ascii_case, eq_ignore_ascii_case_spec, parse_u64, parse_u64_spec,
    prefixed_decimal, strings_view,
};
use crate::tools::ToolPaths;

verus! {

/// The audio formats that a track can be converted to.
#[derive(Debug, Clone, Copy, PartialEq, Eq, Structural)]
pub enum TargetFormat {
    Aac,
    Ac3,
    Mp3,
    Opus,
    Flac,
    Wav,
}

/// The ffmpeg encoder of a format.
pub open spec fn codec_spec(f: TargetFormat) -> Seq<char> {
    match f {
        TargetFormat::Aac => "aac"@,
        TargetFormat::Ac3 => "ac3"@,
        TargetFormat::Mp3 => "libmp3lame"@,
        TargetFormat::Opus => "libopus"@,
        TargetFormat::Flac => "flac"@,
        TargetFormat::Wav => "pcm_s16le"@,
    }
}

/// The name of a format shown to the user.
pub open spec fn format_label_spec(f: TargetFormat) -> Seq<char> {
    match f {
        TargetFormat::Aac => "AAC"@,
        TargetFormat::Ac3 => "AC3"@,
        TargetFormat::Mp3 => "MP3"@,
        TargetFormat::Opus => "Opus"@,
        TargetFormat::Flac => "FLAC"@,
        TargetFormat::Wav => "WAV / PCM 16-bit"@,
    }
}

/// The short name of a format, used in file names.
pub open spec fn slug_spec(f: TargetFormat) -> Seq<char> {
    match f {
        TargetFormat::Aac => "aac"@,
        TargetFormat::Ac3 => "ac3"@,
        TargetFormat::Mp3 => "mp3"@,
        TargetFormat::Opus => "opus"@,
        TargetFormat::Flac => "flac"@,
        TargetFormat::Wav => "wav"@,
    }
}

/// The format named by `name`, compared without regard to ASCII case;
/// `pcm` is another name for WAV.
pub open spec fn parse_format_spec(name: Seq<char>) -> Option<TargetFormat> {
    if eq_ignore_ascii_case_spec(name, "aac"@) {
        Some(TargetFormat::Aac)
    } else if eq_ignore_ascii_case_spec(name, "ac3"@) {
        Some(TargetFormat::Ac3)
    } else if eq_ignore_ascii_case_spec(name, "mp3"@) {
        Some(TargetFormat::Mp3)
    } else if eq_ignore_ascii_case_spec(name, "opus"@) {
        Some(TargetFormat::Opus)
    } else if eq_ignore_ascii_case_spec(name, "flac"@) {
        Some(TargetFormat::Flac)
    } else if eq_ignore_ascii_case_spec(name, "wav"@) || eq_ignore_ascii_case_spec(name, "pcm"@) {
        Some(TargetFormat::Wav)
    } else {
        None
    }
}

fn same_word(name: &[char], word: &str) -> (b: bool)
    ensures
        b == eq_ignore_ascii_case_spec(name@, word@),
{
    let w = chars_of(word);
    eq_ignore_ascii_case(name, w.as_slice())
}

impl TargetFormat {
    /// Every format, in the order the user is offered them.
    pub fn all() -> (r: Vec<TargetFormat>)
        ensures
            r@ == seq![
                TargetFormat::Aac,
                TargetFormat::Ac3,
                TargetFormat::Mp3,
                TargetFormat::Opus,
                TargetFormat::Flac,
                TargetFormat::Wav,
            ],
    {
        vec![
            TargetFormat::Aac,
            TargetFormat::Ac3,
            TargetFormat::Mp3,
            TargetFormat::Opus,
            TargetFormat::Flac,
            TargetFormat::Wav,
        ]
    }

    /// The ffmpeg encoder of the format.
    pub fn codec(self) -> (r: &'static str)
        ensures
            r@ == codec_spec(self),
    {
        match self {
            TargetFormat::Aac => "aac",
            TargetFormat::Ac3 => "ac3",
            TargetFormat::Mp3 => "libmp3lame",
            TargetFormat::Opus => "libopus",
            TargetFormat::Flac => "flac",
            TargetFormat::Wav => "pcm_s16le",
        }
    }

    /// The name of the format shown to the user.
    pub fn label(self) -> (r: &'static str)
        ensures
            r@ == format_label_spec(self),
    {
        match self {
            TargetFormat::Aac => "AAC",
            TargetFormat::Ac3 => "AC3",
            TargetFormat::Mp3 => "MP3",
            TargetFormat::Opus => "Opus",
            TargetFormat::Flac => "FLAC",
            TargetFormat::Wav => "WAV / PCM 16-bit",
        }
    }

    /// The short name of the format, used in file names.
    pub fn slug(self) -> (r: &'static str)
        ensures
            r@ == slug_spec(self),
    {
        match self {
            TargetFormat::Aac => "aac",
            TargetFormat::Ac3 => "ac3",
            TargetFormat::Mp3 => "mp3",
            TargetFormat::Opus => "opus",
            TargetFormat::Flac => "flac",
            TargetFormat::Wav => "wav",
        }
    }

    /// The format that `value` names; an error for any other name.
    pub fn parse(value: &str) -> (r: Result<TargetFormat, TrackforgeError>)
        ensures
            match parse_format_spec(value@) {
                Some(f) => r == Ok::<TargetFormat, TrackforgeError>(f),
                None => r matches Err(TrackforgeError::UnsupportedFormat(v)) && v@ == value@,
            },
    {
        let name = chars_of(value);
        let n = name.as_slice();
        if same_word(n, "aac") {
            Ok(TargetFormat::Aac)
        } else if same_word(n, "ac3") {
            Ok(TargetFormat::Ac3)
        } else if same_word(n, "mp3") {
            Ok(TargetFormat::Mp3)
        } else if same_word(n, "opus") {
            Ok(TargetFormat::Opus)
        } else if same_word(n, "flac") {
            Ok(TargetFormat::Flac)
        } else if same_word(n, "wav") || same_word(n, "pcm") {
            Ok(TargetFormat::Wav)
        } else {
            Err(TrackforgeError::UnsupportedFormat(String::from_str(value)))
        }
    }
}

impl std::str::FromStr for TargetFormat {
    type Err = TrackforgeError;

    fn from_str(value: &str) -> (r: Result<TargetFormat, TrackforgeError>)
        ensures
            match parse_format_spec(value@) {
                Some(f) => r == Ok::<TargetFormat, TrackforgeError>(f),
                None => r matches Err(TrackforgeError::UnsupportedFormat(v)) && v@ == value@,
            },
    {
        TargetFormat::parse(value)
    }
}

/// What to do with the converted track.
#[derive(Debug, Clone, Copy, PartialEq, Eq, Structural)]
pub enum TrackMode {
    /// The converted track takes the place of the original one.
    Replace,
    /// The original tracks stay and the converted track is added at the end.
    Add,
}

/// The description of a mode shown to the user.
pub open spec fn mode_label_spec(m: TrackMode) -> Seq<char> {
    match m {
        TrackMode::Replace => "Sustituir la pista original"@,
        TrackMode::Add => "Anadir la pista convertida y conservar la original"@,
    }
}

/// The mode named by `name`, compared without regard to ASCII case.
pub open spec fn parse_mode_spec(name: Seq<char>) -> Option<TrackMode> {
    if eq_ignore_ascii_case_spec(name, "replace"@) || eq_ignore_ascii_case_spec(name, "sustituir"@)
        || eq_ignore_ascii_case_spec(name, "reemplazar"@) {
        Some(TrackMode::Replace)
    } else if eq_ignore_ascii_case_spec(name, "add"@) || eq_ignore_ascii_case_spec(name, "anadir"@)
        || eq_ignore_ascii_case_spec(name, "agregar"@) {
        Some(TrackMode::Add)
    } else {
        None
    }
}

impl TrackMode {
    /// The description of the mode shown to the user.
    pub fn label(self) -> (r: &'static str)
        ensures
            r@ == mode_label_spec(self),
    {
        match self {
            TrackMode::Replace => "Sustituir la pista original",
            TrackMode::Add => "Anadir la pista convertida y conservar la original",
        }
    }

    /// The mode that `value` names; an error for any other name.
    pub fn parse(value: &str) -> (r: Result<TrackMode, TrackforgeError>)
        ensures
            match parse_mode_spec(value@) {
                Some(m) => r == Ok::<TrackMode, TrackforgeError>(m),
                None => r matches Err(TrackforgeError::UnsupportedMode(v)) && v@ == value@,
            },
    {
        let name = chars_of(value);
        let n = name.as_slice();
        if same_word(n, "replace") || same_word(n, "sustituir") || same_word(n, "reemplazar") {
            Ok(TrackMode::Replace)
        } else if same_word(n, "add") || same_word(n, "anadir") || same_word(n, "agregar") {
            Ok(TrackMode::Add)
        } else {
            Err(TrackforgeError::UnsupportedMode(String::from_str(value)))
        }
    }
}

impl std::str::FromStr for TrackMode {
    type Err = TrackforgeError;

    fn from_str(value: &str) -> (r: Result<TrackMode, TrackforgeError>)
        ensures
            match parse_mode_spec(value@) {
                Some(m) => r == Ok::<TrackMode, TrackforgeError>(m),
                None => r matches Err(TrackforgeError::UnsupportedMode(v)) && v@ == value@,
            },
    {
        TrackMode::parse(value)
    }
}

/// A new title for the audio track with the given ordinal.
pub struct AudioTitleUpdate {
    pub audio_ordinal: usize,
    pub title: String,
}

/// Everything a conversion needs.
pub struct ConvertOptions<'a> {
    pub tools: &'a ToolPaths,
    pub input: &'a str,
    pub output: &'a str,
    pub probe: &'a Probe,
    pub track: &'a AudioTrack,
    pub format: TargetFormat,
    pub mode: TrackMode,
    pub make_default: bool,
    pub default_audio_ordinal: Option<usize>,
    pub titles: &'a [AudioTitleUpdate],
}

/// Everything a removal of audio tracks needs.
pub struct DeleteAudioOptions<'a> {
    pub tools: &'a ToolPaths,
    pub input: &'a str,
    pub output: &'a str,
    pub probe: &'a Probe,
    pub stream_indices: &'a [usize],
    pub default_audio_ordinal: Option<usize>,
    pub titles: &'a [AudioTitleUpdate],
}

/// The bit rate given to the encoder: none for the lossless formats (FLAC,
/// WAV), none where the source reports no positive whole bit rate, the
/// source rate capped at 640 kbit/s for AC3, and the source rate otherwise.
pub open spec fn target_bitrate_spec(format: TargetFormat, bit_rate: Option<Seq<char>>) -> Option<nat> {
    if format == TargetFormat::Flac || format == TargetFormat::Wav {
        None
    } else {
        match bit_rate {
            None => None,
            Some(b) => match parse_u64_spec(b) {
                None => None,
                Some(v) => if v == 0 {
                    None
                } else if format == TargetFormat::Ac3 && v > 640_000 {
                    Some(640_000)
                } else {
                    Some(v as nat)
                },
            },
        }
    }
}

/// The bit rate argument for converting `track` to `format`, in bit/s.
pub fn target_bitrate(format: TargetFormat, track: &AudioTrack) -> (r: Option<String>)
    ensures
        match target_bitrate_spec(format, track@.bit_rate) {
            Some(v) => r matches Some(s) && s@ == decimal(v),
            None => r is None,
        },
{
    if format == TargetFormat::Flac || format == TargetFormat::Wav {
        return None;
    }
    let bit_rate = match &track.bit_rate {
        Some(b) => b,
        None => return None,
    };
    let digits = chars_of(bit_rate.as_str());
    let v = match parse_u64(digits.as_slice()) {
        Some(v) => v,
        None => return None,
    };
    if v == 0 {
        None
    } else if format == TargetFormat::Ac3 {
        let capped = if v > 640_000 { 640_000 } else { v };
        Some(decimal_string(capped))
    } else {
        Some(decimal_string(v))
    }
}

/// The arguments that every ffmpeg run starts with: quiet output, progress
/// reports on standard output, and the input file.
pub open spec fn base_args_spec(input: Seq<char>) -> Seq<Seq<char>> {
    seq![
        "-hide_banner"@,
        "-y"@,
        "-nostats"@,
        "-v"@,
        "error"@,
        "-progress"@,
        "pipe:1"@,
        "-i"@,
        input,
    ]
}

/// The ffmpeg name of the input stream with the given index.
pub open spec fn stream_ref(index: usize) -> Seq<char> {
    "0:"@ + decimal(index as nat)
}

/// `-map 0:<index>` for each stream, in order.
pub open spec fn map_all_streams(streams: Seq<Stream>) -> Seq<Seq<char>>
    decreases streams.len(),
{
    if streams.len() == 0 {
        Seq::empty()
    } else {
        map_all_streams(streams.drop_last()) + seq!["-map"@, stream_ref(streams.last().index)]
    }
}

/// The last position of a stream with the given index.
pub open spec fn last_position(streams: Seq<Stream>, stream_index: usize) -> Option<int>
    decreases streams.len(),
{
    if streams.len() == 0 {
        None
    } else if streams.last().index == stream_index {
        Some(streams.len() - 1)
    } else {
        last_position(streams.drop_last(), stream_index)
    }
}

/// A position that `last_position` gives holds a stream with that index,
/// and no later position does.
pub proof fn lemma_last_position(streams: Seq<Stream>, stream_index: usize)
    ensures
        match last_position(streams, stream_index) {
            Some(p) => 0 <= p < streams.len() && streams[p].index == stream_index && forall|q: int|
                p < q < streams.len() ==> streams[q].index != stream_index,
            None => forall|q: int| 0 <= q < streams.len() ==> streams[q].index != stream_index,
        },
    decreases streams.len(),
{
    if streams.len() > 0 {
        lemma_last_position(streams.drop_last(), stream_index);
        assert forall|q: int| 0 <= q < streams.len() - 1 implies streams.drop_last()[q] == streams[q] by {}
    }
}

/// The position of the converted track among the output streams: the place
/// of the selected stream when it replaces it (0 when no stream has its
/// index), after all the streams when it is added.
pub open spec fn converted_output_index_spec(streams: Seq<Stream>, mode: TrackMode, stream_index: usize) -> nat {
    match mode {
        TrackMode::Replace => match last_position(streams, stream_index) {
            Some(p) => p as nat,
            None => 0,
        },
        TrackMode::Add => streams.len(),
    }
}

/// The ordinal of the converted track among the output audio tracks: the
/// number of audio streams before the selected stream when it replaces it,
/// the number of audio streams when it is added.
pub open spec fn converted_audio_ordinal_spec(streams: Seq<Stream>, mode: TrackMode, stream_index: usize) -> nat {
    match mode {
        TrackMode::Replace => match last_position(streams, stream_index) {
            Some(p) => audio_count(streams.take(p)),
            None => 0,
        },
        TrackMode::Add => audio_count(streams),
    }
}

/// The arguments that clear the default flag of every audio track and set
/// it on the track with the given ordinal.
pub open spec fn default_disposition_args(ordinal: nat) -> Seq<Seq<char>> {
    seq!["-disposition:a"@, "0"@, "-disposition:a:"@ + decimal(ordinal), "default"@]
}

/// The title arguments of the requested title changes; in add mode a new
/// title of the source track is given to the converted track too.
pub open spec fn title_args(
    titles: Seq<AudioTitleUpdate>,
    mode: TrackMode,
    track_ordinal: usize,
    converted: nat,
) -> Seq<Seq<char>>
    decreases titles.len(),
{
    if titles.len() == 0 {
        Seq::empty()
    } else {
        let u = titles.last();
        title_args(titles.drop_last(), mode, track_ordinal, converted) + seq![
            "-metadata:s:a:"@ + decimal(u.audio_ordinal as nat),
            "title="@ + u.title@,
        ] + if mode == TrackMode::Add && u.audio_ordinal == track_ordinal {
            seq!["-metadata:s:a:"@ + decimal(converted), "title="@ + u.title@]
        } else {
            Seq::empty()
        }
    }
}

/// The stream selection of a conversion: every stream in place, or every
/// stream followed by the selected one again.
pub open spec fn convert_map_args(streams: Seq<Stream>, mode: TrackMode, stream_index: usize) -> Seq<Seq<char>> {
    match mode {
        TrackMode::Replace => map_all_streams(streams),
        TrackMode::Add => seq!["-map"@, "0"@, "-map"@, stream_ref(stream_index)],
    }
}

/// The encoder arguments: copy every stream, encode the converted one.
pub open spec fn codec_args(format: TargetFormat, bit_rate: Option<Seq<char>>, out: nat) -> Seq<Seq<char>> {
    seq!["-c"@, "copy"@, "-c:"@ + decimal(out), codec_spec(format)] + match target_bitrate_spec(
        format,
        bit_rate,
    ) {
        Some(b) => seq!["-b:"@ + decimal(out), decimal(b)],
        None => Seq::empty(),
    }
}

/// The default-track arguments of a conversion.
pub open spec fn convert_default_args(make_default: bool, default_audio_ordinal: Option<usize>, converted: nat) -> Seq<Seq<char>> {
    if make_default {
        default_disposition_args(converted)
    } else {
        match default_audio_ordinal {
            Some(d) => default_disposition_args(d as nat),
            None => Seq::empty(),
        }
    }
}

/// The whole ffmpeg command line of a conversion.
pub open spec fn convert_args_spec(o: &ConvertOptions) -> Seq<Seq<char>> {
    let streams = o.probe.streams@;
    let out = converted_output_index_spec(streams, o.mode, o.track.stream_index);
    let ord = converted_audio_ordinal_spec(streams, o.mode, o.track.stream_index);
    base_args_spec(o.input@) + convert_map_args(streams, o.mode, o.track.stream_index) + codec_args(
        o.format,
        o.track@.bit_rate,
        out,
    ) + convert_default_args(o.make_default, o.default_audio_ordinal, ord) + title_args(
        o.titles@,
        o.mode,
        o.track.audio_ordinal,
        ord,
    ) + seq![o.output@]
}

fn lit(s: &str) -> (r: String)
    ensures
        r@ == s@,
{
    String::from_str(s)
}

/// The first arguments of every ffmpeg run.
pub fn base_args(input: &str) -> (r: Vec<String>)
    ensures
        strings_view(r@) == base_args_spec(input@),
{
    let r = vec![
        lit("-hide_banner"),
        lit("-y"),
        lit("-nostats"),
        lit("-v"),
        lit("error"),
        lit("-progress"),
        lit("pipe:1"),
        lit("-i"),
        lit(input),
    ];
    assert(strings_view(r@) =~= base_args_spec(input@));
    r
}

/// Appends `a` and `b` to `args`.
fn push_pair(args: &mut Vec<String>, a: String, b: String)
    ensures
        strings_view(final(args)@) == strings_view(old(args)@) + seq![a@, b@],
{
    args.push(a);
    args.push(b);
    assert(strings_view(args@) =~= strings_view(old(args)@) + seq![a@, b@]);
}

/// Appends the arguments that make the audio track with the given ordinal
/// the only default one.
pub fn append_default_disposition(args: &mut Vec<String>, audio_ordinal: usize)
    ensures
        strings_view(final(args)@) == strings_view(old(args)@) + default_disposition_args(
            audio_ordinal as nat,
        ),
{
    push_pair(args, lit("-disposition:a"), lit("0"));
    push_pair(args, prefixed_decimal("-disposition:a:", audio_ordinal as u64), lit("default"));
    assert(strings_view(args@) =~= strings_view(old(args)@) + default_disposition_args(
        audio_ordinal as nat,
    ));
}

proof fn lemma_audio_count_push(s: Seq<Stream>, x: Stream)
    ensures
        audio_count(s.push(x)) == audio_count(s) + if is_audio(x) { 1nat } else { 0nat },
{
    s.lemma_filter_push(x, |t: Stream| is_audio(t));
}

/// The number of audio streams.
pub fn count_audio(streams: &Vec<Stream>) -> (n: usize)
    ensures
        n == audio_count(streams@),
{
    let mut n: usize = 0;
    let mut i: usize = 0;
    assert(audio_count(streams@.take(0)) == 0) by {
        reveal(Seq::filter);
        assert(streams@.take(0) =~= Seq::<Stream>::empty());
    }
    while i < streams.len()
        invariant
            i <= streams@.len(),
            n <= i,
            n == audio_count(streams@.take(i as int)),
        decreases streams@.len() - i,
    {
        assert(streams@.take(i + 1) =~= streams@.take(i as int).push(streams@[i as int]));
        proof {
            lemma_audio_count_push(streams@.take(i as int), streams@[i as int]);
        }
        if stream_is_audio(&streams[i]) {
            n = n + 1;
        }
        i = i + 1;
    }
    assert(streams@.take(streams@.len() as int) =~= streams@);
    n
}

/// The ffmpeg arguments of a conversion: the streams to keep, the encoder
/// and bit rate of the converted track, the default track, the new titles
/// and the output file.
pub fn build_args(options: &ConvertOptions) -> (r: Vec<String>)
    ensures
        strings_view(r@) == convert_args_spec(options),
{
    let streams = &options.probe.streams;
    let ghost ss = streams@;
    let sidx = options.track.stream_index;
    let mut args = base_args(options.input);
    let mut converted_output_stream_index: usize = 0;
    let mut converted_audio_ordinal: usize = 0;
    match options.mode {
        TrackMode::Replace => {
            let ghost start = strings_view(args@);
            let mut audio_ordinal: usize = 0;
            let mut i: usize = 0;
            assert(audio_count(ss.take(0)) == 0) by {
                reveal(Seq::filter);
                assert(ss.take(0) =~= Seq::<Stream>::empty());
            }
            assert(map_all_streams(ss.take(0)) =~= Seq::<Seq<char>>::empty()) by {
                assert(ss.take(0) =~= Seq::<Stream>::empty());
            }
            assert(start + Seq::<Seq<char>>::empty() =~= start);
            while i < streams.len()
                invariant
                    ss == streams@,
                    i <= ss.len(),
                    audio_ordinal <= i,
                    audio_ordinal == audio_count(ss.take(i as int)),
                    strings_view(args@) == start + map_all_streams(ss.take(i as int)),
                    match last_position(ss.take(i as int), sidx) {
                        Some(p) => converted_output_stream_index == p
                            && converted_audio_ordinal == audio_count(ss.take(p)),
                        None => converted_output_stream_index == 0 && converted_audio_ordinal == 0,
                    },
                decreases ss.len() - i,
            {
                let stream = &streams[i];
                let ghost prefix = ss.take(i as int);
                assert(ss.take(i + 1) =~= prefix.push(ss[i as int]));
                assert(ss.take(i + 1).drop_last() =~= prefix);
                proof {
                    lemma_audio_count_push(prefix, ss[i as int]);
                }
                push_pair(&mut args, lit("-map"), prefixed_decimal("0:", stream.index as u64));
                assert(strings_view(args@) =~= start + map_all_streams(ss.take(i + 1)));
                if stream.index == sidx {
                    converted_output_stream_index = i;
                    converted_audio_ordinal = audio_ordinal;
                    assert(ss.take(i + 1).take(i as int) =~= prefix);
                } else {
                    proof {
                        lemma_last_position(prefix, sidx);
                        match last_position(prefix, sidx) {
                            Some(p) => {
                                assert(ss.take(p) =~= prefix.take(p));
                            },
                            None => {},
                        }
                    }
                }
                proof {
                    lemma_last_position(ss.take(i + 1), sidx);
                    match last_position(ss.take(i + 1), sidx) {
                        Some(p) => {
                            assert(ss.take(i + 1).take(p) =~= ss.take(p));
                        },
                        None => {},
                    }
                }
                if stream_is_audio(stream) {
                    audio_ordinal = audio_ordinal + 1;
                }
                i = i + 1;
            }
            assert(ss.take(ss.len() as int) =~= ss);
        },
        TrackMode::Add => {
            push_pair(&mut args, lit("-map"), lit("0"));
            push_pair(&mut args, lit("-map"), prefixed_decimal("0:", sidx as u64));
            converted_output_stream_index = streams.len();
            converted_audio_ordinal = count_audio(streams);
        },
    }
    let ghost out = converted_output_index_spec(ss, options.mode, sidx);
    let ghost ord = converted_audio_ordinal_spec(ss, options.mode, sidx);
    assert(converted_output_stream_index == out);
    assert(converted_audio_ordinal == ord);
    assert(strings_view(args@) =~= base_args_spec(options.input@) + convert_map_args(
        ss,
        options.mode,
        sidx,
    ));
    let ghost before_codec = strings_view(args@);
    push_pair(&mut args, lit("-c"), lit("copy"));
    push_pair(
        &mut args,
        prefixed_decimal("-c:", converted_output_stream_index as u64),
        lit(options.format.codec()),
    );
    match target_bitrate(options.format, options.track) {
        Some(bitrate) => {
            push_pair(
                &mut args,
                prefixed_decimal("-b:", converted_output_stream_index as u64),
                bitrate,
            );
        },
        None => {},
    }
    assert(strings_view(args@) =~= before_codec + codec_args(
        options.format,
        options.track@.bit_rate,
        out,
    ));
    let ghost before_default = strings_view(args@);
    if options.make_default {
        append_default_disposition(&mut args, converted_audio_ordinal);
    } else {
        match options.default_audio_ordinal {
            Some(d) => append_default_disposition(&mut args, d),
            None => {},
        }
    }
    assert(strings_view(args@) =~= before_default + convert_default_args(
        options.make_default,
        options.default_audio_ordinal,
        ord,
    ));
    let ghost before_titles = strings_view(args@);
    let titles = options.titles;
    let ghost ts = titles@;
    let track_ordinal = options.track.audio_ordinal;
    let mut k: usize = 0;
    assert(ts.take(0) =~= Seq::<AudioTitleUpdate>::empty());
    assert(before_titles + Seq::<Seq<char>>::empty() =~= before_titles);
    while k < titles.len()
        invariant
            ts == titles@,
            k <= ts.len(),
            converted_audio_ordinal == ord,
            strings_view(args@) == before_titles + title_args(
                ts.take(k as int),
                options.mode,
                track_ordinal,
                ord,
            ),
        decreases ts.len() - k,
    {
        let update = &titles[k];
        assert(ts.take(k + 1).drop_last() =~= ts.take(k as int));
        assert(ts.take(k + 1).last() == ts[k as int]);
        push_pair(
            &mut args,
            prefixed_decimal("-metadata:s:a:", update.audio_ordinal as u64),
            crate::text::concat2("title=", update.title.as_str()),
        );
        if options.mode == TrackMode::Add && update.audio_ordinal == track_ordinal {
            push_pair(
                &mut args,
                prefixed_decimal("-metadata:s:a:", converted_audio_ordinal as u64),
                crate::text::concat2("title=", update.title.as_str()),
            );
        }
        assert(strings_view(args@) =~= before_titles + title_args(
            ts.take(k + 1),
            options.mode,
            track_ordinal,
            ord,
        ));
        k = k + 1;
    }
    assert(ts.take(ts.len() as int) =~= ts);
    let ghost before_output = strings_view(args@);
    args.push(lit(options.output));
    assert(strings_view(args@) =~= before_output + seq![options.output@]);
    assert(strings_view(args@) =~= convert_args_spec(options));
    args
}

/// An audio stream that is not selected for removal.
pub open spec fn kept_pred(indices: Seq<usize>) -> spec_fn(Stream) -> bool {
    |s: Stream| is_audio(s) && !indices.contains(s.index)
}

/// The number of audio streams of `streams` that are kept.
pub open spec fn kept_audio_count(streams: Seq<Stream>, indices: Seq<usize>) -> nat {
    streams.filter(kept_pred(indices)).len()
}

/// The title of the first update for the audio track with this ordinal.
pub open spec fn first_title(titles: Seq<AudioTitleUpdate>, ordinal: nat) -> Option<Seq<char>>
    decreases titles.len(),
{
    if titles.len() == 0 {
        None
    } else if titles[0].audio_ordinal == ordinal {
        Some(titles[0].title@)
    } else {
        first_title(titles.drop_first(), ordinal)
    }
}

/// The arguments for the stream at position `i`: nothing for an audio
/// stream selected for removal; otherwise `-map`, and for a kept audio
/// stream the first requested title of its input ordinal, set on its
/// output ordinal.
pub open spec fn delete_stream_args(
    streams: Seq<Stream>,
    indices: Seq<usize>,
    titles: Seq<AudioTitleUpdate>,
    i: int,
) -> Seq<Seq<char>> {
    let s = streams[i];
    if is_audio(s) {
        if indices.contains(s.index) {
            Seq::empty()
        } else {
            seq!["-map"@, stream_ref(s.index)] + match first_title(
                titles,
                audio_count(streams.take(i)),
            ) {
                Some(t) => seq![
                    "-metadata:s:a:"@ + decimal(kept_audio_count(streams.take(i), indices)),
                    "title="@ + t,
                ],
                None => Seq::empty(),
            }
        }
    } else {
        seq!["-map"@, stream_ref(s.index)]
    }
}

/// The arguments of the first `n` streams.
pub open spec fn delete_map_args(
    streams: Seq<Stream>,
    indices: Seq<usize>,
    titles: Seq<AudioTitleUpdate>,
    n: nat,
) -> Seq<Seq<char>>
    decreases n,
{
    if n == 0 {
        Seq::empty()
    } else {
        delete_map_args(streams, indices, titles, (n - 1) as nat) + delete_stream_args(
            streams,
            indices,
            titles,
            n - 1,
        )
    }
}

/// Among the first `n` streams, the output ordinal of the kept audio stream
/// whose input ordinal is the requested default, if there is one.
pub open spec fn default_output_ordinal(
    streams: Seq<Stream>,
    indices: Seq<usize>,
    default_audio_ordinal: Option<usize>,
    n: nat,
) -> Option<nat>
    decreases n,
{
    if n == 0 {
        None
    } else {
        let i = n - 1;
        let s = streams[i];
        if is_audio(s) && !indices.contains(s.index) && default_audio_ordinal == Some(
            audio_count(streams.take(i)) as usize,
        ) {
            Some(kept_audio_count(streams.take(i), indices))
        } else {
            default_output_ordinal(streams, indices, default_audio_ordinal, (n - 1) as nat)
        }
    }
}

/// The whole ffmpeg command line of a removal of audio tracks.
pub open spec fn delete_args_spec(o: &DeleteAudioOptions) -> Seq<Seq<char>> {
    let streams = o.probe.streams@;
    base_args_spec(o.input@) + delete_map_args(streams, o.stream_indices@, o.titles@, streams.len())
        + seq!["-c"@, "copy"@] + match default_output_ordinal(
        streams,
        o.stream_indices@,
        o.default_audio_ordinal,
        streams.len(),
    ) {
        Some(d) => default_disposition_args(d),
        None => Seq::empty(),
    } + seq![o.output@]
}

fn slice_contains(v: &[usize], x: usize) -> (b: bool)
    ensures
        b == v@.contains(x),
{
    let mut i: usize = 0;
    while i < v.len()
        invariant
            i <= v@.len(),
            forall|k: int| 0 <= k < i ==> v@[k] != x,
        decreases v@.len() - i,
    {
        if v[i] == x {
            assert(v@[i as int] == x);
            return true;
        }
        i = i + 1;
    }
    false
}

fn find_title<'a>(titles: &'a [AudioTitleUpdate], ordinal: usize) -> (r: Option<&'a String>)
    ensures
        match first_title(titles@, ordinal as nat) {
            Some(t) => r matches Some(s) && s@ == t,
            None => r is None,
        },
{
    let mut i: usize = 0;
    assert(titles@.skip(0) =~= titles@);
    while i < titles.len()
        invariant
            i <= titles@.len(),
            first_title(titles@.skip(i as int), ordinal as nat) == first_title(titles@, ordinal as nat),
        decreases titles@.len() - i,
    {
        assert(titles@.skip(i as int)[0] == titles@[i as int]);
        assert(titles@.skip(i as int).drop_first() =~= titles@.skip(i + 1));
        if titles[i].audio_ordinal == ordinal {
            return Some(&titles[i].title);
        }
        i = i + 1;
    }
    assert(titles@.skip(i as int) =~= Seq::<AudioTitleUpdate>::empty());
    None
}

proof fn lemma_kept_count_push(s: Seq<Stream>, x: Stream, indices: Seq<usize>)
    ensures
        kept_audio_count(s.push(x), indices) == kept_audio_count(s, indices) + if is_audio(x)
            && !indices.contains(x.index) {
            1nat
        } else {
            0nat
        },
{
    s.lemma_filter_push(x, kept_pred(indices));
}

/// The ffmpeg arguments that remove the selected audio tracks: every other
/// stream is kept in order, requested titles are set on the kept audio
/// tracks, and the requested default track keeps the default flag under
/// its new ordinal.
pub fn build_delete_audio_args(options: &DeleteAudioOptions) -> (r: Vec<String>)
    ensures
        strings_view(r@) == delete_args_spec(options),
{
    let streams = &options.probe.streams;
    let ghost ss = streams@;
    let ghost idxs = options.stream_indices@;
    let ghost ts = options.titles@;
    let mut args = base_args(options.input);
    let ghost start = strings_view(args@);
    let mut input_audio_ordinal: usize = 0;
    let mut output_audio_ordinal: usize = 0;
    let mut default_output_audio_ordinal: Option<usize> = None;
    let mut i: usize = 0;
    assert(audio_count(ss.take(0)) == 0 && kept_audio_count(ss.take(0), idxs) == 0) by {
        reveal(Seq::filter);
        assert(ss.take(0) =~= Seq::<Stream>::empty());
    }
    assert(start + Seq::<Seq<char>>::empty() =~= start);
    while i < streams.len()
        invariant
            ss == streams@,
            idxs == options.stream_indices@,
            ts == options.titles@,
            i <= ss.len(),
            output_audio_ordinal <= input_audio_ordinal <= i,
            input_audio_ordinal == audio_count(ss.take(i as int)),
            output_audio_ordinal == kept_audio_count(ss.take(i as int), idxs),
            strings_view(args@) == start + delete_map_args(ss, idxs, ts, i as nat),
            match default_output_ordinal(ss, idxs, options.default_audio_ordinal, i as nat) {
                Some(d) => default_output_audio_ordinal matches Some(x) && x as nat == d,
                None => default_output_audio_ordinal is None,
            },
        decreases ss.len() - i,
    {
        let stream = &streams[i];
        let ghost prefix = ss.take(i as int);
        assert(ss.take(i + 1) =~= prefix.push(ss[i as int]));
        proof {
            lemma_audio_count_push(prefix, ss[i as int]);
            lemma_kept_count_push(prefix, ss[i as int], idxs);
        }
        let ghost before = strings_view(args@);
        if stream_is_audio(stream) {
            if slice_contains(options.stream_indices, stream.index) {
                input_audio_ordinal = input_audio_ordinal + 1;
                assert(strings_view(args@) =~= start + delete_map_args(ss, idxs, ts, (i + 1) as nat));
            } else {
                push_pair(&mut args, lit("-map"), prefixed_decimal("0:", stream.index as u64));
                match find_title(options.titles, input_audio_ordinal) {
                    Some(title) => {
                        push_pair(
                            &mut args,
                            prefixed_decimal("-metadata:s:a:", output_audio_ordinal as u64),
                            crate::text::concat2("title=", title.as_str()),
                        );
                    },
                    None => {},
                }
                assert(strings_view(args@) =~= start + delete_map_args(ss, idxs, ts, (i + 1) as nat));
                if options.default_audio_ordinal == Some(input_audio_ordinal) {
                    default_output_audio_ordinal = Some(output_audio_ordinal);
                }
                input_audio_ordinal = input_audio_ordinal + 1;
                output_audio_ordinal = output_audio_ordinal + 1;
            }
        } else {
            push_pair(&mut args, lit("-map"), prefixed_decimal("0:", stream.index as u64));
            assert(strings_view(args@) =~= start + delete_map_args(ss, idxs, ts, (i + 1) as nat));
        }
        i = i + 1;
    }
    let ghost before_tail = strings_view(args@);
    push_pair(&mut args, lit("-c"), lit("copy"));
    match default_output_audio_ordinal {
        Some(d) => append_default_disposition(&mut args, d),
        None => {},
    }
    args.push(lit(options.output));
    assert(strings_view(args@) =~= delete_args_spec(options));
    args
}

/// The number after `total_size=` in a progress line of ffmpeg.
pub open spec fn total_size_spec(line: Seq<char>) -> Option<u64> {
    match split_once_spec(line, '=') {
        Some((key, value)) => if key == "total_size"@ {
            parse_u64_spec(value)
        } else {
            None
        },
        None => None,
    }
}

fn key_is(key: &[char], word: &str) -> (b: bool)
    ensures
        b == (key@ == word@),
{
    let k = string_of(key);
    str_eq(k.as_str(), word)
}

/// The output size that a progress line reports, if it is one.
pub fn parse_total_size(line: &str) -> (r: Option<u64>)
    ensures
        r == total_size_spec(line@),
{
    let chars = chars_of(line);
    match split_once_char(chars.as_slice(), '=') {
        Some((key, value)) => {
            if key_is(key.as_slice(), "total_size") {
                parse_u64(value.as_slice())
            } else {
                None
            }
        },
        None => None,
    }
}

/// What a line of `-progress` output of ffmpeg says.
pub enum ProgressLine {
    /// The media time reached, in microseconds, as ffmpeg wrote it.
    MediaMicros(String),
    /// The media time reached as hours, minutes and seconds, as ffmpeg
    /// wrote them.
    MediaClock(String, String, String),
    /// The size of the output written so far, in bytes.
    TotalSize(u64),
    /// The end of the run.
    End,
    /// Anything else.
    Other,
}

/// The mathematical value of a progress line.
pub enum ProgressLineView {
    MediaMicros(Seq<char>),
    MediaClock(Seq<char>, Seq<char>, Seq<char>),
    TotalSize(u64),
    End,
    Other,
}

impl View for ProgressLine {
    type V = ProgressLineView;

    open spec fn view(&self) -> ProgressLineView {
        match self {
            ProgressLine::MediaMicros(v) => ProgressLineView::MediaMicros(v@),
            ProgressLine::MediaClock(h, m, s) => ProgressLineView::MediaClock(h@, m@, s@),
            ProgressLine::TotalSize(n) => ProgressLineView::TotalSize(*n),
            ProgressLine::End => ProgressLineView::End,
            ProgressLine::Other => ProgressLineView::Other,
        }
    }
}

/// How a progress line is read: `out_time_us` and `out_time_ms` give the
/// media time in microseconds, `out_time` gives it as the first three
/// `:`-separated parts, `total_size` the output size, and the line
/// `progress=end` the end of the run.
pub open spec fn progress_line_spec(line: Seq<char>) -> ProgressLineView {
    match split_once_spec(line, '=') {
        Some((key, value)) => if key == "out_time_us"@ || key == "out_time_ms"@ {
            ProgressLineView::MediaMicros(value)
        } else if key == "out_time"@ {
            let parts = split_spec(value, ':');
            if parts.len() >= 3 {
                ProgressLineView::MediaClock(parts[0], parts[1], parts[2])
            } else {
                ProgressLineView::Other
            }
        } else if key == "total_size"@ {
            match parse_u64_spec(value) {
                Some(n) => ProgressLineView::TotalSize(n),
                None => ProgressLineView::Other,
            }
        } else if line == "progress=end"@ {
            ProgressLineView::End
        } else {
            ProgressLineView::Other
        },
        None => ProgressLineView::Other,
    }
}

/// Reads one line of the `-progress` output of ffmpeg.
pub fn classify_progress_line(line: &str) -> (r: ProgressLine)
    ensures
        r@ == progress_line_spec(line@),
{
    let chars = chars_of(line);
    match split_once_char(chars.as_slice(), '=') {
        Some((key, value)) => {
            let k = key.as_slice();
            if key_is(k, "out_time_us") || key_is(k, "out_time_ms") {
                ProgressLine::MediaMicros(string_of(value.as_slice()))
            } else if key_is(k, "out_time") {
                let parts = split_char(value.as_slice(), ':');
                if parts.len() >= 3 {
                    assert(vecs_view(parts@)[0] == parts@[0]@);
                    assert(vecs_view(parts@)[1] == parts@[1]@);
                    assert(vecs_view(parts@)[2] == parts@[2]@);
                    ProgressLine::MediaClock(
                        string_of(parts[0].as_slice()),
                        string_of(parts[1].as_slice()),
                        string_of(parts[2].as_slice()),
                    )
                } else {
                    ProgressLine::Other
                }
            } else if key_is(k, "total_size") {
                match parse_u64(value.as_slice()) {
                    Some(n) => ProgressLine::TotalSize(n),
                    None => ProgressLine::Other,
                }
            } else if str_eq(line, "progress=end") {
                ProgressLine::End
            } else {
                ProgressLine::Other
            }
        },
        None => ProgressLine::Other,
    }
}

/// A number below 100 written with two digits.
pub open spec fn two_digits(n: nat) -> Seq<char> {
    if n < 10 {
        seq!['0'] + decimal(n)
    } else {
        decimal(n)
    }
}

/// A duration in whole seconds as shown in progress output: `<h>h <mm>m
/// <ss>s` from one hour on, `<m>m <ss>s` below.
pub open spec fn format_duration_spec(total_seconds: u64) -> Seq<char> {
    let hours = total_seconds / 3600;
    let minutes = (total_seconds % 3600) / 60;
    let seconds = total_seconds % 60;
    if hours > 0 {
        decimal(hours as nat) + "h "@ + two_digits(minutes as nat) + "m "@ + two_digits(
            seconds as nat,
        ) + "s"@
    } else {
        decimal(minutes as nat) + "m "@ + two_digits(seconds as nat) + "s"@
    }
}

fn write_two_digits(out: &mut String, n: u64)
    requires
        n < 100,
    ensures
        final(out)@ == old(out)@ + two_digits(n as nat),
{
    if n < 10 {
        out.append("0");
        proof {
            reveal_strlit("0");
        }
    }
    write_decimal(out, n);
}

/// A duration in whole seconds as shown in progress output.
pub fn format_duration_secs(total_seconds: u64) -> (r: String)
    ensures
        r@ == format_duration_spec(total_seconds),
{
    let hours = total_seconds / 3600;
    let minutes = (total_seconds % 3600) / 60;
    let seconds = total_seconds % 60;
    let mut r = String::new();
    if hours > 0 {
        write_decimal(&mut r, hours);
        r.append("h ");
        write_two_digits(&mut r, minutes);
        r.append("m ");
        write_two_digits(&mut r, seconds);
        r.append("s");
    } else {
        write_decimal(&mut r, minutes);
        r.append("m ");
        write_two_digits(&mut r, seconds);
        r.append("s");
    }
    r
}

/// The short name of every format reads back as that format.
pub proof fn law_slug_names_format(f: TargetFormat)
    ensures
        parse_format_spec(slug_spec(f)) == Some(f),
{
    reveal_strlit("aac");
    reveal_strlit("ac3");
    reveal_strlit("mp3");
    reveal_strlit("opus");
    reveal_strlit("flac");
    reveal_strlit("wav");
    reveal_strlit("pcm");
    let s = slug_spec(f);
    assert(eq_ignore_ascii_case_spec(s, s));
    match f {
        TargetFormat::Aac => {
            assert(s == "aac"@);
        },
        TargetFormat::Ac3 => {
            assert(!eq_ignore_ascii_case_spec(s, "aac"@)) by {
                assert(crate::text::ascii_lower(s[1]) != crate::text::ascii_lower("aac"@[1]));
            }
        },
        TargetFormat::Mp3 => {
            assert(!eq_ignore_ascii_case_spec(s, "aac"@)) by {
                assert(crate::text::ascii_lower(s[0]) != crate::text::ascii_lower("aac"@[0]));
            }
            assert(!eq_ignore_ascii_case_spec(s, "ac3"@)) by {
                assert(crate::text::ascii_lower(s[0]) != crate::text::ascii_lower("ac3"@[0]));
            }
        },
        TargetFormat::Opus => {},
        TargetFormat::Flac => {
            assert(!eq_ignore_ascii_case_spec(s, "opus"@)) by {
                assert(crate::text::ascii_lower(s[0]) != crate::text::ascii_lower("opus"@[0]));
            }
        },
        TargetFormat::Wav => {
            assert(!eq_ignore_ascii_case_spec(s, "aac"@)) by {
                assert(crate::text::ascii_lower(s[0]) != crate::text::ascii_lower("aac"@[0]));
            }
            assert(!eq_ignore_ascii_case_spec(s, "ac3"@)) by {
                assert(crate::text::ascii_lower(s[0]) != crate::text::ascii_lower("ac3"@[0]));
            }
            assert(!eq_ignore_ascii_case_spec(s, "mp3"@)) by {
                assert(crate::text::ascii_lower(s[0]) != crate::text::ascii_lower("mp3"@[0]));
            }
        },
    }
}

/// Lossless targets get no bit rate; AC3 never gets more than 640 kbit/s;
/// a positive source bit rate is kept where it fits the target.
pub proof fn law_target_bitrate(format: TargetFormat, bit_rate: Option<Seq<char>>)
    ensures
        (format == TargetFormat::Flac || format == TargetFormat::Wav) ==> target_bitrate_spec(
            format,
            bit_rate,
        ) is None,
        format == TargetFormat::Ac3 ==> match target_bitrate_spec(format, bit_rate) {
            Some(v) => 0 < v <= 640_000,
            None => true,
        },
        (format != TargetFormat::Flac && format != TargetFormat::Wav) ==> match bit_rate {
            Some(b) => match parse_u64_spec(b) {
                Some(v) => (v > 0 && (format != TargetFormat::Ac3 || v <= 640_000))
                    ==> target_bitrate_spec(format, bit_rate) == Some(v as nat),
                None => target_bitrate_spec(format, bit_rate) is None,
            },
            None => target_bitrate_spec(format, bit_rate) is None,
        },
{
}

/// The stream indices of a probe are distinct, as ffprobe reports them.
pub open spec fn distinct_indices(streams: Seq<Stream>) -> bool {
    forall|i: int, j: int|
        0 <= i < j < streams.len() ==> (#[trigger] streams[i]).index != (#[trigger] streams[j]).index
}

/// Counting the audio streams of a prefix one stream at a time.
pub proof fn lemma_audio_count_step(streams: Seq<Stream>, i: int)
    requires
        0 <= i < streams.len(),
    ensures
        audio_count(streams.take(i + 1)) == audio_count(streams.take(i)) + if is_audio(streams[i]) {
            1nat
        } else {
            0nat
        },
{
    assert(streams.take(i + 1) =~= streams.take(i).push(streams[i]));
    lemma_audio_count_push(streams.take(i), streams[i]);
}

/// A longer prefix has at least as many audio streams, and one more past an
/// audio stream.
pub proof fn lemma_audio_count_monotone(streams: Seq<Stream>, i: int, j: int)
    requires
        0 <= i <= j <= streams.len(),
    ensures
        audio_count(streams.take(i)) <= audio_count(streams.take(j)),
        i < j && is_audio(streams[i]) ==> audio_count(streams.take(i)) + 1 <= audio_count(
            streams.take(j),
        ),
        audio_count(streams.take(j)) <= j,
    decreases j - i,
{
    streams.take(j).lemma_filter_len(|s: Stream| is_audio(s));
    if i < j {
        lemma_audio_count_monotone(streams, i + 1, j);
        lemma_audio_count_step(streams, i);
    }
}

/// The `k`-th audio stream stands at a position `p` with `k` audio streams
/// before it.
pub proof fn lemma_audio_stream_position(streams: Seq<Stream>, k: int) -> (p: int)
    requires
        0 <= k < audio_count(streams),
    ensures
        0 <= p < streams.len(),
        streams[p] == audio_streams(streams)[k],
        is_audio(streams[p]),
        audio_count(streams.take(p)) == k,
    decreases streams.len(),
{
    let pred = |s: Stream| is_audio(s);
    let init = streams.drop_last();
    let last = streams.last();
    assert(init.push(last) =~= streams);
    init.lemma_filter_push(last, pred);
    init.lemma_filter_len(pred);
    if k < audio_count(init) {
        let q = lemma_audio_stream_position(init, k);
        assert(init.take(q) =~= streams.take(q));
        assert(init[q] == streams[q]);
        q
    } else {
        assert(is_audio(last));
        assert(streams.take(streams.len() - 1) =~= init);
        streams.len() - 1
    }
}

/// In replace mode the converted track takes the place of the source
/// track: the same output position, and among the audio tracks the same
/// ordinal that `audio_tracks` gave the source track.
pub proof fn law_replace_keeps_track_place(streams: Seq<Stream>, k: int)
    requires
        distinct_indices(streams),
        streams.len() <= usize::MAX,
        0 <= k < audio_count(streams),
    ensures
        ({
            let t = crate::ffprobe::track_of(audio_streams(streams)[k], k);
            &&& convert_map_args(streams, TrackMode::Replace, t.stream_index) == map_all_streams(streams)
            &&& converted_audio_ordinal_spec(streams, TrackMode::Replace, t.stream_index) == t.audio_ordinal
            &&& exists|p: int|
                0 <= p < streams.len() && streams[p].index == t.stream_index
                    && converted_output_index_spec(streams, TrackMode::Replace, t.stream_index) == p
        }),
{
    let p = lemma_audio_stream_position(streams, k);
    let s = streams[p];
    lemma_last_position(streams, s.index);
    match last_position(streams, s.index) {
        Some(q) => {
            if q != p {
                if q < p {
                    assert(streams[q].index != streams[p].index);
                } else {
                    assert(streams[p].index != streams[q].index);
                }
            }
        },
        None => {
            assert(streams[p].index != s.index);
        },
    }
    assert(converted_output_index_spec(streams, TrackMode::Replace, s.index) == p);
    streams.lemma_filter_len(|x: Stream| is_audio(x));
    assert(streams[p].index == crate::ffprobe::track_of(audio_streams(streams)[k], k).stream_index);
}

/// In add mode the converted track comes after every stream of the input,
/// and after every audio track.
pub proof fn law_add_appends_track(streams: Seq<Stream>, stream_index: usize)
    ensures
        converted_output_index_spec(streams, TrackMode::Add, stream_index) == streams.len(),
        converted_audio_ordinal_spec(streams, TrackMode::Add, stream_index) == audio_count(streams),
        convert_map_args(streams, TrackMode::Add, stream_index) == seq![
            "-map"@,
            "0"@,
            "-map"@,
            stream_ref(stream_index),
        ],
{
}

/// Making the converted track the default clears the default flag of every
/// other audio track and sets it on the converted track alone.
pub proof fn law_make_default_marks_converted(default_audio_ordinal: Option<usize>, converted: nat)
    ensures
        convert_default_args(true, default_audio_ordinal, converted) == seq![
            "-disposition:a"@,
            "0"@,
            "-disposition:a:"@ + decimal(converted),
            "default"@,
        ],
{
}

proof fn lemma_default_output_ordinal(
    streams: Seq<Stream>,
    indices: Seq<usize>,
    p: int,
    n: nat,
)
    requires
        0 <= p < streams.len(),
        n <= streams.len(),
        streams.len() <= usize::MAX,
        is_audio(streams[p]),
    ensures
        default_output_ordinal(
            streams,
            indices,
            Some(audio_count(streams.take(p)) as usize),
            n,
        ) == if p < n && !indices.contains(streams[p].index) {
            Some(kept_audio_count(streams.take(p), indices))
        } else {
            None
        },
    decreases n,
{
    let d = audio_count(streams.take(p));
    lemma_audio_count_monotone(streams, p, p);
    if n > 0 {
        let i = n - 1;
        lemma_default_output_ordinal(streams, indices, p, (n - 1) as nat);
        lemma_audio_count_monotone(streams, i, i);
        if i > p {
            lemma_audio_count_monotone(streams, p, i);
            assert(audio_count(streams.take(i)) as usize != d as usize);
        } else if i < p {
            lemma_audio_count_monotone(streams, i, p);
            if is_audio(streams[i]) {
                assert(audio_count(streams.take(i)) as usize != d as usize);
            }
        }
    }
}

/// Removing audio tracks keeps the requested default track the default
/// one under its new ordinal, the number of kept audio tracks before it
/// (its old ordinal less the removed audio tracks before it); when the
/// default track itself is removed, no default is set.
pub proof fn law_delete_remaps_default(streams: Seq<Stream>, indices: Seq<usize>, p: int)
    requires
        0 <= p < streams.len(),
        streams.len() <= usize::MAX,
        is_audio(streams[p]),
    ensures
        !indices.contains(streams[p].index) ==> default_output_ordinal(
            streams,
            indices,
            Some(audio_count(streams.take(p)) as usize),
            streams.len(),
        ) == Some(kept_audio_count(streams.take(p), indices)),
        indices.contains(streams[p].index) ==> default_output_ordinal(
            streams,
            indices,
            Some(audio_count(streams.take(p)) as usize),
            streams.len(),
        ) is None,
        kept_audio_count(streams.take(p), indices) <= audio_count(streams.take(p)),
{
    lemma_default_output_ordinal(streams, indices, p, streams.len());
    lemma_kept_le_audio(streams.take(p), indices);
}

proof fn lemma_kept_le_audio(s: Seq<Stream>, indices: Seq<usize>)
    ensures
        kept_audio_count(s, indices) <= audio_count(s),
    decreases s.len(),
{
    if s.len() > 0 {
        lemma_kept_le_audio(s.drop_last(), indices);
        assert(s.drop_last().push(s.last()) =~= s);
        lemma_audio_count_push(s.drop_last(), s.last());
        lemma_kept_count_push(s.drop_last(), s.last(), indices);
    } else {
        assert(audio_count(s) == 0 && kept_audio_count(s, indices) == 0) by {
            reveal(Seq::filter);
        }
    }
}

/// The streams that a removal keeps: all but the selected audio streams.
pub open spec fn remaining_streams(streams: Seq<Stream>, indices: Seq<usize>) -> Seq<Stream> {
    streams.filter(|s: Stream| !(is_audio(s) && indices.contains(s.index)))
}

proof fn lemma_delete_map_prefix(streams: Seq<Stream>, indices: Seq<usize>, n: nat)
    requires
        n <= streams.len(),
    ensures
        delete_map_args(streams, indices, Seq::empty(), n) == map_all_streams(
            remaining_streams(streams.take(n as int), indices),
        ),
    decreases n,
{
    let pred = |s: Stream| !(is_audio(s) && indices.contains(s.index));
    if n == 0 {
        assert(remaining_streams(streams.take(0), indices) =~= Seq::<Stream>::empty()) by {
            reveal(Seq::filter);
        }
    } else {
        let i = n - 1;
        lemma_delete_map_prefix(streams, indices, (n - 1) as nat);
        assert(streams.take(n as int) =~= streams.take(i).push(streams[i]));
        streams.take(i).lemma_filter_push(streams[i], pred);
        let before = remaining_streams(streams.take(i), indices);
        if pred(streams[i]) {
            assert(before.push(streams[i]).drop_last() =~= before);
            assert(map_all_streams(before.push(streams[i])) == map_all_streams(before) + seq![
                "-map"@,
                stream_ref(streams[i].index),
            ]);
        }
    }
}

/// Without title changes, a removal maps exactly the streams it keeps, in
/// their order: every stream but the selected audio streams.
pub proof fn law_delete_keeps_other_streams(streams: Seq<Stream>, indices: Seq<usize>)
    ensures
        delete_map_args(streams, indices, Seq::empty(), streams.len()) == map_all_streams(
            remaining_streams(streams, indices),
        ),
{
    lemma_delete_map_prefix(streams, indices, streams.len());
    assert(streams.take(streams.len() as int) =~= streams);
}

/// A conversion that does not make the converted track the default but
/// asks for the audio track with ordinal `d` to be the default, in either
/// mode, clears the default flag of every audio track and sets it on track
/// `d`: the four words come right after the encoder arguments.
pub proof fn law_requested_default_marked(o: &ConvertOptions, d: usize)
    requires
        !o.make_default,
        o.default_audio_ordinal == Some(d),
    ensures
        ({
            let args = convert_args_spec(o);
            let streams = o.probe.streams@;
            let k = (base_args_spec(o.input@).len() + convert_map_args(
                streams,
                o.mode,
                o.track.stream_index,
            ).len() + codec_args(
                o.format,
                o.track@.bit_rate,
                converted_output_index_spec(streams, o.mode, o.track.stream_index),
            ).len()) as int;
            &&& k + 4 <= args.len()
            &&& args.subrange(k, k + 4) == seq![
                "-disposition:a"@,
                "0"@,
                "-disposition:a:"@ + decimal(d as nat),
                "default"@,
            ]
        }),
{
    let args = convert_args_spec(o);
    let streams = o.probe.streams@;
    let out = converted_output_index_spec(streams, o.mode, o.track.stream_index);
    let ord = converted_audio_ordinal_spec(streams, o.mode, o.track.stream_index);
    let a = base_args_spec(o.input@) + convert_map_args(streams, o.mode, o.track.stream_index)
        + codec_args(o.format, o.track@.bit_rate, out);
    let words = seq![
        "-disposition:a"@,
        "0"@,
        "-disposition:a:"@ + decimal(d as nat),
        "default"@,
    ];
    let b = title_args(o.titles@, o.mode, o.track.audio_ordinal, ord) + seq![o.output@];
    assert(convert_default_args(o.make_default, o.default_audio_ordinal, ord) == words);
    assert(args =~= a + words + b);
    assert(args.subrange(a.len() as int, a.len() as int + 4) =~= words);
}

proof fn lemma_delete_map_prefix_of(
    streams: Seq<Stream>,
    indices: Seq<usize>,
    titles: Seq<AudioTitleUpdate>,
    m: nat,
    n: nat,
)
    requires
        m <= n,
    ensures
        delete_map_args(streams, indices, titles, m).len() <= delete_map_args(
            streams,
            indices,
            titles,
            n,
        ).len(),
        delete_map_args(streams, indices, titles, n).subrange(
            0,
            delete_map_args(streams, indices, titles, m).len() as int,
        ) == delete_map_args(streams, indices, titles, m),
    decreases n,
{
    if m < n {
        lemma_delete_map_prefix_of(streams, indices, titles, m, (n - 1) as nat);
        let prev = delete_map_args(streams, indices, titles, (n - 1) as nat);
        let full = delete_map_args(streams, indices, titles, n);
        assert(full == prev + delete_stream_args(streams, indices, titles, n - 1));
        assert(full.subrange(0, prev.len() as int) =~= prev);
        let l = delete_map_args(streams, indices, titles, m).len() as int;
        assert(full.subrange(0, l) =~= prev.subrange(0, l));
    } else {
        let full = delete_map_args(streams, indices, titles, n);
        assert(full.subrange(0, full.len() as int) =~= full);
    }
}

proof fn lemma_first_title_at(titles: Seq<AudioTitleUpdate>, t: int, ordinal: nat)
    requires
        0 <= t < titles.len(),
        titles[t].audio_ordinal == ordinal,
        forall|u: int| 0 <= u < t ==> titles[u].audio_ordinal != ordinal,
    ensures
        first_title(titles, ordinal) == Some(titles[t].title@),
    decreases t,
{
    if t > 0 {
        let rest = titles.drop_first();
        assert forall|u: int| 0 <= u < t - 1 implies rest[u].audio_ordinal != ordinal by {
            assert(rest[u] == titles[u + 1]);
        }
        assert(rest[t - 1] == titles[t]);
        lemma_first_title_at(rest, t - 1, ordinal);
    }
}

proof fn lemma_kept_all_audio(s: Seq<Stream>, indices: Seq<usize>)
    requires
        indices.len() == 0,
    ensures
        kept_audio_count(s, indices) == audio_count(s),
    decreases s.len(),
{
    if s.len() > 0 {
        lemma_kept_all_audio(s.drop_last(), indices);
        assert(s.drop_last().push(s.last()) =~= s);
        lemma_audio_count_push(s.drop_last(), s.last());
        lemma_kept_count_push(s.drop_last(), s.last(), indices);
    } else {
        assert(audio_count(s) == 0 && kept_audio_count(s, indices) == 0) by {
            reveal(Seq::filter);
        }
    }
}

/// A title change for the audio track with input ordinal `j` reaches every
/// kept audio stream with that ordinal, whether or not tracks are removed:
/// right after the stream's `-map` pair stands `-metadata:s:a:<n>` with
/// `title=<title>`, where `n` is the number of kept audio streams before
/// it and the title is that of the first update for ordinal `j`. With no
/// track removed, `n` is `j` itself.
pub proof fn law_delete_sets_titles(o: &DeleteAudioOptions, p: int, t: int)
    requires
        0 <= p < o.probe.streams@.len(),
        is_audio(o.probe.streams@[p]),
        !o.stream_indices@.contains(o.probe.streams@[p].index),
        0 <= t < o.titles@.len(),
        o.titles@[t].audio_ordinal == audio_count(o.probe.streams@.take(p)),
        forall|u: int| 0 <= u < t ==> o.titles@[u].audio_ordinal != o.titles@[t].audio_ordinal,
    ensures
        exists|k: int|
            0 <= k && k + 4 <= delete_args_spec(o).len() && #[trigger] delete_args_spec(o).subrange(k, k + 4)
                == seq![
                "-map"@,
                stream_ref(o.probe.streams@[p].index),
                "-metadata:s:a:"@ + decimal(kept_audio_count(o.probe.streams@.take(p), o.stream_indices@)),
                "title="@ + o.titles@[t].title@,
            ],
        o.stream_indices@.len() == 0 ==> kept_audio_count(o.probe.streams@.take(p), o.stream_indices@)
            == o.titles@[t].audio_ordinal,
{
    let streams = o.probe.streams@;
    let idx = o.stream_indices@;
    let ts = o.titles@;
    let ord = audio_count(streams.take(p));
    lemma_first_title_at(ts, t, ord);
    let words = seq![
        "-map"@,
        stream_ref(streams[p].index),
        "-metadata:s:a:"@ + decimal(kept_audio_count(streams.take(p), idx)),
        "title="@ + ts[t].title@,
    ];
    assert(delete_stream_args(streams, idx, ts, p) =~= words);
    let before = delete_map_args(streams, idx, ts, p as nat);
    let upto = delete_map_args(streams, idx, ts, (p + 1) as nat);
    assert(upto == before + words);
    lemma_delete_map_prefix_of(streams, idx, ts, (p + 1) as nat, streams.len());
    let all = delete_map_args(streams, idx, ts, streams.len());
    let base = base_args_spec(o.input@);
    let args = delete_args_spec(o);
    let k = (base.len() + before.len()) as int;
    let b = before.len() as int;
    assert(args.subrange(0, (base.len() + all.len()) as int) =~= base + all);
    assert(all.subrange(b, b + 4) =~= upto.subrange(b, b + 4));
    assert(upto.subrange(b, b + 4) =~= words);
    assert(args.subrange(k, k + 4) =~= words);
    if idx.len() == 0 {
        lemma_kept_all_audio(streams.take(p), idx);
    }
}

proof fn lemma_title_args_has(
    titles: Seq<AudioTitleUpdate>,
    mode: TrackMode,
    track_ordinal: usize,
    converted: nat,
    t: int,
) -> (k: int)
    requires
        0 <= t < titles.len(),
    ensures
        0 <= k && k + 2 <= title_args(titles, mode, track_ordinal, converted).len(),
        title_args(titles, mode, track_ordinal, converted).subrange(k, k + 2) == seq![
            "-metadata:s:a:"@ + decimal(titles[t].audio_ordinal as nat),
            "title="@ + titles[t].title@,
        ],
        mode == TrackMode::Add && titles[t].audio_ordinal == track_ordinal ==> k + 4 <= title_args(
            titles,
            mode,
            track_ordinal,
            converted,
        ).len() && title_args(titles, mode, track_ordinal, converted).subrange(k + 2, k + 4) == seq![
            "-metadata:s:a:"@ + decimal(converted),
            "title="@ + titles[t].title@,
        ],
    decreases titles.len(),
{
    let prev = title_args(titles.drop_last(), mode, track_ordinal, converted);
    let u = titles.last();
    let tail = seq!["-metadata:s:a:"@ + decimal(u.audio_ordinal as nat), "title="@ + u.title@]
        + if mode == TrackMode::Add && u.audio_ordinal == track_ordinal {
        seq!["-metadata:s:a:"@ + decimal(converted), "title="@ + u.title@]
    } else {
        Seq::empty()
    };
    let full = title_args(titles, mode, track_ordinal, converted);
    assert(full == prev + tail);
    if t == titles.len() - 1 {
        let k = prev.len() as int;
        assert(full.subrange(k, k + 2) =~= tail.subrange(0, 2));
        if mode == TrackMode::Add && u.audio_ordinal == track_ordinal {
            assert(full.subrange(k + 2, k + 4) =~= tail.subrange(2, 4));
        }
        k
    } else {
        assert(titles.drop_last()[t] == titles[t]);
        let k = lemma_title_args_has(titles.drop_last(), mode, track_ordinal, converted, t);
        assert(full.subrange(k, k + 2) =~= prev.subrange(k, k + 2));
        if mode == TrackMode::Add && titles[t].audio_ordinal == track_ordinal {
            assert(full.subrange(k + 2, k + 4) =~= prev.subrange(k + 2, k + 4));
        }
        k
    }
}

/// Every requested title change of a conversion reaches the command line:
/// `-metadata:s:a:<ordinal>` with `title=<title>`; in add mode a title
/// given to the source track is given to the converted track too, right
/// after, under the converted track's ordinal.
pub proof fn law_convert_sets_titles(o: &ConvertOptions, t: int)
    requires
        0 <= t < o.titles@.len(),
    ensures
        exists|k: int|
            0 <= k && k + 2 <= convert_args_spec(o).len() && #[trigger] convert_args_spec(o).subrange(
                k,
                k + 2,
            ) == seq![
                "-metadata:s:a:"@ + decimal(o.titles@[t].audio_ordinal as nat),
                "title="@ + o.titles@[t].title@,
            ] && (o.mode == TrackMode::Add && o.titles@[t].audio_ordinal == o.track.audio_ordinal
                ==> k + 4 <= convert_args_spec(o).len() && convert_args_spec(o).subrange(k + 2, k + 4)
                == seq![
                "-metadata:s:a:"@ + decimal(
                    converted_audio_ordinal_spec(o.probe.streams@, o.mode, o.track.stream_index),
                ),
                "title="@ + o.titles@[t].title@,
            ]),
{
    let streams = o.probe.streams@;
    let out = converted_output_index_spec(streams, o.mode, o.track.stream_index);
    let ord = converted_audio_ordinal_spec(streams, o.mode, o.track.stream_index);
    let a = base_args_spec(o.input@) + convert_map_args(streams, o.mode, o.track.stream_index)
        + codec_args(o.format, o.track@.bit_rate, out) + convert_default_args(
        o.make_default,
        o.default_audio_ordinal,
        ord,
    );
    let ta = title_args(o.titles@, o.mode, o.track.audio_ordinal, ord);
    let args = convert_args_spec(o);
    assert(args =~= a + ta + seq![o.output@]);
    let j = lemma_title_args_has(o.titles@, o.mode, o.track.audio_ordinal, ord, t);
    let k = a.len() + j;
    assert(args.subrange(k, k + 2) =~= ta.subrange(j, j + 2));
    if o.mode == TrackMode::Add && o.titles@[t].audio_ordinal == o.track.audio_ordinal {
        assert(args.subrange(k + 2, k + 4) =~= ta.subrange(j + 2, j + 4));
    }
}

} // verus!
