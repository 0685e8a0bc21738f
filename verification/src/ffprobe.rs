//! What ffprobe reports about a media file, and the audio tracks in it.
use vstd::prelude::*;
use crate::text::{
    chars_of, clone_opt, decimal, join_spec, join_strings, opt_view, parse_u64, parse_u64_spec,
    str_eq, strings_view, write_decimal,
};

verus! {

/// The report of `ffprobe -show_streams -show_format`.
pub struct Probe {
    pub streams: Vec<Stream>,
    pub format: Option<Format>,
}

/// The container section of the report.
pub struct Format {
    pub duration: Option<String>,
}

/// One stream of the file.
pub struct Stream {
    pub index: usize,
    pub codec_type: String,
    pub codec_name: Option<String>,
    pub channels: Option<u32>,
    pub sample_rate: Option<String>,
    pub bit_rate: Option<String>,
    pub tags: Option<Tags>,
    pub disposition: Option<Disposition>,
}

/// The tags of a stream that the program reads.
pub struct Tags {
    pub language: Option<String>,
    pub title: Option<String>,
}

/// The disposition flags of a stream that the program reads.
pub struct Disposition {
    pub default: Option<u8>,
}

/// An audio stream, numbered among the audio streams of the file.
#[derive(Debug)]
pub struct AudioTrack {
    pub stream_index: usize,
    pub audio_ordinal: usize,
    pub codec: String,
    pub channels: Option<u32>,
    pub sample_rate: Option<String>,
    pub bit_rate: Option<String>,
    pub language: Option<String>,
    pub title: Option<String>,
    pub is_default: bool,
}

/// The mathematical value of an audio track.
pub struct AudioTrackView {
    pub stream_index: usize,
    pub audio_ordinal: usize,
    pub codec: Seq<char>,
    pub channels: Option<u32>,
    pub sample_rate: Option<Seq<char>>,
    pub bit_rate: Option<Seq<char>>,
    pub language: Option<Seq<char>>,
    pub title: Option<Seq<char>>,
    pub is_default: bool,
}

impl View for AudioTrack {
    type V = AudioTrackView;

    open spec fn view(&self) -> AudioTrackView {
        AudioTrackView {
            stream_index: self.stream_index,
            audio_ordinal: self.audio_ordinal,
            codec: self.codec@,
            channels: self.channels,
            sample_rate: opt_view(self.sample_rate),
            bit_rate: opt_view(self.bit_rate),
            language: opt_view(self.language),
            title: opt_view(self.title),
            is_default: self.is_default,
        }
    }
}

/// A stream whose codec type is `audio`.
pub open spec fn is_audio(s: Stream) -> bool {
    s.codec_type@ == "audio"@
}

/// The audio streams of `streams`, in order.
pub open spec fn audio_streams(streams: Seq<Stream>) -> Seq<Stream> {
    streams.filter(|s: Stream| is_audio(s))
}

/// The number of audio streams in `streams`.
pub open spec fn audio_count(streams: Seq<Stream>) -> nat {
    audio_streams(streams).len()
}

/// The language tag of a stream.
pub open spec fn stream_language(s: Stream) -> Option<Seq<char>> {
    match s.tags {
        Some(t) => opt_view(t.language),
        None => None,
    }
}

/// The title tag of a stream.
pub open spec fn stream_title(s: Stream) -> Option<Seq<char>> {
    match s.tags {
        Some(t) => opt_view(t.title),
        None => None,
    }
}

/// A stream carries the default flag when its disposition `default` is 1.
pub open spec fn stream_is_default(s: Stream) -> bool {
    match s.disposition {
        Some(d) => d.default == Some(1u8),
        None => false,
    }
}

/// The track that `audio_tracks` makes of the `ordinal`-th audio stream.
pub open spec fn track_of(s: Stream, ordinal: int) -> AudioTrackView {
    AudioTrackView {
        stream_index: s.index,
        audio_ordinal: ordinal as usize,
        codec: match s.codec_name {
            Some(c) => c@,
            None => "unknown"@,
        },
        channels: s.channels,
        sample_rate: opt_view(s.sample_rate),
        bit_rate: opt_view(s.bit_rate),
        language: stream_language(s),
        title: stream_title(s),
        is_default: stream_is_default(s),
    }
}

/// Whether a stream is an audio stream.
pub fn stream_is_audio(s: &Stream) -> (b: bool)
    ensures
        b == is_audio(*s),
{
    str_eq(s.codec_type.as_str(), "audio")
}

fn track_from_stream(s: &Stream, ordinal: usize) -> (t: AudioTrack)
    ensures
        t@ == track_of(*s, ordinal as int),
{
    let codec = match &s.codec_name {
        Some(c) => c.clone(),
        None => String::from_str("unknown"),
    };
    let (language, title) = match &s.tags {
        Some(tags) => (clone_opt(&tags.language), clone_opt(&tags.title)),
        None => (None, None),
    };
    let is_default = match &s.disposition {
        Some(d) => match d.default {
            Some(v) => v == 1,
            None => false,
        },
        None => false,
    };
    AudioTrack {
        stream_index: s.index,
        audio_ordinal: ordinal,
        codec,
        channels: s.channels,
        sample_rate: clone_opt(&s.sample_rate),
        bit_rate: clone_opt(&s.bit_rate),
        language,
        title,
        is_default,
    }
}

/// The audio tracks of a probe: one per audio stream, in stream order,
/// numbered 0, 1, 2, ... among the audio streams.
pub fn audio_tracks(probe: &Probe) -> (r: Vec<AudioTrack>)
    ensures
        r@.len() == audio_count(probe.streams@),
        forall|i: int|
            0 <= i < r@.len() ==> #[trigger] r@[i]@ == track_of(audio_streams(probe.streams@)[i], i),
{
    let streams = &probe.streams;
    let ghost keep = |s: Stream| is_audio(s);
    let mut tracks: Vec<AudioTrack> = Vec::new();
    let mut i: usize = 0;
    assert(streams@.take(0).filter(keep) =~= Seq::<Stream>::empty()) by {
        reveal(Seq::filter);
    }
    while i < streams.len()
        invariant
            i <= streams@.len(),
            keep == (|s: Stream| is_audio(s)),
            tracks@.len() == streams@.take(i as int).filter(keep).len(),
            tracks@.len() <= i,
            forall|k: int|
                0 <= k < tracks@.len() ==> #[trigger] tracks@[k]@ == track_of(
                    streams@.take(i as int).filter(keep)[k],
                    k,
                ),
        decreases streams@.len() - i,
    {
        let s = &streams[i];
        assert(streams@.take(i + 1) =~= streams@.take(i as int).push(streams@[i as int]));
        proof {
            streams@.take(i as int).lemma_filter_push(streams@[i as int], keep);
        }
        if stream_is_audio(s) {
            let t = track_from_stream(s, tracks.len());
            tracks.push(t);
        }
        i = i + 1;
    }
    assert(streams@.take(streams@.len() as int) =~= streams@);
    tracks
}

/// The number shown for a bit rate: the rate in kbit/s, rounded down, or 0
/// where the text is not a number.
pub open spec fn kbps_spec(bit_rate: Seq<char>) -> nat {
    match parse_u64_spec(bit_rate) {
        Some(v) => (v / 1000) as nat,
        None => 0,
    }
}

/// The parts of a track label, in order.
pub open spec fn label_parts(t: AudioTrackView) -> Seq<Seq<char>> {
    seq![
        "#"@ + decimal(t.audio_ordinal as nat) + " audio:"@ + decimal(t.stream_index as nat),
        t.codec,
    ] + match t.channels {
        Some(c) => seq![decimal(c as nat) + "ch"@],
        None => Seq::empty(),
    } + match t.sample_rate {
        Some(r) => seq![r + "Hz"@],
        None => Seq::empty(),
    } + match t.bit_rate {
        Some(b) => seq![decimal(kbps_spec(b)) + " kbps"@],
        None => Seq::empty(),
    } + match t.language {
        Some(l) => seq![l],
        None => Seq::empty(),
    } + match t.title {
        Some(x) => seq!["\""@ + x + "\""@],
        None => Seq::empty(),
    } + if t.is_default {
        seq!["default"@]
    } else {
        Seq::empty()
    }
}

/// The label of a track: its parts joined with `" | "`.
pub open spec fn label_spec(t: AudioTrackView) -> Seq<char> {
    join_spec(label_parts(t), " | "@)
}

impl AudioTrack {
    /// A one-line description of the track, such as
    /// `#0 audio:1 | eac3 | 6ch | 48000Hz | 640 kbps | spa | "Main" | default`.
    pub fn label(&self) -> (r: String)
        ensures
            r@ == label_spec(self@),
    {
        let ghost t = self@;
        let mut parts: Vec<String> = Vec::new();
        let mut head = String::from_str("#");
        write_decimal(&mut head, self.audio_ordinal as u64);
        head.append(" audio:");
        write_decimal(&mut head, self.stream_index as u64);
        parts.push(head);
        parts.push(self.codec.clone());
        let ghost p0 = seq![
            "#"@ + decimal(t.audio_ordinal as nat) + " audio:"@ + decimal(t.stream_index as nat),
            t.codec,
        ];
        assert(strings_view(parts@) =~= p0);
        let ghost p1 = p0 + match t.channels {
            Some(c) => seq![decimal(c as nat) + "ch"@],
            None => Seq::empty(),
        };
        if let Some(channels) = self.channels {
            let mut s = String::new();
            write_decimal(&mut s, channels as u64);
            s.append("ch");
            parts.push(s);
        }
        assert(strings_view(parts@) =~= p1);
        let ghost p2 = p1 + match t.sample_rate {
            Some(r) => seq![r + "Hz"@],
            None => Seq::empty(),
        };
        if let Some(sample_rate) = &self.sample_rate {
            let mut s = sample_rate.clone();
            s.append("Hz");
            parts.push(s);
        }
        assert(strings_view(parts@) =~= p2);
        let ghost p3 = p2 + match t.bit_rate {
            Some(b) => seq![decimal(kbps_spec(b)) + " kbps"@],
            None => Seq::empty(),
        };
        if let Some(bit_rate) = &self.bit_rate {
            let digits = chars_of(bit_rate.as_str());
            let kbps = match parse_u64(digits.as_slice()) {
                Some(v) => v / 1000,
                None => 0,
            };
            let mut s = String::new();
            write_decimal(&mut s, kbps);
            s.append(" kbps");
            parts.push(s);
        }
        assert(strings_view(parts@) =~= p3);
        let ghost p4 = p3 + match t.language {
            Some(l) => seq![l],
            None => Seq::empty(),
        };
        if let Some(language) = &self.language {
            parts.push(language.clone());
        }
        assert(strings_view(parts@) =~= p4);
        let ghost p5 = p4 + match t.title {
            Some(x) => seq!["\""@ + x + "\""@],
            None => Seq::empty(),
        };
        if let Some(title) = &self.title {
            let mut s = String::from_str("\"");
            s.append(title.as_str());
            s.append("\"");
            parts.push(s);
        }
        assert(strings_view(parts@) =~= p5);
        if self.is_default {
            parts.push(String::from_str("default"));
        }
        assert(strings_view(parts@) =~= label_parts(t));
        join_strings(&parts, " | ")
    }
}

/// Each audio track carries the tags of its own stream: its title is the
/// stream's title tag and its language the stream's language tag, each
/// absent when the stream has no tags or the tag is missing, the one
/// independently of the other; its stream index is the stream's index and
/// its ordinal the count of audio streams before it.
pub proof fn law_track_tags_from_stream(streams: Seq<Stream>, k: int)
    requires
        0 <= k < audio_count(streams),
    ensures
        ({
            let s = audio_streams(streams)[k];
            let t = track_of(s, k);
            &&& t.title == match s.tags {
                Some(tags) => match tags.title {
                    Some(x) => Some(x@),
                    None => None,
                },
                None => None,
            }
            &&& t.language == match s.tags {
                Some(tags) => match tags.language {
                    Some(x) => Some(x@),
                    None => None,
                },
                None => None,
            }
            &&& t.stream_index == s.index
            &&& t.audio_ordinal == k as usize
            &&& is_audio(s)
        }),
{
    let s = audio_streams(streams)[k];
    streams.filter_lemma(|x: Stream| is_audio(x));
    assert(is_audio(s));
}

} // verus!
