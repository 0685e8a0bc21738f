//! Decisions of the command-line program: what it offers, which stream
//! indices it accepts and how it cleans a pasted path.
use vstd::prelude::*;
use crate::error::TrackforgeError;
use crate::ffprobe::AudioTrack;
use crate::text::{chars_of, string_of, trim_class, trim_spec, CharClass};

verus! {

/// The two things the program can do with a file.
#[derive(Debug, Clone, Copy, PartialEq, Eq, Structural)]
pub enum Operation {
    Convert,
    DeleteAudio,
}

/// The description of an operation shown to the user.
pub open spec fn operation_label_spec(o: Operation) -> Seq<char> {
    match o {
        Operation::Convert => "Convert an audio track"@,
        Operation::DeleteAudio => "Delete one or more audio tracks"@,
    }
}

impl Operation {
    /// The description of the operation shown to the user.
    pub fn label(self) -> (r: &'static str)
        ensures
            r@ == operation_label_spec(self),
    {
        match self {
            Operation::Convert => "Convert an audio track",
            Operation::DeleteAudio => "Delete one or more audio tracks",
        }
    }
}

/// The first of `indices` that is not in `known`.
pub open spec fn first_unknown(known: Seq<usize>, indices: Seq<usize>) -> Option<usize>
    decreases indices.len(),
{
    if indices.len() == 0 {
        None
    } else if !known.contains(indices[0]) {
        Some(indices[0])
    } else {
        first_unknown(known, indices.drop_first())
    }
}

/// The stream indices of the tracks.
pub open spec fn track_stream_indices(tracks: Seq<AudioTrack>) -> Seq<usize> {
    tracks.map_values(|t: AudioTrack| t.stream_index)
}

/// Whether some track has the stream index `x`.
pub fn has_track_with_index(tracks: &[AudioTrack], x: usize) -> (b: bool)
    ensures
        b == track_stream_indices(tracks@).contains(x),
{
    let ghost known = track_stream_indices(tracks@);
    let mut i: usize = 0;
    while i < tracks.len()
        invariant
            i <= tracks@.len(),
            known == track_stream_indices(tracks@),
            forall|k: int| 0 <= k < i ==> known[k] != x,
        decreases tracks@.len() - i,
    {
        if tracks[i].stream_index == x {
            assert(known[i as int] == x);
            return true;
        }
        i = i + 1;
    }
    false
}

/// The position of the first track with the stream index `x`, if any.
pub fn find_track_by_index(tracks: &[AudioTrack], x: usize) -> (r: Option<usize>)
    ensures
        match r {
            Some(i) => i < tracks@.len() && tracks@[i as int].stream_index == x && forall|j: int|
                0 <= j < i ==> (#[trigger] tracks@[j]).stream_index != x,
            None => forall|j: int| 0 <= j < tracks@.len() ==> (#[trigger] tracks@[j]).stream_index != x,
        },
{
    let mut i: usize = 0;
    while i < tracks.len()
        invariant
            i <= tracks@.len(),
            forall|j: int| 0 <= j < i ==> (#[trigger] tracks@[j]).stream_index != x,
        decreases tracks@.len() - i,
    {
        if tracks[i].stream_index == x {
            return Some(i);
        }
        i = i + 1;
    }
    None
}

/// Whether the program asks the remaining questions of a conversion (the
/// default flag and the replacement of the original): in guided use, or
/// when the track, the format or the mode was not given.
pub fn asks_conversion_questions(guided: bool, has_audio_index: bool, has_format: bool, has_mode: bool) -> (r: bool)
    ensures
        r == (guided || !has_audio_index || !has_format || !has_mode),
{
    guided || !has_audio_index || !has_format || !has_mode
}

/// Accepts the stream indices when each is that of an audio track;
/// otherwise refuses the first that is not.
pub fn validate_audio_indices(tracks: &[AudioTrack], indices: Vec<usize>) -> (r: Result<
    Vec<usize>,
    TrackforgeError,
>)
    ensures
        match first_unknown(track_stream_indices(tracks@), indices@) {
            None => r == Ok::<Vec<usize>, TrackforgeError>(indices),
            Some(x) => r == Err::<Vec<usize>, TrackforgeError>(TrackforgeError::UnknownAudioStream(x)),
        },
{
    let ghost known = track_stream_indices(tracks@);
    let mut i: usize = 0;
    assert(indices@.skip(0) =~= indices@);
    while i < indices.len()
        invariant
            i <= indices@.len(),
            known == track_stream_indices(tracks@),
            first_unknown(known, indices@.skip(i as int)) == first_unknown(known, indices@),
        decreases indices@.len() - i,
    {
        assert(indices@.skip(i as int)[0] == indices@[i as int]);
        assert(indices@.skip(i as int).drop_first() =~= indices@.skip(i + 1));
        let x = indices[i];
        if !has_track_with_index(tracks, x) {
            return Err(TrackforgeError::UnknownAudioStream(x));
        }
        i = i + 1;
    }
    assert(indices@.skip(i as int) =~= Seq::<usize>::empty());
    Ok(indices)
}

/// Marks that pasted paths often carry but that are no part of a path:
/// direction marks, embedding and isolate controls, and the byte order mark.
pub open spec fn is_invisible_marker(c: char) -> bool {
    ||| c == '\u{200e}'
    ||| c == '\u{200f}'
    ||| c == '\u{202a}'
    ||| c == '\u{202b}'
    ||| c == '\u{202c}'
    ||| c == '\u{202d}'
    ||| c == '\u{202e}'
    ||| c == '\u{2066}'
    ||| c == '\u{2067}'
    ||| c == '\u{2068}'
    ||| c == '\u{2069}'
    ||| c == '\u{feff}'
}

/// Whether `c` is an invisible mark of a pasted path.
pub fn is_invisible_path_marker(c: char) -> (b: bool)
    ensures
        b == is_invisible_marker(c),
{
    c == '\u{200e}' || c == '\u{200f}' || c == '\u{202a}' || c == '\u{202b}' || c == '\u{202c}'
        || c == '\u{202d}' || c == '\u{202e}' || c == '\u{2066}' || c == '\u{2067}' || c
        == '\u{2068}' || c == '\u{2069}' || c == '\u{feff}'
}

/// White space, then double quotes, then single quotes removed from both
/// ends.
pub open spec fn trim_path_spec(s: Seq<char>) -> Seq<char> {
    trim_spec(
        trim_spec(trim_spec(s, CharClass::Whitespace), CharClass::Exactly('"')),
        CharClass::Exactly('\''),
    )
}

/// A pasted path cleaned: trimmed of white space and quotes, its invisible
/// marks removed, and trimmed again.
pub open spec fn sanitize_spec(s: Seq<char>) -> Seq<char> {
    trim_path_spec(trim_path_spec(s).filter(|c: char| !is_invisible_marker(c)))
}

fn trim_path(v: &[char]) -> (r: Vec<char>)
    ensures
        r@ == trim_path_spec(v@),
{
    let a = trim_class(v, CharClass::Whitespace);
    let b = trim_class(a.as_slice(), CharClass::Exactly('"'));
    trim_class(b.as_slice(), CharClass::Exactly('\''))
}

fn remove_invisible(v: &[char]) -> (r: Vec<char>)
    ensures
        r@ == v@.filter(|c: char| !is_invisible_marker(c)),
{
    let ghost keep = |c: char| !is_invisible_marker(c);
    let mut r: Vec<char> = Vec::new();
    let mut i: usize = 0;
    assert(v@.take(0).filter(keep) =~= Seq::<char>::empty()) by {
        reveal(Seq::filter);
    }
    while i < v.len()
        invariant
            i <= v@.len(),
            keep == (|c: char| !is_invisible_marker(c)),
            r@ == v@.take(i as int).filter(keep),
        decreases v@.len() - i,
    {
        assert(v@.take(i + 1) =~= v@.take(i as int).push(v@[i as int]));
        proof {
            v@.take(i as int).lemma_filter_push(v@[i as int], keep);
        }
        if !is_invisible_path_marker(v[i]) {
            r.push(v[i]);
        }
        i = i + 1;
    }
    assert(v@.take(v@.len() as int) =~= v@);
    r
}

/// A pasted path cleaned of surrounding white space and quotes and of
/// invisible marks.
pub fn sanitize_path_input(value: &str) -> (r: String)
    ensures
        r@ == sanitize_spec(value@),
{
    let v = chars_of(value);
    let a = trim_path(v.as_slice());
    let b = remove_invisible(a.as_slice());
    let c = trim_path(b.as_slice());
    string_of(c.as_slice())
}

/// Indices are accepted exactly when each is known; a refused index is
/// one of the requested indices and is not known.
pub proof fn law_first_unknown(known: Seq<usize>, indices: Seq<usize>)
    ensures
        first_unknown(known, indices) is None <==> forall|i: int|
            0 <= i < indices.len() ==> known.contains(#[trigger] indices[i]),
        first_unknown(known, indices) matches Some(x) ==> indices.contains(x) && !known.contains(x),
    decreases indices.len(),
{
    if indices.len() > 0 {
        law_first_unknown(known, indices.drop_first());
        assert forall|i: int| 0 < i < indices.len() implies indices[i] == indices.drop_first()[i - 1] by {}
        if known.contains(indices[0]) {
            if first_unknown(known, indices.drop_first()) is None {
                assert forall|i: int| 0 <= i < indices.len() implies known.contains(#[trigger] indices[i]) by {
                    if i > 0 {
                        assert(known.contains(indices.drop_first()[i - 1]));
                    }
                }
            } else {
                let x = first_unknown(known, indices.drop_first())->0;
                let j = choose|j: int| 0 <= j < indices.drop_first().len() && indices.drop_first()[j] == x;
                assert(indices[j + 1] == x);
                if forall|i: int| 0 <= i < indices.len() ==> known.contains(#[trigger] indices[i]) {
                    assert(known.contains(indices[j + 1]));
                }
            }
        } else {
            assert(indices[0] == indices[0]);
        }
    }
}

proof fn lemma_trim_keeps(s: Seq<char>, class: CharClass, bad: spec_fn(char) -> bool)
    requires
        forall|i: int| 0 <= i < s.len() ==> !bad(#[trigger] s[i]),
    ensures
        forall|i: int| 0 <= i < trim_spec(s, class).len() ==> !bad(#[trigger] trim_spec(s, class)[i]),
{
    lemma_trim_start_keeps(s, class, bad);
    lemma_trim_end_keeps(crate::text::trim_start_spec(s, class), class, bad);
}

proof fn lemma_trim_start_keeps(s: Seq<char>, class: CharClass, bad: spec_fn(char) -> bool)
    requires
        forall|i: int| 0 <= i < s.len() ==> !bad(#[trigger] s[i]),
    ensures
        forall|i: int|
            0 <= i < crate::text::trim_start_spec(s, class).len() ==> !bad(
                #[trigger] crate::text::trim_start_spec(s, class)[i],
            ),
    decreases s.len(),
{
    if s.len() > 0 && crate::text::in_class(class, s[0]) {
        assert forall|i: int| 0 <= i < s.drop_first().len() implies !bad(#[trigger] s.drop_first()[i]) by {
            assert(s.drop_first()[i] == s[i + 1]);
        }
        lemma_trim_start_keeps(s.drop_first(), class, bad);
        assert(crate::text::trim_start_spec(s, class) == crate::text::trim_start_spec(
            s.drop_first(),
            class,
        ));
    } else {
        assert(crate::text::trim_start_spec(s, class) == s);
    }
}

proof fn lemma_trim_end_keeps(s: Seq<char>, class: CharClass, bad: spec_fn(char) -> bool)
    requires
        forall|i: int| 0 <= i < s.len() ==> !bad(#[trigger] s[i]),
    ensures
        forall|i: int|
            0 <= i < crate::text::trim_end_spec(s, class).len() ==> !bad(
                #[trigger] crate::text::trim_end_spec(s, class)[i],
            ),
    decreases s.len(),
{
    if s.len() > 0 && crate::text::in_class(class, s.last()) {
        assert forall|i: int| 0 <= i < s.drop_last().len() implies !bad(#[trigger] s.drop_last()[i]) by {
            assert(s.drop_last()[i] == s[i]);
        }
        lemma_trim_end_keeps(s.drop_last(), class, bad);
        assert(crate::text::trim_end_spec(s, class) == crate::text::trim_end_spec(
            s.drop_last(),
            class,
        ));
    } else {
        assert(crate::text::trim_end_spec(s, class) == s);
    }
}

/// A cleaned path holds no invisible marks.
pub proof fn law_sanitized_has_no_invisible_marks(s: Seq<char>)
    ensures
        forall|i: int| 0 <= i < sanitize_spec(s).len() ==> !is_invisible_marker(#[trigger] sanitize_spec(s)[i]),
{
    let keep = |c: char| !is_invisible_marker(c);
    let bad = |c: char| is_invisible_marker(c);
    let f = trim_path_spec(s).filter(keep);
    assert forall|i: int| 0 <= i < f.len() implies !bad(#[trigger] f[i]) by {
        trim_path_spec(s).lemma_filter_pred(keep, i);
    }
    let a = trim_spec(f, CharClass::Whitespace);
    lemma_trim_keeps(f, CharClass::Whitespace, bad);
    let b = trim_spec(a, CharClass::Exactly('"'));
    lemma_trim_keeps(a, CharClass::Exactly('"'), bad);
    lemma_trim_keeps(b, CharClass::Exactly('\''), bad);
}

} // verus!
