//! Checks of a processing request against the probe of its file, and the
//! local space a processing job needs.
use vstd::prelude::*;
use crate::cli::first_unknown;
use crate::error::TrackforgeError;
use crate::ffmpeg::{count_audio, AudioTitleUpdate};
use crate::ffprobe::{audio_count, audio_streams, audio_tracks, Probe, Stream};

verus! {

/// The stream indices of the audio streams of a probe.
pub open spec fn audio_stream_indices(probe: &Probe) -> Seq<usize> {
    audio_streams(probe.streams@).map_values(|s: Stream| s.index)
}

/// Accepts the stream indices when each is that of an audio stream of the
/// probe; otherwise refuses the first that is not.
pub fn validate_audio_indices(probe: &Probe, indices: &[usize]) -> (r: Result<(), TrackforgeError>)
    ensures
        match first_unknown(audio_stream_indices(probe), indices@) {
            None => r == Ok::<(), TrackforgeError>(()),
            Some(x) => r == Err::<(), TrackforgeError>(TrackforgeError::UnknownAudioStream(x)),
        },
{
    let tracks = audio_tracks(probe);
    let ghost known = audio_stream_indices(probe);
    assert forall|k: int| 0 <= k < tracks@.len() implies (#[trigger] tracks@[k]).stream_index
        == audio_streams(probe.streams@)[k].index by {
        assert(tracks@[k]@.stream_index == tracks@[k].stream_index);
    }
    assert(crate::cli::track_stream_indices(tracks@) =~= known);
    let mut i: usize = 0;
    assert(indices@.skip(0) =~= indices@);
    while i < indices.len()
        invariant
            i <= indices@.len(),
            known == audio_stream_indices(probe),
            known == crate::cli::track_stream_indices(tracks@),
            first_unknown(known, indices@.skip(i as int)) == first_unknown(known, indices@),
        decreases indices@.len() - i,
    {
        assert(indices@.skip(i as int)[0] == indices@[i as int]);
        assert(indices@.skip(i as int).drop_first() =~= indices@.skip(i + 1));
        let x = indices[i];
        if !crate::cli::has_track_with_index(tracks.as_slice(), x) {
            return Err(TrackforgeError::UnknownAudioStream(x));
        }
        i = i + 1;
    }
    assert(indices@.skip(i as int) =~= Seq::<usize>::empty());
    Ok(())
}

/// The first ordinal of the title changes that is not below `count`.
pub open spec fn first_ordinal_out_of_range(titles: Seq<AudioTitleUpdate>, count: nat) -> Option<usize>
    decreases titles.len(),
{
    if titles.len() == 0 {
        None
    } else if titles[0].audio_ordinal >= count {
        Some(titles[0].audio_ordinal)
    } else {
        first_ordinal_out_of_range(titles.drop_first(), count)
    }
}

/// Accepts the title changes when each names an audio ordinal of the
/// probe; otherwise refuses the first that does not.
pub fn validate_audio_ordinals(probe: &Probe, titles: &[AudioTitleUpdate]) -> (r: Result<(), TrackforgeError>)
    ensures
        match first_ordinal_out_of_range(titles@, audio_count(probe.streams@)) {
            None => r == Ok::<(), TrackforgeError>(()),
            Some(x) => r == Err::<(), TrackforgeError>(TrackforgeError::UnknownAudioOrdinal(x)),
        },
{
    let count = count_audio(&probe.streams);
    let mut i: usize = 0;
    assert(titles@.skip(0) =~= titles@);
    while i < titles.len()
        invariant
            i <= titles@.len(),
            count == audio_count(probe.streams@),
            first_ordinal_out_of_range(titles@.skip(i as int), count as nat)
                == first_ordinal_out_of_range(titles@, count as nat),
        decreases titles@.len() - i,
    {
        assert(titles@.skip(i as int)[0] == titles@[i as int]);
        assert(titles@.skip(i as int).drop_first() =~= titles@.skip(i + 1));
        if titles[i].audio_ordinal >= count {
            return Err(TrackforgeError::UnknownAudioOrdinal(titles[i].audio_ordinal));
        }
        i = i + 1;
    }
    assert(titles@.skip(i as int) =~= Seq::<AudioTitleUpdate>::empty());
    Ok(())
}

/// Accepts a requested default ordinal when it names an audio track of the
/// probe, and the absence of one.
pub fn validate_default_audio_ordinal(probe: &Probe, ordinal: Option<usize>) -> (r: Result<
    (),
    TrackforgeError,
>)
    ensures
        match ordinal {
            Some(o) => if o < audio_count(probe.streams@) {
                r == Ok::<(), TrackforgeError>(())
            } else {
                r == Err::<(), TrackforgeError>(TrackforgeError::UnknownAudioOrdinal(o))
            },
            None => r == Ok::<(), TrackforgeError>(()),
        },
{
    match ordinal {
        None => Ok(()),
        Some(o) => {
            let count = count_audio(&probe.streams);
            if o >= count {
                Err(TrackforgeError::UnknownAudioOrdinal(o))
            } else {
                Ok(())
            }
        },
    }
}

/// The local space a job on a file of `input_size` bytes needs: twice the
/// file, a tenth more, and 512 MiB of margin, or `u64::MAX` where that does
/// not fit.
pub open spec fn required_local_temp_bytes_spec(input_size: u64) -> u64 {
    let total = 2 * input_size + input_size / 10 + 512 * 1024 * 1024;
    if total > u64::MAX {
        u64::MAX
    } else {
        total as u64
    }
}

/// The local space a job on a file of `input_size` bytes needs.
pub fn required_local_temp_bytes(input_size: u64) -> (r: u64)
    ensures
        r == required_local_temp_bytes_spec(input_size),
{
    let margin: u64 = 512 * 1024 * 1024;
    let doubled: u64 = if input_size > u64::MAX / 2 { u64::MAX } else { input_size * 2 };
    doubled.saturating_add(input_size / 10).saturating_add(margin)
}

/// Too little local space for a job: what it needs and what is free.
#[derive(Debug)]
pub struct SpaceShortage {
    pub required: u64,
    pub available: u64,
}

/// The local space a job on a file of `input_size` bytes needs, where
/// `available` bytes are free; refused when less is free than it needs.
pub fn check_local_temp_space(input_size: u64, available: u64) -> (r: Result<u64, SpaceShortage>)
    ensures
        match r {
            Ok(required) => required == required_local_temp_bytes_spec(input_size) && available
                >= required,
            Err(s) => s.required == required_local_temp_bytes_spec(input_size) && s.available
                == available && available < s.required,
        },
{
    let required = required_local_temp_bytes(input_size);
    if available < required {
        Err(SpaceShortage { required, available })
    } else {
        Ok(required)
    }
}

} // verus!
