//! The errors of the library.
use vstd::prelude::*;
use crate::text::{decimal, write_decimal};

verus! {

/// Why a request was refused.
#[derive(Debug)]
pub enum TrackforgeError {
    /// A target format name that is not one of the supported formats.
    UnsupportedFormat(String),
    /// A track mode name that is not `replace` or `add` (or a synonym).
    UnsupportedMode(String),
    /// No audio track has this stream index.
    UnknownAudioStream(usize),
    /// No audio track has this ordinal.
    UnknownAudioOrdinal(usize),
    /// A selected file whose extension is not a supported video extension.
    UnsupportedVideo(String),
    /// A removal job that asks for no removal and no change of metadata.
    NothingToDelete,
    /// A processing job that asks for no operation at all.
    NothingToProcess,
}

/// The mathematical value of an error.
pub enum ErrorView {
    UnsupportedFormat(Seq<char>),
    UnsupportedMode(Seq<char>),
    UnknownAudioStream(usize),
    UnknownAudioOrdinal(usize),
    UnsupportedVideo(Seq<char>),
    NothingToDelete,
    NothingToProcess,
}

impl View for TrackforgeError {
    type V = ErrorView;

    open spec fn view(&self) -> ErrorView {
        match self {
            TrackforgeError::UnsupportedFormat(v) => ErrorView::UnsupportedFormat(v@),
            TrackforgeError::UnsupportedMode(v) => ErrorView::UnsupportedMode(v@),
            TrackforgeError::UnknownAudioStream(i) => ErrorView::UnknownAudioStream(*i),
            TrackforgeError::UnknownAudioOrdinal(o) => ErrorView::UnknownAudioOrdinal(*o),
            TrackforgeError::UnsupportedVideo(p) => ErrorView::UnsupportedVideo(p@),
            TrackforgeError::NothingToDelete => ErrorView::NothingToDelete,
            TrackforgeError::NothingToProcess => ErrorView::NothingToProcess,
        }
    }
}

/// The message shown for an error.
pub open spec fn message_spec(e: TrackforgeError) -> Seq<char> {
    match e {
        TrackforgeError::UnsupportedFormat(v) => "Formato no soportado: "@ + v@
            + ". Usa aac, ac3, mp3, opus, flac o wav."@,
        TrackforgeError::UnsupportedMode(v) => "Modo no soportado: "@ + v@ + ". Usa replace o add."@,
        TrackforgeError::UnknownAudioStream(i) => "No audio track has stream index "@ + decimal(
            i as nat,
        ),
        TrackforgeError::UnknownAudioOrdinal(o) => "No audio track has ordinal "@ + decimal(o as nat),
        TrackforgeError::UnsupportedVideo(p) => "The selected file is not a supported video: "@
            + p@,
        TrackforgeError::NothingToDelete => "Select tracks to delete or change some audio metadata."@,
        TrackforgeError::NothingToProcess => "Select at least one operation to process the file."@,
    }
}

impl TrackforgeError {
    /// The message shown for the error.
    pub fn message(&self) -> (r: String)
        ensures
            r@ == message_spec(*self),
    {
        match self {
            TrackforgeError::UnsupportedFormat(v) => {
                let mut r = String::from_str("Formato no soportado: ");
                r.append(v.as_str());
                r.append(". Usa aac, ac3, mp3, opus, flac o wav.");
                r
            },
            TrackforgeError::UnsupportedMode(v) => {
                let mut r = String::from_str("Modo no soportado: ");
                r.append(v.as_str());
                r.append(". Usa replace o add.");
                r
            },
            TrackforgeError::UnknownAudioStream(i) => {
                let mut r = String::from_str("No audio track has stream index ");
                write_decimal(&mut r, *i as u64);
                r
            },
            TrackforgeError::UnknownAudioOrdinal(o) => {
                let mut r = String::from_str("No audio track has ordinal ");
                write_decimal(&mut r, *o as u64);
                r
            },
            TrackforgeError::UnsupportedVideo(p) => {
                let mut r = String::from_str("The selected file is not a supported video: ");
                r.append(p.as_str());
                r
            },
            TrackforgeError::NothingToDelete => String::from_str(
                "Select tracks to delete or change some audio metadata.",
            ),
            TrackforgeError::NothingToProcess => String::from_str(
                "Select at least one operation to process the file.",
            ),
        }
    }
}

} // verus!
