//! The error every fallible operation of the crate reports.

use vstd::prelude::*;

verus! {

/// Why an operation failed.
///
/// Paths are held as text. Times are whole microseconds; `None` stands for a
/// time that was not a number.
#[derive(Debug)]
pub enum AudioHelperError {
    /// The file does not exist.
    FileNotFound(String),
    /// `ffprobe` found no audio stream in the file.
    InvalidAudioFile(String),
    /// `ffmpeg` failed, or did not produce what it was asked for.
    Ffmpeg(String),
    /// `ffprobe` exited with a failure.
    Ffprobe(String),
    /// `ffprobe`'s report could not be read.
    FfprobeParse(String),
    /// A tool could not be started.
    MissingBinary { binary: String, reason: String },
    /// A `[start, end)` range that does not lie inside the file.
    InvalidTimeRange { start: Option<i128>, end: Option<i128>, duration: u64 },
    /// A duration that is not strictly positive.
    InvalidDuration(Option<i128>),
    /// An operation that needs at least one input got none.
    EmptyInputList,
    /// A noise color that `anoisesrc` does not offer.
    UnsupportedNoiseColor(String),
    /// A file-system operation failed.
    Io(String),
    /// Writing a WAV file failed.
    Wav(String),
    /// The answer handed back was not of the kind the request calls for.
    UnexpectedReply,
}

/// The mathematical value of an [`AudioHelperError`]: its text as
/// character sequences.
pub enum ErrorView {
    FileNotFound(Seq<char>),
    InvalidAudioFile(Seq<char>),
    Ffmpeg(Seq<char>),
    Ffprobe(Seq<char>),
    FfprobeParse(Seq<char>),
    MissingBinary { binary: Seq<char>, reason: Seq<char> },
    InvalidTimeRange { start: Option<i128>, end: Option<i128>, duration: u64 },
    InvalidDuration(Option<i128>),
    EmptyInputList,
    UnsupportedNoiseColor(Seq<char>),
    Io(Seq<char>),
    Wav(Seq<char>),
    UnexpectedReply,
}

impl View for AudioHelperError {
    type V = ErrorView;

    open spec fn view(&self) -> ErrorView {
        match self {
            AudioHelperError::FileNotFound(p) => ErrorView::FileNotFound(p@),
            AudioHelperError::InvalidAudioFile(p) => ErrorView::InvalidAudioFile(p@),
            AudioHelperError::Ffmpeg(m) => ErrorView::Ffmpeg(m@),
            AudioHelperError::Ffprobe(m) => ErrorView::Ffprobe(m@),
            AudioHelperError::FfprobeParse(m) => ErrorView::FfprobeParse(m@),
            AudioHelperError::MissingBinary { binary, reason } => ErrorView::MissingBinary {
                binary: binary@,
                reason: reason@,
            },
            AudioHelperError::InvalidTimeRange { start, end, duration } =>
                ErrorView::InvalidTimeRange { start: *start, end: *end, duration: *duration },
            AudioHelperError::InvalidDuration(d) => ErrorView::InvalidDuration(*d),
            AudioHelperError::EmptyInputList => ErrorView::EmptyInputList,
            AudioHelperError::UnsupportedNoiseColor(c) => ErrorView::UnsupportedNoiseColor(c@),
            AudioHelperError::Io(m) => ErrorView::Io(m@),
            AudioHelperError::Wav(m) => ErrorView::Wav(m@),
            AudioHelperError::UnexpectedReply => ErrorView::UnexpectedReply,
        }
    }
}

impl AudioHelperError {
    /// An identical copy of the error.
    pub fn duplicate(&self) -> (r: AudioHelperError)
        ensures
            r == *self,
    {
        match self {
            AudioHelperError::FileNotFound(p) => AudioHelperError::FileNotFound(p.clone()),
            AudioHelperError::InvalidAudioFile(p) => AudioHelperError::InvalidAudioFile(p.clone()),
            AudioHelperError::Ffmpeg(m) => AudioHelperError::Ffmpeg(m.clone()),
            AudioHelperError::Ffprobe(m) => AudioHelperError::Ffprobe(m.clone()),
            AudioHelperError::FfprobeParse(m) => AudioHelperError::FfprobeParse(m.clone()),
            AudioHelperError::MissingBinary { binary, reason } => AudioHelperError::MissingBinary {
                binary: binary.clone(),
                reason: reason.clone(),
            },
            AudioHelperError::InvalidTimeRange { start, end, duration } =>
                AudioHelperError::InvalidTimeRange { start: *start, end: *end, duration: *duration },
            AudioHelperError::InvalidDuration(d) => AudioHelperError::InvalidDuration(*d),
            AudioHelperError::EmptyInputList => AudioHelperError::EmptyInputList,
            AudioHelperError::UnsupportedNoiseColor(c) => AudioHelperError::UnsupportedNoiseColor(
                c.clone(),
            ),
            AudioHelperError::Io(m) => AudioHelperError::Io(m.clone()),
            AudioHelperError::Wav(m) => AudioHelperError::Wav(m.clone()),
            AudioHelperError::UnexpectedReply => AudioHelperError::UnexpectedReply,
        }
    }
}


/// A result with its error taken by its view.
pub open spec fn outcome<T>(r: Result<T, AudioHelperError>) -> Result<T, ErrorView> {
    match r {
        Ok(x) => Ok(x),
        Err(e) => Err(e@),
    }
}

} // verus!
