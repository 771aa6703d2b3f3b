//! The exchange between an operation and whoever runs it.
//!
//! An operation never touches the file system or starts a process itself.
//! Given everything that was answered so far, it returns its next [`Step`]:
//! either a [`Request`] to perform, whose [`Reply`] the caller appends to the
//! answers before asking again, or the operation's final result.

use vstd::prelude::*;
use crate::error::{outcome, AudioHelperError, ErrorView};
use crate::text::{lossy_text, push_arg, utf8_lossy};

verus! {

/// Outside work that an operation needs done.
#[derive(Debug)]
pub enum Request {
    /// Is this path an existing regular file? Answered by [`Reply::Answer`].
    IsFile(String),
    /// Is this path a file in which `ffprobe` finds an audio stream?
    /// Answered by [`Reply::Answer`].
    IsValidAudio(String),
    /// The duration of the audio stream of this path in microseconds (see
    /// [`crate::probe::get_duration_micros`]). Answered by
    /// [`Reply::Duration`].
    AudioDuration(String),
    /// Run `ffmpeg` with these arguments. Answered by [`Reply::Done`] (see
    /// [`ffmpeg_status`]).
    RunFfmpeg(Vec<String>),
    /// Create this directory and its parents. Answered by [`Reply::Done`].
    CreateDir(String),
    /// Create a fresh temporary file whose name ends in `.wav`. Answered by
    /// [`Reply::TempPath`].
    CreateTempWav,
    /// Remove this temporary file, whose work is done. Answered by
    /// [`Reply::Done`]; a failure to remove it is not looked at.
    RemoveTemp(String),
    /// Write a mono 16-bit integer PCM WAV file of `samples` zero samples at
    /// `sample_rate`. Answered by [`Reply::Done`].
    WriteSilentWav { path: String, sample_rate: u32, samples: usize },
    /// Decode this file as mono `f32` PCM at its own sample rate and report
    /// whether every sample is zero. Answered by [`Reply::Silence`].
    CheckSilence(String),
    /// The native sample rate and channel count of this path (see
    /// [`crate::probe::native_format`]). Answered by [`Reply::Format`].
    NativeFormat(String),
    /// Run `ffmpeg` with these arguments (no common options in front) and
    /// keep the `f32` samples it writes to standard output. Answered by
    /// [`Reply::Done`] (see [`ffmpeg_status`]).
    DecodePcm(Vec<String>),
}

/// The mathematical value of a [`Request`].
pub enum RequestView {
    IsFile(Seq<char>),
    IsValidAudio(Seq<char>),
    AudioDuration(Seq<char>),
    RunFfmpeg(Seq<Seq<char>>),
    CreateDir(Seq<char>),
    CreateTempWav,
    RemoveTemp(Seq<char>),
    WriteSilentWav { path: Seq<char>, sample_rate: u32, samples: usize },
    CheckSilence(Seq<char>),
    NativeFormat(Seq<char>),
    DecodePcm(Seq<Seq<char>>),
}

impl View for Request {
    type V = RequestView;

    open spec fn view(&self) -> RequestView {
        match self {
            Request::IsFile(p) => RequestView::IsFile(p@),
            Request::IsValidAudio(p) => RequestView::IsValidAudio(p@),
            Request::AudioDuration(p) => RequestView::AudioDuration(p@),
            Request::RunFfmpeg(args) => RequestView::RunFfmpeg(args.deep_view()),
            Request::CreateDir(p) => RequestView::CreateDir(p@),
            Request::CreateTempWav => RequestView::CreateTempWav,
            Request::RemoveTemp(p) => RequestView::RemoveTemp(p@),
            Request::WriteSilentWav { path, sample_rate, samples } => RequestView::WriteSilentWav {
                path: path@,
                sample_rate: *sample_rate,
                samples: *samples,
            },
            Request::CheckSilence(p) => RequestView::CheckSilence(p@),
            Request::NativeFormat(p) => RequestView::NativeFormat(p@),
            Request::DecodePcm(args) => RequestView::DecodePcm(args.deep_view()),
        }
    }
}

/// How loud a decoded file is.
#[derive(Debug)]
pub struct SilenceLevel {
    /// Every sample is zero.
    pub silent: bool,
    /// The sum of the absolute values of the samples, as text.
    pub level: String,
}

/// The answer to a [`Request`].
#[derive(Debug)]
pub enum Reply {
    Answer(bool),
    Duration(Result<u64, AudioHelperError>),
    Done(Result<(), AudioHelperError>),
    TempPath(Result<String, AudioHelperError>),
    Silence(Result<SilenceLevel, AudioHelperError>),
    Format(Result<(u32, u32), AudioHelperError>),
}

/// What an operation does next.
#[derive(Debug)]
pub enum Step<T> {
    Perform(Request),
    Finish(Result<T, AudioHelperError>),
}

/// The mathematical value of a [`Step`].
pub enum StepView<V> {
    Perform(RequestView),
    Finish(Result<V, ErrorView>),
}

impl<T: DeepView> View for Step<T> {
    type V = StepView<T::V>;

    open spec fn view(&self) -> StepView<T::V> {
        match self {
            Step::Perform(q) => StepView::Perform(q@),
            Step::Finish(Ok(x)) => StepView::Finish(Ok(x.deep_view())),
            Step::Finish(Err(e)) => StepView::Finish(Err(e@)),
        }
    }
}

/// A yes: the reply is `Answer(true)`. Any other reply counts as a no.
pub open spec fn yes(r: Reply) -> bool {
    r == Reply::Answer(true)
}

/// The failure a `Done` reply carries; a reply of another kind is a failure
/// too.
pub open spec fn done_error(r: Reply) -> Option<ErrorView> {
    match r {
        Reply::Done(Ok(())) => None,
        Reply::Done(Err(e)) => Some(e@),
        _ => Some(ErrorView::UnexpectedReply),
    }
}

/// The duration a `Duration` reply carries; a reply of another kind is a
/// failure.
pub open spec fn duration_reply(r: Reply) -> Result<u64, ErrorView> {
    match r {
        Reply::Duration(d) => outcome(d),
        _ => Err(ErrorView::UnexpectedReply),
    }
}

/// Reads a yes/no answer.
pub fn is_yes(r: &Reply) -> (b: bool)
    ensures
        b == yes(*r),
{
    match r {
        Reply::Answer(true) => true,
        _ => false,
    }
}

/// Reads the failure of a `Done` reply.
pub fn failure_of(r: &Reply) -> (e: Option<AudioHelperError>)
    ensures
        match e {
            Some(x) => done_error(*r) == Some(x@),
            None => done_error(*r) is None,
        },
{
    match r {
        Reply::Done(Ok(())) => None,
        Reply::Done(Err(x)) => Some(x.duplicate()),
        _ => Some(AudioHelperError::UnexpectedReply),
    }
}

/// Reads a duration reply.
pub fn duration_of(r: &Reply) -> (d: Result<u64, AudioHelperError>)
    ensures
        outcome(d) == duration_reply(*r),
{
    match r {
        Reply::Duration(Ok(x)) => Ok(*x),
        Reply::Duration(Err(e)) => Err(e.duplicate()),
        _ => Err(AudioHelperError::UnexpectedReply),
    }
}

/// The options every `ffmpeg` run starts with: overwrite the output, no
/// banner, log errors only.
pub open spec fn ffmpeg_command(args: Seq<Seq<char>>) -> Seq<Seq<char>> {
    seq!["-y"@, "-hide_banner"@, "-loglevel"@, "error"@] + args
}

/// Puts the common `ffmpeg` options in front of `args`.
pub fn ffmpeg_args(args: Vec<String>) -> (r: Vec<String>)
    ensures
        r.deep_view() == ffmpeg_command(args.deep_view()),
{
    let mut r: Vec<String> = Vec::new();
    push_arg(&mut r, "-y");
    push_arg(&mut r, "-hide_banner");
    push_arg(&mut r, "-loglevel");
    push_arg(&mut r, "error");
    let ghost head = r.deep_view();
    let mut rest = args;
    let ghost all = rest.deep_view();
    r.append(&mut rest);
    assert(r.deep_view() =~= head + all);
    r
}

/// What an `ffmpeg` exit means: failure carries its error output.
pub fn ffmpeg_status(success: bool, stderr: &[u8]) -> (r: Result<(), AudioHelperError>)
    ensures
        outcome(r) == if success {
            Ok(())
        } else {
            Err(ErrorView::Ffmpeg(utf8_lossy(stderr@)))
        },
{
    if success {
        Ok(())
    } else {
        Err(AudioHelperError::Ffmpeg(lossy_text(stderr)))
    }
}

/// The error for an operation (`what`) whose output is missing or unreadable.
pub open spec fn no_output_message(what: Seq<char>, output: Seq<char>) -> Seq<char> {
    what + " produced no valid audio file at "@ + output
}

/// Checks that `output` is now a file in which `ffprobe` finds audio.
pub open spec fn verify_output(output: Seq<char>, what: Seq<char>, r: Seq<Reply>) -> StepView<()> {
    if r.len() == 0 {
        StepView::Perform(RequestView::IsFile(output))
    } else if !yes(r[0]) {
        StepView::Finish(Err(ErrorView::Ffmpeg(no_output_message(what, output))))
    } else if r.len() == 1 {
        StepView::Perform(RequestView::IsValidAudio(output))
    } else if !yes(r[1]) {
        StepView::Finish(Err(ErrorView::Ffmpeg(no_output_message(what, output))))
    } else {
        StepView::Finish(Ok(()))
    }
}

/// Runs `ffmpeg` with `args` (after the common options), then checks that it
/// wrote `output`.
pub open spec fn produce(args: Seq<Seq<char>>, output: Seq<char>, what: Seq<char>, r: Seq<Reply>) -> StepView<()> {
    if r.len() == 0 {
        StepView::Perform(RequestView::RunFfmpeg(ffmpeg_command(args)))
    } else if done_error(r[0]) is Some {
        StepView::Finish(Err(done_error(r[0]).unwrap()))
    } else {
        verify_output(output, what, r.skip(1))
    }
}

pub(crate) fn verify_output_step(output: &str, what: &str, replies: &[Reply], at: usize) -> (s: Step<()>)
    requires
        at <= replies@.len(),
    ensures
        s@ == verify_output(output@, what@, replies@.skip(at as int)),
{
    let ghost r = replies@.skip(at as int);
    if at == replies.len() {
        return Step::Perform(Request::IsFile(String::from_str(output)));
    }
    assert(r[0] == replies@[at as int]);
    if !is_yes(&replies[at]) || (at + 1 < replies.len() && !is_yes(&replies[at + 1])) {
        if at + 1 < replies.len() {
            assert(r[1] == replies@[at + 1]);
        }
        let mut message = String::from_str(what);
        message.append(" produced no valid audio file at ");
        message.append(output);
        return Step::Finish(Err(AudioHelperError::Ffmpeg(message)));
    }
    if at + 1 == replies.len() {
        return Step::Perform(Request::IsValidAudio(String::from_str(output)));
    }
    assert(r[1] == replies@[at + 1]);
    Step::Finish(Ok(()))
}

pub(crate) fn produce_step(args: Vec<String>, output: &str, what: &str, replies: &[Reply], at: usize) -> (s: Step<()>)
    requires
        at <= replies@.len(),
    ensures
        s@ == produce(args.deep_view(), output@, what@, replies@.skip(at as int)),
{
    let ghost r = replies@.skip(at as int);
    if at == replies.len() {
        return Step::Perform(Request::RunFfmpeg(ffmpeg_args(args)));
    }
    assert(r[0] == replies@[at as int]);
    if let Some(e) = failure_of(&replies[at]) {
        return Step::Finish(Err(e));
    }
    assert(r.skip(1) =~= replies@.skip(at + 1));
    verify_output_step(output, what, replies, at + 1)
}

} // verus!
