//! Decoding a file into interleaved PCM: the format it is decoded at and the
//! `ffmpeg` run that decodes it.

use vstd::prelude::*;
use crate::error::{outcome, AudioHelperError, ErrorView};
use crate::session::{done_error, failure_of, Reply, Request, RequestView, Step, StepView};
use crate::text::{decimal, push_arg, push_owned_arg, u64_text};

verus! {

/// How `load` decodes.
#[derive(Debug, Clone, Copy, PartialEq, Eq, Structural)]
pub struct LoadOptions {
    /// Resample to this rate; `None` keeps the file's own sample rate.
    pub target_sample_rate: Option<u32>,
    /// Down-mix to mono.
    pub to_mono: bool,
    /// Force stereo when `to_mono` is `false`; ignored when it is `true`.
    pub two_channels: bool,
}

impl Default for LoadOptions {
    /// Mono at the file's own sample rate.
    fn default() -> (r: Self)
        ensures
            r.target_sample_rate is None,
            r.to_mono,
            !r.two_channels,
    {
        LoadOptions { target_sample_rate: None, to_mono: true, two_channels: false }
    }
}

/// The sample rate and channel count a file of `native_rate` and
/// `native_channels` is decoded at: the target rate if one is set; mono
/// first, then forced stereo, else the file's own channel count (at least
/// one).
pub open spec fn decoded_format(options: LoadOptions, native_rate: u32, native_channels: u32) -> (u32, u32) {
    let rate = match options.target_sample_rate {
        Some(r) => r,
        None => native_rate,
    };
    let channels: u32 = if options.to_mono {
        1
    } else if options.two_channels {
        2
    } else if native_channels >= 1 {
        native_channels
    } else {
        1
    };
    (rate, channels)
}

/// The sample rate and channel count a file is decoded at, given its own
/// (`native`, as [`crate::probe::native_format`] reports it).
pub fn load_format(options: &LoadOptions, native: (u32, u32)) -> (r: (u32, u32))
    ensures
        r == decoded_format(*options, native.0, native.1),
{
    let rate = match options.target_sample_rate {
        Some(r) => r,
        None => native.0,
    };
    let channels: u32 = if options.to_mono {
        1
    } else if options.two_channels {
        2
    } else if native.1 >= 1 {
        native.1
    } else {
        1
    };
    (rate, channels)
}

/// The `ffmpeg` arguments that decode `source` to little-endian `f32` PCM on
/// standard output, at `channels` channels and `sample_rate`.
pub open spec fn decode_arguments(source: Seq<char>, sample_rate: u32, channels: u32) -> Seq<Seq<char>> {
    seq![
        "-hide_banner"@,
        "-loglevel"@,
        "error"@,
        "-i"@,
        source,
        "-f"@,
        "f32le"@,
        "-ac"@,
        decimal(channels as nat),
        "-ar"@,
        decimal(sample_rate as nat),
        "pipe:1"@,
    ]
}

/// Builds the `ffmpeg` arguments of a decode.
pub fn decode_args(source: &str, sample_rate: u32, channels: u32) -> (args: Vec<String>)
    ensures
        args.deep_view() == decode_arguments(source@, sample_rate, channels),
{
    let mut args: Vec<String> = Vec::new();
    push_arg(&mut args, "-hide_banner");
    push_arg(&mut args, "-loglevel");
    push_arg(&mut args, "error");
    push_arg(&mut args, "-i");
    push_arg(&mut args, source);
    push_arg(&mut args, "-f");
    push_arg(&mut args, "f32le");
    push_arg(&mut args, "-ac");
    push_owned_arg(&mut args, u64_text(channels as u64));
    push_arg(&mut args, "-ar");
    push_owned_arg(&mut args, u64_text(sample_rate as u64));
    push_arg(&mut args, "pipe:1");
    assert(args.deep_view() =~= decode_arguments(source@, sample_rate, channels));
    args
}


/// The format a `Format` reply carries; a reply of another kind is a
/// failure.
pub open spec fn format_reply(r: Reply) -> Result<(u32, u32), ErrorView> {
    match r {
        Reply::Format(f) => outcome(f),
        _ => Err(ErrorView::UnexpectedReply),
    }
}

/// Decoding `path`, given the answers `r` so far: its native format is
/// read, the decoded format chosen from it, then `ffmpeg` decodes; the
/// result is the format of the samples.
pub open spec fn load_session(path: Seq<char>, options: LoadOptions, r: Seq<Reply>) -> StepView<(u32, u32)> {
    if r.len() == 0 {
        StepView::Perform(RequestView::NativeFormat(path))
    } else {
        match format_reply(r[0]) {
            Err(e) => StepView::Finish(Err(e)),
            Ok((rate, channels)) => {
                let (r_out, c_out) = decoded_format(options, rate, channels);
                if r.len() == 1 {
                    StepView::Perform(RequestView::DecodePcm(decode_arguments(path, r_out, c_out)))
                } else if done_error(r[1]) is Some {
                    StepView::Finish(Err(done_error(r[1]).unwrap()))
                } else {
                    StepView::Finish(Ok((r_out, c_out)))
                }
            },
        }
    }
}

/// The next step of decoding `path` into memory as interleaved `f32` PCM;
/// it finishes with the sample rate and channel count of the samples.
pub fn load(path: &str, options: &LoadOptions, replies: &[Reply]) -> (step: Step<(u32, u32)>)
    ensures
        step@ == load_session(path@, *options, replies@),
{
    if replies.len() == 0 {
        return Step::Perform(Request::NativeFormat(String::from_str(path)));
    }
    let native = match &replies[0] {
        Reply::Format(Ok(f)) => *f,
        Reply::Format(Err(e)) => return Step::Finish(Err(e.duplicate())),
        _ => return Step::Finish(Err(AudioHelperError::UnexpectedReply)),
    };
    let (rate, channels) = load_format(options, native);
    if replies.len() == 1 {
        return Step::Perform(Request::DecodePcm(decode_args(path, rate, channels)));
    }
    if let Some(e) = failure_of(&replies[1]) {
        return Step::Finish(Err(e));
    }
    Step::Finish(Ok((rate, channels)))
}

/// The sample rate a decode runs at: the target rate when one is set,
/// whatever the file's own rate, else the file's own.
pub proof fn law_decoded_rate_is_the_target(options: LoadOptions, native_rate: u32, native_channels: u32)
    ensures
        options.target_sample_rate matches Some(t) ==> decoded_format(options, native_rate, native_channels).0
            == t,
        options.target_sample_rate is None ==> decoded_format(options, native_rate, native_channels).0
            == native_rate,
        options.to_mono ==> decoded_format(options, native_rate, native_channels).1 == 1,
        !options.to_mono && options.two_channels ==> decoded_format(
            options,
            native_rate,
            native_channels,
        ).1 == 2,
        !options.to_mono && !options.two_channels ==> decoded_format(
            options,
            native_rate,
            native_channels,
        ).1 == if native_channels == 0 {
            1
        } else {
            native_channels
        },
{
}

/// What `load` decodes at, whatever the answers: once the file's own format
/// `(rate, channels)` is known, the decoding `ffmpeg` reads `path` and
/// writes `f32` samples at the target rate when one is set (else the file's
/// own rate), in mono when asked, else in stereo when asked, else in the
/// file's own channels; and a finished load reports exactly that format.
pub proof fn law_load_decodes_at_the_requested_format(path: Seq<char>, options: LoadOptions, r: Seq<Reply>)
    requires
        r.len() > 0,
        format_reply(r[0]) is Ok,
    ensures
        ({
            let (native_rate, native_channels) = format_reply(r[0])->Ok_0;
            let rate: u32 = match options.target_sample_rate {
                Some(t) => t,
                None => native_rate,
            };
            let channels: u32 = if options.to_mono {
                1
            } else if options.two_channels {
                2
            } else if native_channels == 0 {
                1
            } else {
                native_channels
            };
            &&& load_session(path, options, r) matches StepView::Perform(RequestView::DecodePcm(a)) ==> a
                =~= seq![
                "-hide_banner"@,
                "-loglevel"@,
                "error"@,
                "-i"@,
                path,
                "-f"@,
                "f32le"@,
                "-ac"@,
                decimal(channels as nat),
                "-ar"@,
                decimal(rate as nat),
                "pipe:1"@,
            ]
            &&& load_session(path, options, r) matches StepView::Finish(Ok(f)) ==> f == (rate, channels)
        }),
{
}
} // verus!
