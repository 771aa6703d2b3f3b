//! Re-encoding a file at a given sample rate, channel count and codec.

use vstd::prelude::*;
use crate::error::AudioHelperError;
use crate::session::{
    ffmpeg_command, is_yes, produce, produce_step, yes, Reply, Request, RequestView, Step, StepView,
};
use crate::text::{decimal, eq_ignore_ascii_case, equals_ignore_ascii_case, push_arg, push_owned_arg, u64_text};

verus! {

/// How `convert` re-encodes.
#[derive(Debug, Clone)]
pub struct ConvertOptions {
    pub sample_rate: u32,
    pub channels: u32,
    /// PCM codec applied when the output container is WAV (e.g.
    /// `"pcm_s16le"`). Ignored for other containers, where `ffmpeg` picks the
    /// container's own default codec.
    pub encoding: Option<String>,
    /// If `false` and a valid output file already exists, nothing is
    /// converted.
    pub overwrite: bool,
}

impl Default for ConvertOptions {
    /// 44.1 kHz mono 16-bit PCM, overwriting.
    fn default() -> (r: Self)
        ensures
            r.sample_rate == 44_100,
            r.channels == 1,
            r.encoding matches Some(e) && e@ == "pcm_s16le"@,
            r.overwrite,
    {
        ConvertOptions {
            sample_rate: 44_100,
            channels: 1,
            encoding: Some(String::from_str("pcm_s16le")),
            overwrite: true,
        }
    }
}

/// An extension that names a WAV container, in any ASCII case.
pub open spec fn is_wav_extension(ext: Option<Seq<char>>) -> bool {
    match ext {
        Some(e) => eq_ignore_ascii_case(e, "wav"@),
        None => false,
    }
}

/// Whether a file extension names a WAV container, in any ASCII case.
pub fn wav_extension(ext: Option<&str>) -> (r: bool)
    ensures
        r == is_wav_extension(
            match ext {
                Some(e) => Some(e@),
                None => None,
            },
        ),
{
    match ext {
        Some(e) => equals_ignore_ascii_case(e, "wav"),
        None => false,
    }
}

/// The `ffmpeg` arguments that re-encode `input` into `output`; the codec is
/// only named for a WAV output.
pub open spec fn convert_arguments(
    input: Seq<char>,
    output: Seq<char>,
    wav_out: bool,
    sample_rate: u32,
    channels: u32,
    encoding: Option<Seq<char>>,
) -> Seq<Seq<char>> {
    let head = seq!["-i"@, input, "-ar"@, decimal(sample_rate as nat), "-ac"@, decimal(channels as nat)];
    let codec = if wav_out && encoding is Some {
        seq!["-acodec"@, encoding.unwrap()]
    } else {
        seq![]
    };
    head + codec + seq![output]
}

/// The encoding of the options, as text.
pub open spec fn encoding_of(options: ConvertOptions) -> Option<Seq<char>> {
    match options.encoding {
        Some(e) => Some(e@),
        None => None,
    }
}

/// Builds the `ffmpeg` arguments of a conversion.
pub fn convert_args(input: &str, output: &str, wav_out: bool, options: &ConvertOptions) -> (args: Vec<String>)
    ensures
        args.deep_view() == convert_arguments(
            input@,
            output@,
            wav_out,
            options.sample_rate,
            options.channels,
            encoding_of(*options),
        ),
{
    let mut args: Vec<String> = Vec::new();
    push_arg(&mut args, "-i");
    push_arg(&mut args, input);
    push_arg(&mut args, "-ar");
    push_owned_arg(&mut args, u64_text(options.sample_rate as u64));
    push_arg(&mut args, "-ac");
    push_owned_arg(&mut args, u64_text(options.channels as u64));
    if wav_out {
        if let Some(codec) = &options.encoding {
            push_arg(&mut args, "-acodec");
            push_arg(&mut args, codec.as_str());
        }
    }
    push_arg(&mut args, output);
    assert(args.deep_view() =~= convert_arguments(
        input@,
        output@,
        wav_out,
        options.sample_rate,
        options.channels,
        encoding_of(*options),
    ));
    args
}

/// The conversion of `input` into `output`, given the answers `r` so far:
/// the input must be a file and valid audio; unless overwriting, an output
/// that is already a valid audio file ends the work; then `ffmpeg` runs and
/// its output is checked.
pub open spec fn convert_session(
    input: Seq<char>,
    output: Seq<char>,
    output_extension: Option<Seq<char>>,
    options: ConvertOptions,
    r: Seq<Reply>,
) -> StepView<()> {
    let args = convert_arguments(
        input,
        output,
        is_wav_extension(output_extension),
        options.sample_rate,
        options.channels,
        encoding_of(options),
    );
    let what = "conversion"@;
    if r.len() == 0 {
        StepView::Perform(RequestView::IsFile(input))
    } else if !yes(r[0]) {
        StepView::Finish(Err(crate::error::ErrorView::FileNotFound(input)))
    } else if r.len() == 1 {
        StepView::Perform(RequestView::IsValidAudio(input))
    } else if !yes(r[1]) {
        StepView::Finish(Err(crate::error::ErrorView::InvalidAudioFile(input)))
    } else if options.overwrite {
        produce(args, output, what, r.skip(2))
    } else if r.len() == 2 {
        StepView::Perform(RequestView::IsFile(output))
    } else if !yes(r[2]) {
        produce(args, output, what, r.skip(3))
    } else if r.len() == 3 {
        StepView::Perform(RequestView::IsValidAudio(output))
    } else if yes(r[3]) {
        StepView::Finish(Ok(()))
    } else {
        produce(args, output, what, r.skip(4))
    }
}

/// The next step of converting `input` into `output` (whose extension is
/// `output_extension`), re-encoding at `options.sample_rate` /
/// `options.channels` (and `options.encoding` for a WAV output).
pub fn convert(
    input: &str,
    output: &str,
    output_extension: Option<&str>,
    options: &ConvertOptions,
    replies: &[Reply],
) -> (step: Step<()>)
    ensures
        step@ == convert_session(
            input@,
            output@,
            match output_extension {
                Some(e) => Some(e@),
                None => None,
            },
            *options,
            replies@,
        ),
{
    convert_from(input, output, output_extension, options, replies, 0)
}

pub(crate) fn convert_from(
    input: &str,
    output: &str,
    output_extension: Option<&str>,
    options: &ConvertOptions,
    replies: &[Reply],
    at: usize,
) -> (step: Step<()>)
    requires
        at <= replies@.len(),
    ensures
        step@ == convert_session(
            input@,
            output@,
            match output_extension {
                Some(e) => Some(e@),
                None => None,
            },
            *options,
            replies@.skip(at as int),
        ),
{
    let ghost r = replies@.skip(at as int);
    let n = replies.len();
    if at == n {
        return Step::Perform(Request::IsFile(String::from_str(input)));
    }
    assert(r[0] == replies@[at as int]);
    if !is_yes(&replies[at]) {
        return Step::Finish(Err(AudioHelperError::FileNotFound(String::from_str(input))));
    }
    if at + 1 == n {
        return Step::Perform(Request::IsValidAudio(String::from_str(input)));
    }
    assert(r[1] == replies@[at + 1]);
    if !is_yes(&replies[at + 1]) {
        return Step::Finish(Err(AudioHelperError::InvalidAudioFile(String::from_str(input))));
    }
    let wav_out = wav_extension(output_extension);
    let args = convert_args(input, output, wav_out, options);
    if options.overwrite {
        assert(r.skip(2) =~= replies@.skip(at + 2));
        return produce_step(args, output, "conversion", replies, at + 2);
    }
    if at + 2 == n {
        return Step::Perform(Request::IsFile(String::from_str(output)));
    }
    assert(r[2] == replies@[at + 2]);
    if !is_yes(&replies[at + 2]) {
        assert(r.skip(3) =~= replies@.skip(at + 3));
        return produce_step(args, output, "conversion", replies, at + 3);
    }
    if at + 3 == n {
        return Step::Perform(Request::IsValidAudio(String::from_str(output)));
    }
    assert(r[3] == replies@[at + 3]);
    if is_yes(&replies[at + 3]) {
        return Step::Finish(Ok(()));
    }
    assert(r.skip(4) =~= replies@.skip(at + 4));
    produce_step(args, output, "conversion", replies, at + 4)
}


/// Without `overwrite`, an output that is already a valid audio file ends
/// the conversion successfully, and `ffmpeg` is never run.
pub proof fn law_convert_keeps_valid_output(
    input: Seq<char>,
    output: Seq<char>,
    output_extension: Option<Seq<char>>,
    options: ConvertOptions,
    r: Seq<Reply>,
)
    requires
        !options.overwrite,
        r.len() >= 4,
        yes(r[0]),
        yes(r[1]),
        yes(r[2]),
        yes(r[3]),
    ensures
        convert_session(input, output, output_extension, options, r) == StepView::<()>::Finish(Ok(())),
        never_runs(input, output, output_extension, options, r.take(4)),
{
    let q = r.take(4);
    assert forall|k: int|
        0 <= k <= q.len() implies !(convert_session(input, output, output_extension, options, #[trigger] q.take(k)) is Perform
            && convert_session(input, output, output_extension, options, q.take(k))->Perform_0 is RunFfmpeg) by {
        let t = q.take(k);
        if k >= 1 {
            assert(t[0] == r[0]);
        }
        if k >= 2 {
            assert(t[1] == r[1]);
        }
        if k >= 3 {
            assert(t[2] == r[2]);
        }
        if k >= 4 {
            assert(t[3] == r[3]);
        }
    }
}

/// `ffmpeg` is only asked to convert once the input was found to be a file
/// and a valid audio file, and then with exactly the conversion's arguments.
pub proof fn law_convert_runs_on_valid_input(
    input: Seq<char>,
    output: Seq<char>,
    output_extension: Option<Seq<char>>,
    options: ConvertOptions,
    r: Seq<Reply>,
)
    requires
        convert_session(input, output, output_extension, options, r) matches StepView::Perform(
            RequestView::RunFfmpeg(_),
        ),
    ensures
        r.len() >= 2,
        yes(r[0]),
        yes(r[1]),
        convert_session(input, output, output_extension, options, r) == StepView::<()>::Perform(
            RequestView::RunFfmpeg(
                ffmpeg_command(
                    convert_arguments(
                        input,
                        output,
                        is_wav_extension(output_extension),
                        options.sample_rate,
                        options.channels,
                        encoding_of(options),
                    ),
                ),
            ),
        ),
{
}

/// No prefix of the answers `r` leads the conversion to ask for `ffmpeg`.
pub open spec fn never_runs(
    input: Seq<char>,
    output: Seq<char>,
    ext: Option<Seq<char>>,
    options: ConvertOptions,
    r: Seq<Reply>,
) -> bool {
    forall|k: int|
        0 <= k <= r.len() ==> !(convert_session(input, output, ext, options, #[trigger] r.take(k)) is Perform
            && convert_session(input, output, ext, options, r.take(k))->Perform_0 is RunFfmpeg)
}

/// A conversion that succeeded leaves an output that a later conversion
/// without `overwrite` keeps: the first conversion asked whether the output
/// is a file and then whether it is valid audio, and both were answered
/// yes; a second conversion without `overwrite`, answered as the first one
/// was (input a file, input valid audio, output a file, output valid audio),
/// succeeds, and at no point asks for `ffmpeg` to run.
pub proof fn law_convert_success_then_kept(
    input: Seq<char>,
    output: Seq<char>,
    ext: Option<Seq<char>>,
    first: ConvertOptions,
    second: ConvertOptions,
    r: Seq<Reply>,
)
    requires
        convert_session(input, output, ext, first, r) matches StepView::Finish(Ok(_)),
        !second.overwrite,
    ensures
        exists|i: int|
            2 <= i && i + 1 < r.len() && convert_session(input, output, ext, first, #[trigger] r.take(i))
                == StepView::<()>::Perform(RequestView::IsFile(output)) && yes(r[i])
                && convert_session(input, output, ext, first, r.take(i + 1)) == StepView::<()>::Perform(
                RequestView::IsValidAudio(output),
            ) && yes(r[i + 1]) && convert_session(
                input,
                output,
                ext,
                second,
                seq![r[0], r[1], r[i], r[i + 1]],
            ) == StepView::<()>::Finish(Ok(())) && never_runs(
                input,
                output,
                ext,
                second,
                seq![r[0], r[1], r[i], r[i + 1]],
            ),
{
    assert(r.len() >= 2);
    let i: int = if first.overwrite {
        3
    } else if !yes(r[2]) {
        4
    } else if yes(r[3]) {
        2
    } else {
        5
    };
    // The run comes right before the output checks, except when the
    // existing output was kept.
    if i != 2 {
        let t = r.skip(i - 1);
        if t.len() < 3 {
            assert(t.skip(1).len() < 2);
        }
        assert(t[0] == r[i - 1]);
        assert(t.skip(1)[0] == r[i]);
        assert(t.skip(1)[1] == r[i + 1]);
    }
    assert(i + 1 < r.len());
    let p0 = r.take(i);
    let p1 = r.take(i + 1);
    assert forall|j: int| 0 <= j < i implies #[trigger] p0[j] == r[j] && p1[j] == r[j] by {}
    assert(p1[i] == r[i]);
    if i != 2 {
        assert(p0.skip(i - 1) =~= seq![r[i - 1]]);
        assert(p1.skip(i - 1) =~= seq![r[i - 1], r[i]]);
        assert(p0.skip(i - 1).skip(1) =~= seq![]);
        assert(p1.skip(i - 1).skip(1) =~= seq![r[i]]);
    }
    let q = seq![r[0], r[1], r[i], r[i + 1]];
    law_convert_keeps_valid_output(input, output, ext, second, q);
    assert(q.take(4) =~= q);
    assert(2 <= i && i + 1 < r.len() && convert_session(input, output, ext, first, r.take(i))
        == StepView::<()>::Perform(RequestView::IsFile(output)) && yes(r[i])
        && convert_session(input, output, ext, first, r.take(i + 1)) == StepView::<()>::Perform(
        RequestView::IsValidAudio(output),
    ) && yes(r[i + 1]));
}
/// The one `ffmpeg` run of a conversion re-encodes exactly as asked: after
/// the common options it reads `input`, then sets the sample rate to
/// `options.sample_rate` and the channel count to `options.channels`, names
/// the codec `options.encoding` only for a WAV output that has one, and
/// writes `output`.
pub proof fn law_convert_encodes_as_asked(
    input: Seq<char>,
    output: Seq<char>,
    ext: Option<Seq<char>>,
    options: ConvertOptions,
    r: Seq<Reply>,
    a: Seq<Seq<char>>,
)
    requires
        convert_session(input, output, ext, options, r) == StepView::<()>::Perform(
            RequestView::RunFfmpeg(a),
        ),
    ensures
        a.len() == (if is_wav_extension(ext) && options.encoding is Some {
            12int
        } else {
            10int
        }) + 1,
        a[0] == "-y"@ && a[1] == "-hide_banner"@ && a[2] == "-loglevel"@ && a[3] == "error"@,
        a[4] == "-i"@ && a[5] == input,
        a[6] == "-ar"@ && a[7] == decimal(options.sample_rate as nat),
        a[8] == "-ac"@ && a[9] == decimal(options.channels as nat),
        is_wav_extension(ext) && options.encoding is Some ==> a[10] == "-acodec"@ && a[11]
            == options.encoding.unwrap()@,
        a[a.len() - 1] == output,
{
    let args = convert_arguments(
        input,
        output,
        is_wav_extension(ext),
        options.sample_rate,
        options.channels,
        encoding_of(options),
    );
    let k: int = if options.overwrite {
        2
    } else if !yes(r[2]) {
        3
    } else {
        4
    };
    assert(produce(args, output, "conversion"@, r.skip(k)) == StepView::<()>::Perform(
        RequestView::RunFfmpeg(a),
    ));
    assert(r.skip(k).len() == 0);
    assert(a == ffmpeg_command(args));
}
} // verus!
