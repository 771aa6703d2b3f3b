//! Writing a silent audio file of a given duration.

use vstd::prelude::*;
use crate::convert::{convert_from, convert_session, is_wav_extension, wav_extension, ConvertOptions};
use crate::error::{AudioHelperError, ErrorView};
use crate::session::{
    done_error, failure_of, is_yes, no_output_message, yes, Reply, Request, RequestView, Step,
    StepView,
};

verus! {

/// The number of samples in `duration` microseconds at `sample_rate`,
/// rounded to the nearest whole sample (halves away from zero) and capped at
/// `usize::MAX`. A duration that is not a number holds no sample.
pub open spec fn sample_count(duration: Option<i128>, sample_rate: u32) -> usize {
    match duration {
        Some(d) => if d <= 0 {
            0
        } else {
            let x = (d * sample_rate + 500_000) / 1_000_000;
            if x > usize::MAX {
                usize::MAX
            } else {
                x as usize
            }
        },
        None => 0,
    }
}

/// Computes `sample_count`.
pub fn samples_for(duration: Option<i128>, sample_rate: u32) -> (n: usize)
    ensures
        n == sample_count(duration, sample_rate),
{
    let d = match duration {
        Some(d) => d,
        None => return 0,
    };
    if d <= 0 || sample_rate == 0 {
        return 0;
    }
    let big: i128 = 0x8000_0000_0000_0000_0000_0000;
    if d >= big {
        assert((d * sample_rate + 500_000) / 1_000_000 > usize::MAX) by (nonlinear_arith)
            requires
                d >= 0x8000_0000_0000_0000_0000_0000,
                sample_rate >= 1,
                usize::MAX <= 0xffff_ffff_ffff_ffff,
        ;
        return usize::MAX;
    }
    let sr = sample_rate as u128;
    let du = d as u128;
    assert(du * sr < 0x8000_0000_0000_0000_0000_0000 * 0x1_0000_0000) by (nonlinear_arith)
        requires
            du < 0x8000_0000_0000_0000_0000_0000,
            sr < 0x1_0000_0000,
    ;
    let x = (du * sr + 500_000) / 1_000_000;
    if x > usize::MAX as u128 {
        usize::MAX
    } else {
        x as usize
    }
}

/// The conversion that turns the temporary WAV into the requested
/// container: mono at the requested rate, the container's own codec.
pub open spec fn silence_convert_options(sample_rate: u32) -> ConvertOptions {
    ConvertOptions { sample_rate: sample_rate, channels: 1, encoding: None, overwrite: true }
}

/// The path a `TempPath` reply carries; a reply of another kind is a
/// failure.
pub open spec fn temp_reply(r: Reply) -> Result<Seq<char>, ErrorView> {
    match r {
        Reply::TempPath(Ok(p)) => Ok(p@),
        Reply::TempPath(Err(e)) => Err(e@),
        _ => Err(ErrorView::UnexpectedReply),
    }
}

/// The level a `Silence` reply carries; a reply of another kind is a
/// failure.
pub open spec fn silence_reply(r: Reply) -> Result<(bool, Seq<char>), ErrorView> {
    match r {
        Reply::Silence(Ok(l)) => Ok((l.silent, l.level@)),
        Reply::Silence(Err(e)) => Err(e@),
        _ => Err(ErrorView::UnexpectedReply),
    }
}

/// The error for generated audio that is not silent.
pub open spec fn not_silent_message(output: Seq<char>, level: Seq<char>) -> Seq<char> {
    "generated silence at "@ + output + " is not actually silent (sum(|x|) = "@ + level + ")"@
}

/// Checks that `output` is a valid audio file, then that it decodes to
/// nothing but zero samples.
pub open spec fn confirm_silence(output: Seq<char>, r: Seq<Reply>) -> StepView<()> {
    let what = "silence generation"@;
    if r.len() == 0 {
        StepView::Perform(RequestView::IsFile(output))
    } else if !yes(r[0]) {
        StepView::Finish(Err(ErrorView::Ffmpeg(no_output_message(what, output))))
    } else if r.len() == 1 {
        StepView::Perform(RequestView::IsValidAudio(output))
    } else if !yes(r[1]) {
        StepView::Finish(Err(ErrorView::Ffmpeg(no_output_message(what, output))))
    } else if r.len() == 2 {
        StepView::Perform(RequestView::CheckSilence(output))
    } else {
        match silence_reply(r[2]) {
            Err(e) => StepView::Finish(Err(e)),
            Ok((silent, level)) => if silent {
                StepView::Finish(Ok(()))
            } else {
                StepView::Finish(Err(ErrorView::Ffmpeg(not_silent_message(output, level))))
            },
        }
    }
}

/// How many answers a conversion that overwrites its output takes before it
/// finishes, given its answers `q`: it stops at the first that fails.
pub open spec fn converted_after(q: Seq<Reply>) -> int {
    if !yes(q[0]) {
        1
    } else if !yes(q[1]) {
        2
    } else if done_error(q[2]) is Some {
        3
    } else if !yes(q[3]) {
        4
    } else {
        5
    }
}

fn conversion_length(replies: &[Reply], at: usize) -> (k: usize)
    requires
        at + converted_after(replies@.skip(at as int)) <= replies@.len(),
    ensures
        k == converted_after(replies@.skip(at as int)),
{
    let ghost q = replies@.skip(at as int);
    assert(q[0] == replies@[at as int]);
    if !is_yes(&replies[at]) {
        return 1;
    }
    assert(q[1] == replies@[at + 1]);
    if !is_yes(&replies[at + 1]) {
        return 2;
    }
    assert(q[2] == replies@[at + 2]);
    if failure_of(&replies[at + 2]).is_some() {
        return 3;
    }
    assert(q[3] == replies@[at + 3]);
    if !is_yes(&replies[at + 3]) {
        return 4;
    }
    5
}

/// Writing `duration` microseconds of mono silence at `sample_rate` to
/// `output`, given the answers `r` so far: the duration must be a number and
/// strictly positive; a WAV output is written directly, any other container
/// is converted from a temporary WAV, which is removed once it was written
/// and converted, or once either failed; then the output must be valid audio
/// that is truly silent.
pub open spec fn silence_session(
    duration: Option<i128>,
    output: Seq<char>,
    output_extension: Option<Seq<char>>,
    sample_rate: u32,
    r: Seq<Reply>,
) -> StepView<()> {
    let n = sample_count(duration, sample_rate);
    if !(duration matches Some(d) && d > 0) {
        StepView::Finish(Err(ErrorView::InvalidDuration(duration)))
    } else if is_wav_extension(output_extension) {
        if r.len() == 0 {
            StepView::Perform(
                RequestView::WriteSilentWav { path: output, sample_rate: sample_rate, samples: n },
            )
        } else if done_error(r[0]) is Some {
            StepView::Finish(Err(done_error(r[0]).unwrap()))
        } else {
            confirm_silence(output, r.skip(1))
        }
    } else if r.len() == 0 {
        StepView::Perform(RequestView::CreateTempWav)
    } else {
        match temp_reply(r[0]) {
            Err(e) => StepView::Finish(Err(e)),
            Ok(tmp) => if r.len() == 1 {
                StepView::Perform(
                    RequestView::WriteSilentWav { path: tmp, sample_rate: sample_rate, samples: n },
                )
            } else if done_error(r[1]) is Some {
                if r.len() == 2 {
                    StepView::Perform(RequestView::RemoveTemp(tmp))
                } else {
                    StepView::Finish(Err(done_error(r[1]).unwrap()))
                }
            } else {
                match convert_session(
                    tmp,
                    output,
                    output_extension,
                    silence_convert_options(sample_rate),
                    r.skip(2),
                ) {
                    StepView::Finish(result) => {
                        let k = 2 + converted_after(r.skip(2));
                        if r.len() == k {
                            StepView::Perform(RequestView::RemoveTemp(tmp))
                        } else {
                            match result {
                                Ok(_) => confirm_silence(output, r.skip(k + 1)),
                                Err(e) => StepView::Finish(Err(e)),
                            }
                        }
                    },
                    other => other,
                }
            },
        }
    }
}

fn confirm_silence_step(output: &str, replies: &[Reply], at: usize) -> (s: Step<()>)
    requires
        at <= replies@.len(),
    ensures
        s@ == confirm_silence(output@, replies@.skip(at as int)),
{
    let ghost r = replies@.skip(at as int);
    let n = replies.len();
    if at == n {
        return Step::Perform(Request::IsFile(String::from_str(output)));
    }
    assert(r[0] == replies@[at as int]);
    if !is_yes(&replies[at]) || (at + 1 < n && !is_yes(&replies[at + 1])) {
        if at + 1 < n {
            assert(r[1] == replies@[at + 1]);
        }
        let mut message = String::from_str("silence generation");
        message.append(" produced no valid audio file at ");
        message.append(output);
        return Step::Finish(Err(AudioHelperError::Ffmpeg(message)));
    }
    if at + 1 == n {
        return Step::Perform(Request::IsValidAudio(String::from_str(output)));
    }
    assert(r[1] == replies@[at + 1]);
    if at + 2 == n {
        return Step::Perform(Request::CheckSilence(String::from_str(output)));
    }
    assert(r[2] == replies@[at + 2]);
    match &replies[at + 2] {
        Reply::Silence(Err(e)) => Step::Finish(Err(e.duplicate())),
        Reply::Silence(Ok(level)) => {
            if level.silent {
                Step::Finish(Ok(()))
            } else {
                let mut message = String::from_str("generated silence at ");
                message.append(output);
                message.append(" is not actually silent (sum(|x|) = ");
                message.append(level.level.as_str());
                message.append(")");
                Step::Finish(Err(AudioHelperError::Ffmpeg(message)))
            }
        },
        _ => Step::Finish(Err(AudioHelperError::UnexpectedReply)),
    }
}

proof fn lemma_convert_finish_len(
    input: Seq<char>,
    output: Seq<char>,
    ext: Option<Seq<char>>,
    options: ConvertOptions,
    r: Seq<Reply>,
)
    requires
        options.overwrite,
        convert_session(input, output, ext, options, r) is Finish,
    ensures
        r.len() >= converted_after(r),
        (convert_session(input, output, ext, options, r) matches StepView::Finish(Ok(_)))
            ==> converted_after(r) == 5,
{
    assert(r.len() >= 1);
    if yes(r[0]) {
        assert(r.len() >= 2);
        if yes(r[1]) {
            let t = r.skip(2);
            assert(t.len() >= 1);
            assert(t[0] == r[2]);
            if done_error(r[2]) is None {
                let u = t.skip(1);
                assert(u.len() >= 1);
                assert(u[0] == r[3]);
                if yes(r[3]) {
                    assert(u.len() >= 2);
                    assert(u[1] == r[4]);
                }
            }
        }
    }
}

/// The next step of writing `duration` microseconds (`None` for a duration
/// that is not a number) of mono silence at `sample_rate` to `output`, whose
/// extension is `output_extension`.
pub fn generate_silence(
    duration: Option<i128>,
    output: &str,
    output_extension: Option<&str>,
    sample_rate: u32,
    replies: &[Reply],
) -> (step: Step<()>)
    ensures
        step@ == silence_session(
            duration,
            output@,
            match output_extension {
                Some(e) => Some(e@),
                None => None,
            },
            sample_rate,
            replies@,
        ),
{
    match duration {
        Some(d) if d > 0 => {},
        _ => return Step::Finish(Err(AudioHelperError::InvalidDuration(duration))),
    }
    let samples = samples_for(duration, sample_rate);
    let n = replies.len();
    if wav_extension(output_extension) {
        if n == 0 {
            return Step::Perform(
                Request::WriteSilentWav { path: String::from_str(output), sample_rate, samples },
            );
        }
        if let Some(e) = failure_of(&replies[0]) {
            return Step::Finish(Err(e));
        }
        return confirm_silence_step(output, replies, 1);
    }
    if n == 0 {
        return Step::Perform(Request::CreateTempWav);
    }
    let tmp = match &replies[0] {
        Reply::TempPath(Ok(p)) => p.clone(),
        Reply::TempPath(Err(e)) => return Step::Finish(Err(e.duplicate())),
        _ => return Step::Finish(Err(AudioHelperError::UnexpectedReply)),
    };
    if n == 1 {
        return Step::Perform(Request::WriteSilentWav { path: tmp, sample_rate, samples });
    }
    if let Some(e) = failure_of(&replies[1]) {
        if n == 2 {
            return Step::Perform(Request::RemoveTemp(tmp));
        }
        return Step::Finish(Err(e));
    }
    let options = ConvertOptions { sample_rate, channels: 1, encoding: None, overwrite: true };
    let converted = convert_from(tmp.as_str(), output, output_extension, &options, replies, 2);
    let result = match converted {
        Step::Finish(result) => result,
        other => return other,
    };
    proof {
        lemma_convert_finish_len(
            tmp@,
            output@,
            match output_extension {
                Some(e) => Some(e@),
                None => None,
            },
            options,
            replies@.skip(2),
        );
    }
    let k = 2 + conversion_length(replies, 2);
    if n == k {
        return Step::Perform(Request::RemoveTemp(tmp));
    }
    match result {
        Err(e) => Step::Finish(Err(e)),
        Ok(()) => confirm_silence_step(output, replies, k + 1),
    }
}


/// Generated silence is only reported written once the output was decoded
/// and found to hold nothing but zero samples: the session asked to check
/// the output's silence and the answer was "silent".
pub proof fn law_silence_is_checked(
    duration: Option<i128>,
    output: Seq<char>,
    output_extension: Option<Seq<char>>,
    sample_rate: u32,
    r: Seq<Reply>,
)
    requires
        silence_session(duration, output, output_extension, sample_rate, r) matches StepView::Finish(
            Ok(_),
        ),
    ensures
        exists|k: int|
            0 <= k < r.len() && silence_session(
                duration,
                output,
                output_extension,
                sample_rate,
                #[trigger] r.take(k),
            ) == StepView::<()>::Perform(RequestView::CheckSilence(output)) && silence_reply(r[k])
                matches Ok((true, _)),
{
    let k: int = if is_wav_extension(output_extension) {
        3
    } else {
        10
    };
    let start: int = k - 2;
    if !is_wav_extension(output_extension) {
        let tmp = temp_reply(r[0])->Ok_0;
        let q = r.skip(2);
        lemma_convert_finish_len(tmp, output, output_extension, silence_convert_options(sample_rate), q);
        assert(converted_after(q) == 5);
    }
    let t = r.skip(start);
    assert(t.len() >= 3);
    assert(t[0] == r[start] && t[1] == r[start + 1] && t[2] == r[k]);
    let p = r.take(k);
    assert(p.skip(start) =~= seq![r[start], r[start + 1]]);
    if is_wav_extension(output_extension) {
        assert(p[0] == r[0]);
        assert(p.skip(1) =~= seq![r[1], r[2]]);
    } else {
        assert(p[0] == r[0] && p[1] == r[1]);
        let tmp = temp_reply(r[0])->Ok_0;
        let q = r.skip(2);
        let qp = p.skip(2);
        assert(qp =~= q.take(8));
        assert(qp[0] == q[0] && qp[1] == q[1] && qp[2] == q[2] && qp[3] == q[3] && qp[4] == q[4]);
        assert(qp.skip(2)[0] == q.skip(2)[0]);
        assert(qp.skip(2).skip(1)[0] == q.skip(2).skip(1)[0]);
        assert(qp.skip(2).skip(1)[1] == q.skip(2).skip(1)[1]);
        let c = convert_session(tmp, output, output_extension, silence_convert_options(sample_rate), q);
        let cp = convert_session(tmp, output, output_extension, silence_convert_options(sample_rate), qp);
        assert(cp == c);
        assert(converted_after(qp) == converted_after(q));
    }
}
/// Every silent WAV that writing silence asks for, the output itself or the
/// temporary one, is written at the requested sample rate and holds the
/// requested duration to the nearest sample: `samples` whole samples at
/// `sample_rate` lie within half a sample of `duration` microseconds (unless
/// that count passes `usize::MAX`, which it is then capped at). A WAV output
/// is written in place; any other is first written to the temporary file.
pub proof fn law_silence_written_at_requested_rate_and_length(
    duration: Option<i128>,
    output: Seq<char>,
    output_extension: Option<Seq<char>>,
    sample_rate: u32,
    r: Seq<Reply>,
    path: Seq<char>,
    rate: u32,
    samples: usize,
)
    requires
        silence_session(duration, output, output_extension, sample_rate, r) == StepView::<()>::Perform(
            RequestView::WriteSilentWav { path: path, sample_rate: rate, samples: samples },
        ),
    ensures
        rate == sample_rate,
        duration matches Some(d) && d > 0 && samples * 1_000_000 <= d * sample_rate + 500_000 && (
        samples == usize::MAX || d * sample_rate + 500_000 < (samples + 1) * 1_000_000),
        is_wav_extension(output_extension) ==> path == output && r.len() == 0,
        !is_wav_extension(output_extension) ==> r.len() == 1 && temp_reply(r[0]) == Ok::<
            Seq<char>,
            ErrorView,
        >(path),
{
    let d = duration->Some_0;
    assert(d > 0);
    let x = (d * sample_rate + 500_000) / 1_000_000;
    assert(x * 1_000_000 <= d * sample_rate + 500_000 < (x + 1) * 1_000_000);
    if !is_wav_extension(output_extension) {
        assert(r.len() >= 1);
        if r.len() > 1 {
            let tmp = temp_reply(r[0])->Ok_0;
            if done_error(r[1]) is None {
                let q = r.skip(2);
                let c = convert_session(
                    tmp,
                    output,
                    output_extension,
                    silence_convert_options(sample_rate),
                    q,
                );
                if c is Finish {
                    let k = 2 + converted_after(q);
                    if r.len() != k {
                        let res = c->Finish_0;
                        if res is Ok {
                            assert(!(confirm_silence(output, r.skip(k + 1)) is Perform && confirm_silence(
                                output,
                                r.skip(k + 1),
                            )->Perform_0 is WriteSilentWav));
                        }
                    }
                } else {
                    assert(!(c->Perform_0 is WriteSilentWav));
                }
            }
        }
    } else {
        if r.len() > 0 {
            assert(!(confirm_silence(output, r.skip(1)) is Perform && confirm_silence(
                output,
                r.skip(1),
            )->Perform_0 is WriteSilentWav));
        }
    }
}
} // verus!
