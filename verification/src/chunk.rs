//! Cutting a `[start, end)` slice out of an audio file.

use vstd::prelude::*;
use crate::error::{AudioHelperError, ErrorView};
use crate::session::{
    done_error, duration_of, duration_reply, is_yes, produce, produce_step, yes, Reply, Request, RequestView,
    Step, StepView,
};
use crate::text::{push_arg, push_owned_arg, seconds_string, seconds_text};

verus! {

/// A range that lies inside a file of `duration` microseconds: it starts at
/// or after zero and before the end of the file, is not empty, and ends no
/// later than the file.
pub open spec fn range_fits(start: Option<i128>, end: Option<i128>, duration: u64) -> bool {
    match (start, end) {
        (Some(s), Some(e)) => 0 <= s && s < duration && e > s && e <= duration,
        _ => false,
    }
}

/// The `ffmpeg` arguments that copy `[start, end)` of `input` into
/// `output`: seek to `start`, then keep `end - start` seconds.
pub open spec fn chunk_arguments(input: Seq<char>, start: nat, end: nat, output: Seq<char>) -> Seq<Seq<char>> {
    seq![
        "-ss"@,
        seconds_text(start),
        "-i"@,
        input,
        "-t"@,
        seconds_text((end - start) as nat),
        output,
    ]
}

/// Extraction of `[start, end)` of `input` into `output`, given the answers
/// `r` so far: the input must be a file and valid audio, the range must lie
/// inside its duration, then `ffmpeg` runs and its output is checked.
pub open spec fn chunk_session(
    input: Seq<char>,
    start: Option<i128>,
    end: Option<i128>,
    output: Seq<char>,
    r: Seq<Reply>,
) -> StepView<()> {
    if r.len() == 0 {
        StepView::Perform(RequestView::IsFile(input))
    } else if !yes(r[0]) {
        StepView::Finish(Err(ErrorView::FileNotFound(input)))
    } else if r.len() == 1 {
        StepView::Perform(RequestView::IsValidAudio(input))
    } else if !yes(r[1]) {
        StepView::Finish(Err(ErrorView::InvalidAudioFile(input)))
    } else if r.len() == 2 {
        StepView::Perform(RequestView::AudioDuration(input))
    } else {
        match duration_reply(r[2]) {
            Err(e) => StepView::Finish(Err(e)),
            Ok(d) => if !range_fits(start, end, d) {
                StepView::Finish(
                    Err(ErrorView::InvalidTimeRange { start: start, end: end, duration: d }),
                )
            } else {
                produce(
                    chunk_arguments(input, start.unwrap() as nat, end.unwrap() as nat, output),
                    output,
                    "chunk extraction"@,
                    r.skip(3),
                )
            },
        }
    }
}

/// Builds the `ffmpeg` arguments of an extraction.
pub fn chunk_args(input: &str, start: u64, end: u64, output: &str) -> (args: Vec<String>)
    requires
        start < end,
    ensures
        args.deep_view() == chunk_arguments(input@, start as nat, end as nat, output@),
{
    let mut args: Vec<String> = Vec::new();
    push_arg(&mut args, "-ss");
    push_owned_arg(&mut args, seconds_string(start));
    push_arg(&mut args, "-i");
    push_arg(&mut args, input);
    push_arg(&mut args, "-t");
    push_owned_arg(&mut args, seconds_string(end - start));
    push_arg(&mut args, output);
    assert(args.deep_view() =~= chunk_arguments(input@, start as nat, end as nat, output@));
    args
}

/// The next step of extracting the `[start, end)` slice of `input` (in
/// microseconds) into `output`.
pub fn extract_chunk(
    input: &str,
    start: Option<i128>,
    end: Option<i128>,
    output: &str,
    replies: &[Reply],
) -> (step: Step<()>)
    ensures
        step@ == chunk_session(input@, start, end, output@, replies@),
{
    proof {
        assert(replies@.skip(0) =~= replies@);
    }
    extract_chunk_from(input, start, end, output, replies, 0)
}

pub(crate) fn extract_chunk_from(
    input: &str,
    start: Option<i128>,
    end: Option<i128>,
    output: &str,
    replies: &[Reply],
    at: usize,
) -> (step: Step<()>)
    requires
        at <= replies@.len(),
    ensures
        step@ == chunk_session(input@, start, end, output@, replies@.skip(at as int)),
{
    let ghost r = replies@.skip(at as int);
    let n = replies.len();
    if at == n {
        return Step::Perform(Request::IsFile(String::from_str(input)));
    }
    assert(r[0] == replies@[at as int]);
    if !is_yes(&replies[at]) {
        return Step::Finish(Err(AudioHelperError::FileNotFound(String::from_str(input))));
    }
    if at + 1 == n {
        return Step::Perform(Request::IsValidAudio(String::from_str(input)));
    }
    assert(r[1] == replies@[at + 1]);
    if !is_yes(&replies[at + 1]) {
        return Step::Finish(Err(AudioHelperError::InvalidAudioFile(String::from_str(input))));
    }
    if at + 2 == n {
        return Step::Perform(Request::AudioDuration(String::from_str(input)));
    }
    assert(r[2] == replies@[at + 2]);
    let d = match duration_of(&replies[at + 2]) {
        Err(e) => return Step::Finish(Err(e)),
        Ok(d) => d,
    };
    let fits = match (start, end) {
        (Some(s), Some(e)) => 0 <= s && s < d as i128 && e > s && e <= d as i128,
        _ => false,
    };
    if !fits {
        return Step::Finish(Err(AudioHelperError::InvalidTimeRange { start, end, duration: d }));
    }
    let s = start.unwrap() as u64;
    let e = end.unwrap() as u64;
    let args = chunk_args(input, s, e, output);
    assert(r.skip(3) =~= replies@.skip(at + 3));
    produce_step(args, output, "chunk extraction", replies, at + 3)
}


/// `ffmpeg` is only asked to cut once the input was found to be a valid
/// audio file and the range to lie inside the duration it reported, and then
/// it seeks to `start` and keeps `end - start`.
pub proof fn law_chunk_runs_on_valid_range(
    input: Seq<char>,
    start: Option<i128>,
    end: Option<i128>,
    output: Seq<char>,
    r: Seq<Reply>,
)
    requires
        chunk_session(input, start, end, output, r) matches StepView::Perform(RequestView::RunFfmpeg(_)),
    ensures
        r.len() == 3,
        yes(r[0]),
        yes(r[1]),
        duration_reply(r[2]) is Ok,
        range_fits(start, end, duration_reply(r[2])->Ok_0),
        chunk_session(input, start, end, output, r) == StepView::<()>::Perform(
            RequestView::RunFfmpeg(
                crate::session::ffmpeg_command(
                    chunk_arguments(input, start.unwrap() as nat, end.unwrap() as nat, output),
                ),
            ),
        ),
{
    if r.len() > 3 {
        let t = r.skip(3);
        assert(t.len() > 0);
    }
}

/// An extraction only succeeds once `ffmpeg` reported success and the output
/// was then found to be a file and a valid audio file: six answers, the
/// fifth and sixth of which answer whether the output is a file and valid
/// audio.
pub proof fn law_chunk_success_confirms_output(
    input: Seq<char>,
    start: Option<i128>,
    end: Option<i128>,
    output: Seq<char>,
    r: Seq<Reply>,
)
    requires
        chunk_session(input, start, end, output, r) matches StepView::Finish(Ok(_)),
    ensures
        r.len() >= 6,
        done_error(r[3]) is None,
        chunk_session(input, start, end, output, r.take(4)) == StepView::<()>::Perform(RequestView::IsFile(output)),
        yes(r[4]),
        chunk_session(input, start, end, output, r.take(5)) == StepView::<()>::Perform(
            RequestView::IsValidAudio(output),
        ),
        yes(r[5]),
{
    assert(r.len() >= 3);
    let t = r.skip(3);
    assert(t.len() >= 3) by {
        if t.len() < 3 {
            assert(t.skip(1).len() < 2);
        }
    }
    assert(t[0] == r[3]);
    assert(t.skip(1)[0] == r[4]);
    assert(t.skip(1)[1] == r[5]);
    let r4 = r.take(4);
    let r5 = r.take(5);
    assert(r4[0] == r[0] && r4[1] == r[1] && r4[2] == r[2] && r4[3] == r[3]);
    assert(r5[0] == r[0] && r5[1] == r[1] && r5[2] == r[2] && r5[3] == r[3] && r5[4] == r[4]);
    assert(r4.skip(3)[0] == r[3]);
    assert(r4.skip(3).skip(1).len() == 0);
    assert(r5.skip(3)[0] == r[3]);
    assert(r5.skip(3).skip(1)[0] == r[4]);
    assert(r5.skip(3).skip(1).len() == 1);
}
} // verus!
