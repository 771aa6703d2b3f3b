//! Cutting an audio file into fixed-length chunks.

use vstd::prelude::*;
use crate::chunk::{chunk_arguments, chunk_session, extract_chunk_from};
use crate::error::{AudioHelperError, ErrorView};
use crate::session::{
    done_error, duration_of, duration_reply, failure_of, ffmpeg_command, is_yes, yes, Reply, Request, RequestView,
    Step, StepView,
};
use crate::text::{decimal, join_path, joined_path, strip_leading_dots, u64_text, without_leading_dots};

verus! {

/// One second, in microseconds.
pub const ONE_SECOND_US: u64 = 1_000_000;

/// The end of the chunk that starts at `start`: `step` later, but never past
/// the end of the file.
pub open spec fn chunk_end(start: nat, step: nat, duration: nat) -> nat {
    if start + step >= duration {
        duration
    } else {
        start + step
    }
}

/// The chunks from `start` on, the first of them having number `index`:
/// consecutive `[start, end)` ranges of `step` microseconds until the end of
/// the file. A trailing remainder (a last piece shorter than `step`) that is
/// also shorter than one second is dropped, unless it would be the first
/// chunk.
pub open spec fn plan_from(start: nat, index: nat, step: nat, duration: nat) -> Seq<(nat, nat)>
    decreases duration - start,
{
    if start >= duration || step == 0 {
        seq![]
    } else {
        let end = chunk_end(start, step, duration);
        if index > 0 && start + step > duration && end - start < ONE_SECOND_US {
            seq![]
        } else {
            seq![(start, end)] + plan_from(end, index + 1, step, duration)
        }
    }
}

/// The chunk length for a requested `chunk` (microseconds), capped at the
/// file's duration. `split_regularly` refuses a length that is not a
/// positive number before it plans.
pub open spec fn chunk_step(chunk: Option<i128>, duration: nat) -> nat {
    match chunk {
        Some(c) => if c <= 0 {
            0
        } else if c >= duration {
            duration
        } else {
            c as nat
        },
        None => duration,
    }
}

/// The chunks that `split_regularly` cuts from a file of `duration`
/// microseconds.
pub open spec fn split_plan(duration: nat, chunk: Option<i128>) -> Seq<(nat, nat)> {
    plan_from(0, 0, chunk_step(chunk, duration), duration)
}

/// A plan as mathematical ranges.
pub open spec fn ranges_of(plan: Seq<(u64, u64)>) -> Seq<(nat, nat)> {
    plan.map_values(|p: (u64, u64)| (p.0 as nat, p.1 as nat))
}

/// The `[start, end)` ranges (microseconds) of the chunks of a file of
/// `duration` microseconds cut every `step` microseconds.
pub fn chunk_plan(duration: u64, step: u64) -> (plan: Vec<(u64, u64)>)
    ensures
        ranges_of(plan@) == plan_from(0, 0, step as nat, duration as nat),
{
    let mut plan: Vec<(u64, u64)> = Vec::new();
    if step == 0 {
        assert(ranges_of(plan@) =~= seq![]);
        return plan;
    }
    let mut start: u64 = 0;
    let mut index: u64 = 0;
    loop
        invariant
            step > 0,
            start <= duration,
            index <= start,
            index == plan@.len(),
            plan_from(0, 0, step as nat, duration as nat) == ranges_of(plan@) + plan_from(
                start as nat,
                index as nat,
                step as nat,
                duration as nat,
            ),
        decreases duration - start,
    {
        if start >= duration {
            assert(ranges_of(plan@) + plan_from(start as nat, index as nat, step as nat, duration as nat)
                =~= ranges_of(plan@));
            return plan;
        }
        let end = if step >= duration - start {
            duration
        } else {
            start + step
        };
        if index > 0 && step > duration - start && end - start < ONE_SECOND_US {
            assert(ranges_of(plan@) + plan_from(start as nat, index as nat, step as nat, duration as nat)
                =~= ranges_of(plan@));
            return plan;
        }
        let ghost before = ranges_of(plan@);
        plan.push((start, end));
        assert(ranges_of(plan@) =~= before.push((start as nat, end as nat)));
        assert(before + plan_from(start as nat, index as nat, step as nat, duration as nat) =~= before.push(
            (start as nat, end as nat),
        ) + plan_from(end as nat, (index + 1) as nat, step as nat, duration as nat));
        start = end;
        index = index + 1;
    }
}

/// The file name of chunk `index`: `<stem>_<suffix>_<index>.<ext>`.
pub open spec fn chunk_name(stem: Seq<char>, suffix: Seq<char>, index: nat, ext: Seq<char>) -> Seq<char> {
    stem + "_"@ + suffix + "_"@ + decimal(index) + "."@ + ext
}

/// The path of chunk `index` inside `dir`. A missing stem reads as
/// `audio`; the extension loses its leading dots.
pub open spec fn chunk_path(
    dir: Seq<char>,
    stem: Option<Seq<char>>,
    suffix: Seq<char>,
    index: nat,
    output_ext: Seq<char>,
) -> Seq<char> {
    let stem = match stem {
        Some(s) => s,
        None => "audio"@,
    };
    join_path(dir, chunk_name(stem, suffix, index, strip_leading_dots(output_ext)))
}

/// Builds the path of chunk `index`.
pub fn chunk_path_text(dir: &str, stem: Option<&str>, suffix: &str, index: u64, output_ext: &str) -> (p: String)
    ensures
        p@ == chunk_path(
            dir@,
            match stem {
                Some(s) => Some(s@),
                None => None,
            },
            suffix@,
            index as nat,
            output_ext@,
        ),
{
    let mut name = match stem {
        Some(s) => String::from_str(s),
        None => String::from_str("audio"),
    };
    name.append("_");
    name.append(suffix);
    name.append("_");
    let i = u64_text(index);
    name.append(i.as_str());
    name.append(".");
    let ext = without_leading_dots(output_ext);
    name.append(ext.as_str());
    joined_path(dir, name.as_str())
}

/// Cuts the planned chunks from the `k`-th on, each an extraction of its own
/// (six answers when it succeeds); the result lists every chunk's path.
pub open spec fn cut_chunks(
    input: Seq<char>,
    dir: Seq<char>,
    stem: Option<Seq<char>>,
    suffix: Seq<char>,
    output_ext: Seq<char>,
    plan: Seq<(nat, nat)>,
    k: nat,
    r: Seq<Reply>,
) -> StepView<Seq<Seq<char>>>
    decreases plan.len() - k,
{
    if k >= plan.len() {
        StepView::Finish(
            Ok(Seq::new(plan.len(), |i: int| chunk_path(dir, stem, suffix, i as nat, output_ext))),
        )
    } else {
        match chunk_session(
            input,
            Some(plan[k as int].0 as i128),
            Some(plan[k as int].1 as i128),
            chunk_path(dir, stem, suffix, k, output_ext),
            r,
        ) {
            StepView::Perform(q) => StepView::Perform(q),
            StepView::Finish(Err(e)) => StepView::Finish(Err(e)),
            StepView::Finish(Ok(_)) => cut_chunks(
                input,
                dir,
                stem,
                suffix,
                output_ext,
                plan,
                k + 1,
                r.skip(6),
            ),
        }
    }
}

/// Splitting `input` into chunks inside `dir`, given the answers `r` so
/// far: the input must be a file and valid audio, the chunk length must be
/// positive, the directory is created, the input's duration sets the plan,
/// then every chunk is extracted in turn.
pub open spec fn split_session(
    input: Seq<char>,
    dir: Seq<char>,
    chunk: Option<i128>,
    output_ext: Seq<char>,
    suffix: Seq<char>,
    stem: Option<Seq<char>>,
    r: Seq<Reply>,
) -> StepView<Seq<Seq<char>>> {
    if r.len() == 0 {
        StepView::Perform(RequestView::IsFile(input))
    } else if !yes(r[0]) {
        StepView::Finish(Err(ErrorView::FileNotFound(input)))
    } else if r.len() == 1 {
        StepView::Perform(RequestView::IsValidAudio(input))
    } else if !yes(r[1]) {
        StepView::Finish(Err(ErrorView::InvalidAudioFile(input)))
    } else if !(chunk matches Some(c) && c > 0) {
        StepView::Finish(Err(ErrorView::InvalidDuration(chunk)))
    } else if r.len() == 2 {
        StepView::Perform(RequestView::CreateDir(dir))
    } else if done_error(r[2]) is Some {
        StepView::Finish(Err(done_error(r[2]).unwrap()))
    } else if r.len() == 3 {
        StepView::Perform(RequestView::AudioDuration(input))
    } else {
        match duration_reply(r[3]) {
            Err(e) => StepView::Finish(Err(e)),
            Ok(d) => cut_chunks(
                input,
                dir,
                stem,
                suffix,
                output_ext,
                split_plan(d as nat, chunk),
                0,
                r.skip(4),
            ),
        }
    }
}

proof fn lemma_chunk_ok_len(input: Seq<char>, start: Option<i128>, end: Option<i128>, output: Seq<char>, r: Seq<Reply>)
    requires
        chunk_session(input, start, end, output, r) matches StepView::Finish(Ok(_)),
    ensures
        r.len() >= 6,
{
    assert(r.len() >= 3);
    let t = r.skip(3);
    if t.len() < 3 {
        assert(t.skip(1).len() < 2);
    }
}


/// The next step of splitting `input` into `chunk`-long pieces (microseconds;
/// `None` for a length that is not a number) with extension `output_ext`
/// inside `output_dir`, named `<stem>_<suffix>_<index>.<ext>` after the
/// input's file stem `input_stem`.
///
/// A trailing remainder shorter than one second is dropped rather than saved
/// as its own chunk, unless it is the first (and only) chunk: an input
/// shorter than one second still yields one chunk covering it in full.
pub fn split_regularly(
    input: &str,
    output_dir: &str,
    chunk: Option<i128>,
    output_ext: &str,
    suffix: &str,
    input_stem: Option<&str>,
    replies: &[Reply],
) -> (step: Step<Vec<String>>)
    ensures
        step@ == split_session(
            input@,
            output_dir@,
            chunk,
            output_ext@,
            suffix@,
            match input_stem {
                Some(s) => Some(s@),
                None => None,
            },
            replies@,
        ),
{
    let ghost stem = match input_stem {
        Some(s) => Some(s@),
        None => None,
    };
    let n = replies.len();
    if n == 0 {
        return Step::Perform(Request::IsFile(String::from_str(input)));
    }
    if !is_yes(&replies[0]) {
        return Step::Finish(Err(AudioHelperError::FileNotFound(String::from_str(input))));
    }
    if n == 1 {
        return Step::Perform(Request::IsValidAudio(String::from_str(input)));
    }
    if !is_yes(&replies[1]) {
        return Step::Finish(Err(AudioHelperError::InvalidAudioFile(String::from_str(input))));
    }
    match chunk {
        Some(c) if c > 0 => {},
        _ => return Step::Finish(Err(AudioHelperError::InvalidDuration(chunk))),
    }
    if n == 2 {
        return Step::Perform(Request::CreateDir(String::from_str(output_dir)));
    }
    if let Some(e) = failure_of(&replies[2]) {
        return Step::Finish(Err(e));
    }
    if n == 3 {
        return Step::Perform(Request::AudioDuration(String::from_str(input)));
    }
    let d = match duration_of(&replies[3]) {
        Err(e) => return Step::Finish(Err(e)),
        Ok(d) => d,
    };
    let step: u64 = match chunk {
        Some(c) => if c >= d as i128 {
            d
        } else {
            c as u64
        },
        None => d,
    };
    let plan = chunk_plan(d, step);
    let ghost ranges = split_plan(d as nat, chunk);
    assert(ranges == ranges_of(plan@));
    let mut paths: Vec<String> = Vec::new();
    let mut at: usize = 4;
    let mut k: usize = 0;
    while k < plan.len()
        invariant
            k <= plan@.len(),
            4 <= at <= n == replies@.len(),
            ranges == ranges_of(plan@),
            stem == match input_stem {
                Some(s) => Some(s@),
                None => None,
            },
            split_session(input@, output_dir@, chunk, output_ext@, suffix@, stem, replies@)
                == cut_chunks(input@, output_dir@, stem, suffix@, output_ext@, ranges, k as nat, replies@.skip(at as int)),
            paths.deep_view() == Seq::new(
                k as nat,
                |i: int| chunk_path(output_dir@, stem, suffix@, i as nat, output_ext@),
            ),
        decreases plan.len() - k,
    {
        let path = chunk_path_text(output_dir, input_stem, suffix, k as u64, output_ext);
        let (s, e) = plan[k];
        assert(ranges[k as int] == (s as nat, e as nat));
        let sub = extract_chunk_from(input, Some(s as i128), Some(e as i128), path.as_str(), replies, at);
        match sub {
            Step::Perform(q) => return Step::Perform(q),
            Step::Finish(Err(x)) => return Step::Finish(Err(x)),
            Step::Finish(Ok(())) => {},
        }
        proof {
            lemma_chunk_ok_len(input@, Some(s as i128), Some(e as i128), path@, replies@.skip(at as int));
            assert(replies@.skip(at as int).skip(6) =~= replies@.skip(at + 6));
        }
        let ghost before = paths.deep_view();
        let ghost p = path@;
        paths.push(path);
        assert(paths.deep_view() =~= before.push(p));
        assert(paths.deep_view() =~= Seq::new(
            (k + 1) as nat,
            |i: int| chunk_path(output_dir@, stem, suffix@, i as nat, output_ext@),
        ));
        at = at + 6;
        k = k + 1;
    }
    assert(paths.deep_view() =~= Seq::new(
        ranges.len(),
        |i: int| chunk_path(output_dir@, stem, suffix@, i as nat, output_ext@),
    ));
    Step::Finish(Ok(paths))
}


/// Where the chunks from `start` on end: the end of the last one, or
/// `start` when there is none.
pub open spec fn plan_end(plan: Seq<(nat, nat)>, start: nat) -> nat {
    if plan.len() == 0 {
        start
    } else {
        plan.last().1
    }
}

proof fn lemma_plan_from(start: nat, index: nat, step: nat, duration: nat)
    requires
        step > 0,
        start <= duration,
    ensures
        ({
            let p = plan_from(start, index, step, duration);
            &&& p.len() > 0 ==> p[0].0 == start
            &&& forall|i: int| 0 <= i < p.len() - 1 ==> #[trigger] p[i].1 == p[i + 1].0
            &&& forall|i: int|
                0 <= i < p.len() ==> start <= (#[trigger] p[i]).0 < p[i].1 <= duration && p[i].1
                    - p[i].0 <= step
            &&& forall|i: int| 0 <= i < p.len() - 1 ==> (#[trigger] p[i]).1 - p[i].0 == step
            &&& forall|i: int|
                0 <= i < p.len() && index + i > 0 ==> (#[trigger] p[i]).1 - p[i].0 == step
                    || p[i].1 - p[i].0 >= ONE_SECOND_US
            &&& forall|i: int|
                0 <= i < p.len() ==> (#[trigger] p[i]).1 - p[i].0 == step || p[i].1 == duration
            &&& duration - plan_end(p, start) < ONE_SECOND_US
            &&& plan_end(p, start) <= duration
        }),
    decreases duration - start,
{
    let p = plan_from(start, index, step, duration);
    if start >= duration {
    } else {
        let end = chunk_end(start, step, duration);
        if index > 0 && start + step > duration && end - start < ONE_SECOND_US {
        } else {
            let rest = plan_from(end, index + 1, step, duration);
            lemma_plan_from(end, index + 1, step, duration);
            assert(p == seq![(start, end)] + rest);
            if end == duration {
                assert(rest =~= seq![]);
            }
            assert forall|i: int| 0 <= i < p.len() - 1 implies #[trigger] p[i].1 == p[i + 1].0 by {
                if i > 0 {
                    assert(p[i] == rest[i - 1]);
                    assert(p[i + 1] == rest[i]);
                } else {
                    assert(p[1] == rest[0]);
                }
            }
            assert forall|i: int| 0 <= i < p.len() implies (#[trigger] p[i]).1 - p[i].0 == step
                || p[i].1 == duration by {
                if i > 0 {
                    assert(p[i] == rest[i - 1]);
                }
            }
            assert forall|i: int| 0 <= i < p.len() implies start <= (#[trigger] p[i]).0 < p[i].1
                <= duration && p[i].1 - p[i].0 <= step by {
                if i > 0 {
                    assert(p[i] == rest[i - 1]);
                }
            }
            assert forall|i: int| 0 <= i < p.len() - 1 implies (#[trigger] p[i]).1 - p[i].0
                == step by {
                if i > 0 {
                    assert(p[i] == rest[i - 1]);
                }
            }
            assert forall|i: int|
                0 <= i < p.len() && index + i > 0 implies (#[trigger] p[i]).1 - p[i].0 == step
                    || p[i].1 - p[i].0 >= ONE_SECOND_US by {
                if i > 0 {
                    assert(p[i] == rest[i - 1]);
                }
            }
            if rest.len() > 0 {
                assert(p.last() == rest.last());
            }
        }
    }
}

/// The chunks tile the file from its start: the first starts at zero, each
/// next one starts where the one before ends, none is empty, none lasts
/// longer than the requested chunk length, and none ends past the end of
/// the file. A file that is not empty yields at least one chunk.
pub proof fn law_split_chunks_are_consecutive(duration: nat, chunk: Option<i128>)
    requires
        chunk matches Some(c) && c > 0,
    ensures
        ({
            let p = split_plan(duration, chunk);
            &&& duration > 0 ==> p.len() > 0 && p[0].0 == 0
            &&& forall|i: int| 0 <= i < p.len() - 1 ==> #[trigger] p[i].1 == p[i + 1].0
            &&& forall|i: int|
                0 <= i < p.len() ==> (#[trigger] p[i]).0 < p[i].1 <= duration && p[i].1 - p[i].0
                    <= chunk_step(chunk, duration)
        }),
{
    let step = chunk_step(chunk, duration);
    if duration > 0 {
        lemma_plan_from(0, 0, step, duration);
    }
}

/// Chunks are cut at the requested length and only a trailing remainder
/// shorter than one second is dropped, unless it is the only chunk: every
/// chunk but the last is full length, the last is full length, at least one
/// second long, or the first; and what is left after the last chunk is
/// shorter than a second.
pub proof fn law_split_short_remainder_dropped(duration: nat, chunk: Option<i128>)
    requires
        chunk matches Some(c) && c > 0,
    ensures
        ({
            let p = split_plan(duration, chunk);
            let step = chunk_step(chunk, duration);
            &&& forall|i: int| 0 <= i < p.len() - 1 ==> (#[trigger] p[i]).1 - p[i].0 == step
            &&& forall|i: int|
                0 < i < p.len() ==> (#[trigger] p[i]).1 - p[i].0 == step || p[i].1 - p[i].0
                    >= ONE_SECOND_US
            &&& duration - plan_end(p, 0) < ONE_SECOND_US
        }),
{
    let step = chunk_step(chunk, duration);
    if duration > 0 {
        lemma_plan_from(0, 0, step, duration);
    }
}

/// A file no longer than the chunk length yields a single chunk that covers
/// it in full; in particular a file shorter than one second split into
/// chunks at least that long.
pub proof fn law_split_short_file_single_chunk(duration: nat, chunk: Option<i128>)
    requires
        duration > 0,
        chunk matches Some(c) && c >= duration,
    ensures
        split_plan(duration, chunk) == seq![(0nat, duration)],
{
    let step = chunk_step(chunk, duration);
    assert(step == duration);
    assert(plan_from(duration, 1, step, duration) =~= seq![]);
    assert(split_plan(duration, chunk) =~= seq![(0nat, duration)]);
}

/// Every chunk that `split_regularly` asks to extract lies inside the file,
/// so its extraction never fails on the range when the file's duration is
/// answered the same.
pub proof fn law_split_ranges_fit(duration: u64, chunk: Option<i128>)
    requires
        chunk matches Some(c) && c > 0,
    ensures
        forall|k: int|
            0 <= k < split_plan(duration as nat, chunk).len() ==> crate::chunk::range_fits(
                Some(#[trigger] split_plan(duration as nat, chunk)[k].0 as i128),
                Some(split_plan(duration as nat, chunk)[k].1 as i128),
                duration,
            ),
{
    law_split_chunks_are_consecutive(duration as nat, chunk);
}

proof fn lemma_chunk_starts(p: Seq<(nat, nat)>, c: nat, i: int)
    requires
        0 <= i < p.len(),
        p[0].0 == 0,
        forall|j: int| 0 <= j < p.len() - 1 ==> #[trigger] p[j].1 == p[j + 1].0,
        forall|j: int| 0 <= j < p.len() - 1 ==> (#[trigger] p[j]).1 - p[j].0 == c,
    ensures
        p[i].0 == i * c,
    decreases i,
{
    if i > 0 {
        lemma_chunk_starts(p, c, i - 1);
        assert(p[i - 1].1 == p[i].0);
        assert(p[i - 1].1 - p[i - 1].0 == c);
        assert(p[i].0 == (i - 1) * c + c);
        assert((i - 1) * c + c == i * c) by (nonlinear_arith);
    } else {
        assert(0 * c == 0) by (nonlinear_arith);
    }
}

/// A chunk length `c` shorter than the file is the length the file is cut
/// at: chunk `i` starts at `i * c`, every chunk but the last ends `c` later,
/// the first is `[0, c)`, the last ends at the end of the file or lasts `c`
/// too, and what is left after it is shorter than one second.
pub proof fn law_split_chunks_have_requested_length(duration: nat, c: i128)
    requires
        0 < c < duration,
    ensures
        ({
            let p = split_plan(duration, Some(c));
            &&& p.len() >= 1
            &&& p[0] == (0nat, c as nat)
            &&& forall|i: int| 0 <= i < p.len() ==> (#[trigger] p[i]).0 == i * c
            &&& forall|i: int| 0 <= i < p.len() - 1 ==> (#[trigger] p[i]).1 == (i + 1) * c
            &&& p[p.len() - 1].1 == duration || p[p.len() - 1].1 == p.len() * c
            &&& p[p.len() - 1].1 <= duration
            &&& duration - p[p.len() - 1].1 < ONE_SECOND_US
        }),
{
    let step = chunk_step(Some(c), duration);
    assert(step == c);
    lemma_plan_from(0, 0, step, duration);
    let p = split_plan(duration, Some(c));
    assert(chunk_end(0, step, duration) == c);
    assert(p[0] == (0nat, c as nat));
    assert forall|i: int| 0 <= i < p.len() implies (#[trigger] p[i]).0 == i * c by {
        lemma_chunk_starts(p, c as nat, i);
    }
    assert forall|i: int| 0 <= i < p.len() - 1 implies (#[trigger] p[i]).1 == (i + 1) * c by {
        lemma_chunk_starts(p, c as nat, i);
        assert(i * c + c == (i + 1) * c) by (nonlinear_arith);
    }
    let l = p.len() - 1;
    lemma_chunk_starts(p, c as nat, l);
    assert(l * c + c == p.len() * c) by (nonlinear_arith)
        requires
            l == p.len() - 1,
    ;
}
proof fn lemma_cut_chunks_outcome(
    input: Seq<char>,
    dir: Seq<char>,
    stem: Option<Seq<char>>,
    suffix: Seq<char>,
    output_ext: Seq<char>,
    plan: Seq<(nat, nat)>,
    k: nat,
    r: Seq<Reply>,
)
    requires
        k <= plan.len(),
        forall|j: int| 0 <= j < plan.len() ==> (#[trigger] plan[j]).1 <= u64::MAX && plan[j].0 < plan[j].1,
    ensures
        cut_chunks(input, dir, stem, suffix, output_ext, plan, k, r) matches StepView::Perform(
            RequestView::RunFfmpeg(a),
        ) ==> exists|j: int|
            k <= j < plan.len() && a == ffmpeg_command(
                chunk_arguments(
                    input,
                    (#[trigger] plan[j]).0,
                    plan[j].1,
                    chunk_path(dir, stem, suffix, j as nat, output_ext),
                ),
            ),
        cut_chunks(input, dir, stem, suffix, output_ext, plan, k, r) matches StepView::Finish(Ok(paths))
            ==> paths == Seq::new(
            plan.len(),
            |i: int| chunk_path(dir, stem, suffix, i as nat, output_ext),
        ),
    decreases plan.len() - k,
{
    if k < plan.len() {
        let out = chunk_path(dir, stem, suffix, k, output_ext);
        let c = chunk_session(input, Some(plan[k as int].0 as i128), Some(plan[k as int].1 as i128), out, r);
        assert((plan[k as int].0 as i128) as nat == plan[k as int].0);
        assert((plan[k as int].1 as i128) as nat == plan[k as int].1);
        if c matches StepView::Finish(Ok(_)) {
            lemma_cut_chunks_outcome(input, dir, stem, suffix, output_ext, plan, k + 1, r.skip(6));
        }
    }
}

/// What a split cuts and returns, whatever the answers: each `ffmpeg` run
/// copies one planned chunk `[start, end)` of the input (seeking to its
/// start and keeping its length) into that chunk's own path, and a finished
/// split returns the paths of all planned chunks in order. The plan is the
/// one for the duration that was answered (see
/// [`law_split_chunks_have_requested_length`]).
pub proof fn law_split_cuts_the_planned_chunks(
    input: Seq<char>,
    dir: Seq<char>,
    chunk: Option<i128>,
    output_ext: Seq<char>,
    suffix: Seq<char>,
    stem: Option<Seq<char>>,
    r: Seq<Reply>,
)
    ensures
        split_session(input, dir, chunk, output_ext, suffix, stem, r) matches StepView::Perform(
            RequestView::RunFfmpeg(a),
        ) ==> r.len() > 4 && duration_reply(r[3]) is Ok && exists|k: int|
            0 <= k < split_plan(duration_reply(r[3])->Ok_0 as nat, chunk).len() && a == ffmpeg_command(
                chunk_arguments(
                    input,
                    (#[trigger] split_plan(duration_reply(r[3])->Ok_0 as nat, chunk)[k]).0,
                    split_plan(duration_reply(r[3])->Ok_0 as nat, chunk)[k].1,
                    chunk_path(dir, stem, suffix, k as nat, output_ext),
                ),
            ),
        split_session(input, dir, chunk, output_ext, suffix, stem, r) matches StepView::Finish(Ok(paths))
            ==> r.len() >= 4 && duration_reply(r[3]) is Ok && paths == Seq::new(
            split_plan(duration_reply(r[3])->Ok_0 as nat, chunk).len(),
            |i: int| chunk_path(dir, stem, suffix, i as nat, output_ext),
        ),
{
    let s = split_session(input, dir, chunk, output_ext, suffix, stem, r);
    if r.len() >= 4 && yes(r[0]) && yes(r[1]) && (chunk matches Some(c) && c > 0) && done_error(r[2]) is None
        && duration_reply(r[3]) is Ok {
        let d = duration_reply(r[3])->Ok_0;
        let p = split_plan(d as nat, chunk);
        law_split_chunks_are_consecutive(d as nat, chunk);
        lemma_cut_chunks_outcome(input, dir, stem, suffix, output_ext, p, 0, r.skip(4));
        if s matches StepView::Perform(RequestView::RunFfmpeg(a)) {
            assert(r.skip(4).len() > 0 ==> r.len() > 4);
            if r.len() == 4 {
                assert(cut_chunks(input, dir, stem, suffix, output_ext, p, 0, r.skip(4)) is Perform);
            }
        }
    }
}
} // verus!
