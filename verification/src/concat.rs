//! Joining audio files head to tail with `ffmpeg`'s `concat` filter, which
//! decodes every input first and so accepts mismatched codecs and containers.

use vstd::prelude::*;
use crate::error::{AudioHelperError, ErrorView};
use crate::session::{ffmpeg_command, is_yes, produce, produce_step, yes, Reply, Request, RequestView, Step, StepView};
use crate::text::{decimal, push_arg, push_owned_arg, u64_text};

verus! {

/// `[0:a][1:a]...[n-1:a]`: the audio stream of each of the first `n` inputs.
pub open spec fn stream_refs(n: nat) -> Seq<char>
    decreases n,
{
    if n == 0 {
        seq![]
    } else {
        stream_refs((n - 1) as nat) + "["@ + decimal((n - 1) as nat) + ":a]"@
    }
}

/// The filter graph that joins the audio of `n` inputs into `[out]`.
pub open spec fn concat_filter(n: nat) -> Seq<char> {
    stream_refs(n) + "concat=n="@ + decimal(n) + ":v=0:a=1[out]"@
}

/// `-i <path>` for each input, in order.
pub open spec fn input_arguments(inputs: Seq<Seq<char>>) -> Seq<Seq<char>>
    decreases inputs.len(),
{
    if inputs.len() == 0 {
        seq![]
    } else {
        input_arguments(inputs.drop_last()) + seq!["-i"@, inputs.last()]
    }
}

/// The `ffmpeg` arguments that join `inputs` into `output`.
pub open spec fn concat_arguments(inputs: Seq<Seq<char>>, output: Seq<char>) -> Seq<Seq<char>> {
    input_arguments(inputs) + seq![
        "-filter_complex"@,
        concat_filter(inputs.len()),
        "-map"@,
        "[out]"@,
        output,
    ]
}

/// Checks the inputs from the `i`-th on (each must be a file, then valid
/// audio), then runs the join.
pub open spec fn check_inputs(inputs: Seq<Seq<char>>, output: Seq<char>, i: nat, r: Seq<Reply>) -> StepView<()>
    decreases inputs.len() - i,
{
    if i >= inputs.len() {
        produce(concat_arguments(inputs, output), output, "concatenation"@, r)
    } else if r.len() == 0 {
        StepView::Perform(RequestView::IsFile(inputs[i as int]))
    } else if !yes(r[0]) {
        StepView::Finish(Err(ErrorView::FileNotFound(inputs[i as int])))
    } else if r.len() == 1 {
        StepView::Perform(RequestView::IsValidAudio(inputs[i as int]))
    } else if !yes(r[1]) {
        StepView::Finish(Err(ErrorView::InvalidAudioFile(inputs[i as int])))
    } else {
        check_inputs(inputs, output, i + 1, r.skip(2))
    }
}

/// Joining `inputs` into `output`, given the answers `r` so far: at least
/// one input is needed, every input must be a file and valid audio, then
/// `ffmpeg` runs and its output is checked.
pub open spec fn concat_session(inputs: Seq<Seq<char>>, output: Seq<char>, r: Seq<Reply>) -> StepView<()> {
    if inputs.len() == 0 {
        StepView::Finish(Err(ErrorView::EmptyInputList))
    } else {
        check_inputs(inputs, output, 0, r)
    }
}

/// Builds the `-filter_complex` graph that joins `n` inputs.
pub fn concat_filter_text(n: usize) -> (s: String)
    ensures
        s@ == concat_filter(n as nat),
{
    let mut s = String::new();
    let mut k: usize = 0;
    while k < n
        invariant
            k <= n,
            s@ == stream_refs(k as nat),
        decreases n - k,
    {
        s.append("[");
        let t = u64_text(k as u64);
        s.append(t.as_str());
        s.append(":a]");
        k = k + 1;
    }
    s.append("concat=n=");
    let t = u64_text(n as u64);
    s.append(t.as_str());
    s.append(":v=0:a=1[out]");
    s
}

/// Builds the `ffmpeg` arguments of a join.
pub fn concat_args(inputs: &Vec<String>, output: &str) -> (args: Vec<String>)
    ensures
        args.deep_view() == concat_arguments(inputs.deep_view(), output@),
{
    let ghost all = inputs.deep_view();
    let mut args: Vec<String> = Vec::new();
    let mut i: usize = 0;
    while i < inputs.len()
        invariant
            i <= inputs@.len(),
            all == inputs.deep_view(),
            args.deep_view() == input_arguments(all.take(i as int)),
        decreases inputs.len() - i,
    {
        push_arg(&mut args, "-i");
        push_arg(&mut args, inputs[i].as_str());
        assert(all.take(i + 1).drop_last() =~= all.take(i as int));
        assert(all[i as int] == inputs@[i as int]@);
        i = i + 1;
    }
    assert(all.take(inputs.len() as int) =~= all);
    push_arg(&mut args, "-filter_complex");
    push_owned_arg(&mut args, concat_filter_text(inputs.len()));
    push_arg(&mut args, "-map");
    push_arg(&mut args, "[out]");
    push_arg(&mut args, output);
    assert(args.deep_view() =~= concat_arguments(all, output@));
    args
}

/// The next step of joining `inputs`, in order, into `output`.
pub fn concat(inputs: &Vec<String>, output: &str, replies: &[Reply]) -> (step: Step<()>)
    ensures
        step@ == concat_session(inputs.deep_view(), output@, replies@),
{
    if inputs.len() == 0 {
        return Step::Finish(Err(AudioHelperError::EmptyInputList));
    }
    let ghost all = inputs.deep_view();
    let n = replies.len();
    let mut i: usize = 0;
    let mut at: usize = 0;
    assert(replies@.skip(0) =~= replies@);
    while i < inputs.len()
        invariant
            i <= inputs@.len(),
            at == 2 * i,
            at <= n == replies@.len(),
            all == inputs.deep_view(),
            all.len() > 0,
            check_inputs(all, output@, 0, replies@) == check_inputs(
                all,
                output@,
                i as nat,
                replies@.skip(at as int),
            ),
        decreases inputs.len() - i,
    {
        let ghost r = replies@.skip(at as int);
        assert(all[i as int] == inputs@[i as int]@);
        if at == n {
            return Step::Perform(Request::IsFile(inputs[i].clone()));
        }
        assert(r[0] == replies@[at as int]);
        if !is_yes(&replies[at]) {
            return Step::Finish(Err(AudioHelperError::FileNotFound(inputs[i].clone())));
        }
        if at + 1 == n {
            return Step::Perform(Request::IsValidAudio(inputs[i].clone()));
        }
        assert(r[1] == replies@[at + 1]);
        if !is_yes(&replies[at + 1]) {
            return Step::Finish(Err(AudioHelperError::InvalidAudioFile(inputs[i].clone())));
        }
        assert(r.skip(2) =~= replies@.skip(at + 2));
        i = i + 1;
        at = at + 2;
    }
    let args = concat_args(inputs, output);
    produce_step(args, output, "concatenation", replies, at)
}


proof fn lemma_check_inputs_run(inputs: Seq<Seq<char>>, output: Seq<char>, i: nat, r: Seq<Reply>)
    requires
        i <= inputs.len(),
        check_inputs(inputs, output, i, r) matches StepView::Perform(RequestView::RunFfmpeg(_)),
    ensures
        r.len() >= 2 * (inputs.len() - i),
        forall|j: int| 0 <= j < inputs.len() - i ==> yes(#[trigger] r[2 * j]) && yes(r[2 * j + 1]),
    decreases inputs.len() - i,
{
    if i < inputs.len() {
        let t = r.skip(2);
        lemma_check_inputs_run(inputs, output, i + 1, t);
        assert forall|j: int| 0 <= j < inputs.len() - i implies yes(#[trigger] r[2 * j]) && yes(
            r[2 * j + 1],
        ) by {
            if j > 0 {
                assert(r[2 * j] == t[2 * (j - 1)]);
                assert(r[2 * j + 1] == t[2 * (j - 1) + 1]);
            }
        }
    }
}

/// `ffmpeg` is only asked to join once every input, in order, was found to
/// be a file and then a valid audio file.
pub proof fn law_concat_runs_on_valid_inputs(inputs: Seq<Seq<char>>, output: Seq<char>, r: Seq<Reply>)
    requires
        concat_session(inputs, output, r) matches StepView::Perform(RequestView::RunFfmpeg(_)),
    ensures
        inputs.len() > 0,
        r.len() >= 2 * inputs.len(),
        forall|j: int| 0 <= j < inputs.len() ==> yes(#[trigger] r[2 * j]) && yes(r[2 * j + 1]),
{
    lemma_check_inputs_run(inputs, output, 0, r);
}
/// The width of the text `[0:a][1:a]...[k-1:a]`: four characters and the
/// decimal number of each of the first `k` inputs.
pub open spec fn refs_width(k: nat) -> nat
    decreases k,
{
    if k == 0 {
        0
    } else {
        refs_width((k - 1) as nat) + decimal((k - 1) as nat).len() + 4
    }
}

proof fn lemma_stream_refs(n: nat)
    ensures
        stream_refs(n).len() == refs_width(n),
        forall|k: int|
            0 <= k < n ==> #[trigger] stream_refs(n).subrange(
                refs_width(k as nat) as int,
                refs_width((k + 1) as nat) as int,
            ) == "["@ + decimal(k as nat) + ":a]"@,
    decreases n,
{
    reveal_strlit("[");
    reveal_strlit(":a]");
    if n > 0 {
        let m = (n - 1) as nat;
        lemma_stream_refs(m);
        let piece = "["@ + decimal(m) + ":a]"@;
        assert(piece.len() == decimal(m).len() + 4);
        let s = stream_refs(n);
        assert(s == stream_refs(m) + piece);
        assert forall|k: int| 0 <= k < n implies #[trigger] s.subrange(
            refs_width(k as nat) as int,
            refs_width((k + 1) as nat) as int,
        ) == "["@ + decimal(k as nat) + ":a]"@ by {
            if k < m {
                lemma_refs_width_mono((k + 1) as nat, m);
                assert(s.subrange(refs_width(k as nat) as int, refs_width((k + 1) as nat) as int)
                    =~= stream_refs(m).subrange(
                    refs_width(k as nat) as int,
                    refs_width((k + 1) as nat) as int,
                ));
            } else {
                assert(k == m);
                assert(s.subrange(refs_width(m) as int, refs_width(n) as int) =~= piece);
            }
        }
    }
}

proof fn lemma_refs_width_mono(i: nat, j: nat)
    requires
        i <= j,
    ensures
        refs_width(i) <= refs_width(j),
    decreases j,
{
    if i < j {
        lemma_refs_width_mono(i, (j - 1) as nat);
    }
}

/// The filter graph of a join names, in order, the audio stream of every
/// input, `[k:a]` for each `k < n` one after the other from the start, and
/// then joins exactly `n` streams into `[out]`, and holds nothing else.
pub proof fn law_concat_filter_names_every_input(n: nat)
    ensures
        forall|k: int|
            0 <= k < n ==> #[trigger] concat_filter(n).subrange(
                refs_width(k as nat) as int,
                refs_width((k + 1) as nat) as int,
            ) == "["@ + decimal(k as nat) + ":a]"@,
        refs_width(0) == 0,
        refs_width(n) <= concat_filter(n).len(),
        concat_filter(n).skip(refs_width(n) as int) == "concat=n="@ + decimal(n) + ":v=0:a=1[out]"@,
{
    lemma_stream_refs(n);
    let f = concat_filter(n);
    let tail = "concat=n="@ + decimal(n) + ":v=0:a=1[out]"@;
    assert(f == stream_refs(n) + tail);
    assert(f.skip(refs_width(n) as int) =~= tail);
    assert forall|k: int| 0 <= k < n implies #[trigger] f.subrange(
        refs_width(k as nat) as int,
        refs_width((k + 1) as nat) as int,
    ) == "["@ + decimal(k as nat) + ":a]"@ by {
        lemma_refs_width_mono((k + 1) as nat, n);
        assert(f.subrange(refs_width(k as nat) as int, refs_width((k + 1) as nat) as int)
            =~= stream_refs(n).subrange(refs_width(k as nat) as int, refs_width((k + 1) as nat) as int));
    }
}

proof fn lemma_input_arguments(inputs: Seq<Seq<char>>)
    ensures
        input_arguments(inputs).len() == 2 * inputs.len(),
        forall|i: int|
            0 <= i < inputs.len() ==> #[trigger] input_arguments(inputs)[2 * i] == "-i"@
                && input_arguments(inputs)[2 * i + 1] == inputs[i],
    decreases inputs.len(),
{
    if inputs.len() > 0 {
        let front = inputs.drop_last();
        lemma_input_arguments(front);
        let a = input_arguments(inputs);
        assert(a == input_arguments(front) + seq!["-i"@, inputs.last()]);
        assert forall|i: int| 0 <= i < inputs.len() implies #[trigger] a[2 * i] == "-i"@ && a[2 * i + 1]
            == inputs[i] by {
            if i < front.len() {
                assert(a[2 * i] == input_arguments(front)[2 * i]);
                assert(a[2 * i + 1] == input_arguments(front)[2 * i + 1]);
                assert(front[i] == inputs[i]);
            } else {
                assert(i == front.len());
                assert(a[2 * i] == seq!["-i"@, inputs.last()][0]);
                assert(a[2 * i + 1] == seq!["-i"@, inputs.last()][1]);
            }
        }
        assert(a == input_arguments(inputs));
        assert(forall|i: int|
            0 <= i < inputs.len() ==> #[trigger] input_arguments(inputs)[2 * i] == "-i"@
                && input_arguments(inputs)[2 * i + 1] == inputs[i]);
    }
}

/// A join reads every input, in the order given, each after its own `-i`,
/// then applies the filter graph of that many inputs and writes its `[out]`
/// to `output`.
pub proof fn law_concat_arguments_read_every_input_in_order(inputs: Seq<Seq<char>>, output: Seq<char>)
    ensures
        ({
            let a = concat_arguments(inputs, output);
            let n = inputs.len() as int;
            &&& a.len() == 2 * n + 5
            &&& forall|i: int| 0 <= i < n ==> #[trigger] a[2 * i] == "-i"@ && a[2 * i + 1] == inputs[i]
            &&& a[2 * n] == "-filter_complex"@
            &&& a[2 * n + 1] == concat_filter(inputs.len())
            &&& a[2 * n + 2] == "-map"@
            &&& a[2 * n + 3] == "[out]"@
            &&& a[2 * n + 4] == output
        }),
{
    lemma_input_arguments(inputs);
    let a = concat_arguments(inputs, output);
    let n = inputs.len() as int;
    assert forall|i: int| 0 <= i < n implies #[trigger] a[2 * i] == "-i"@ && a[2 * i + 1] == inputs[i] by {
        assert(a[2 * i] == input_arguments(inputs)[2 * i]);
        assert(a[2 * i + 1] == input_arguments(inputs)[2 * i + 1]);
    }
}
proof fn lemma_check_inputs_command(inputs: Seq<Seq<char>>, output: Seq<char>, i: nat, r: Seq<Reply>, a: Seq<Seq<char>>)
    requires
        i <= inputs.len(),
        check_inputs(inputs, output, i, r) == StepView::<()>::Perform(RequestView::RunFfmpeg(a)),
    ensures
        a == ffmpeg_command(concat_arguments(inputs, output)),
    decreases inputs.len() - i,
{
    if i < inputs.len() {
        lemma_check_inputs_command(inputs, output, i + 1, r.skip(2), a);
    }
}

/// The one `ffmpeg` run of a join reads every input, in the order given,
/// each after its own `-i` (behind the common options), then joins them
/// with the filter graph of exactly that many inputs (see
/// [`law_concat_filter_names_every_input`]) and writes its `[out]` to
/// `output`.
pub proof fn law_concat_joins_every_input(inputs: Seq<Seq<char>>, output: Seq<char>, r: Seq<Reply>, a: Seq<Seq<char>>)
    requires
        concat_session(inputs, output, r) == StepView::<()>::Perform(RequestView::RunFfmpeg(a)),
    ensures
        ({
            let n = inputs.len() as int;
            &&& a.len() == 2 * n + 9
            &&& a[0] == "-y"@ && a[1] == "-hide_banner"@ && a[2] == "-loglevel"@ && a[3] == "error"@
            &&& forall|i: int| 0 <= i < n ==> #[trigger] a[4 + 2 * i] == "-i"@ && a[5 + 2 * i] == inputs[i]
            &&& a[4 + 2 * n] == "-filter_complex"@
            &&& a[5 + 2 * n] == concat_filter(inputs.len())
            &&& a[6 + 2 * n] == "-map"@
            &&& a[7 + 2 * n] == "[out]"@
            &&& a[8 + 2 * n] == output
        }),
{
    lemma_check_inputs_command(inputs, output, 0, r, a);
    law_concat_arguments_read_every_input_in_order(inputs, output);
    let b = concat_arguments(inputs, output);
    let n = inputs.len() as int;
    assert forall|i: int| 0 <= i < n implies #[trigger] a[4 + 2 * i] == "-i"@ && a[5 + 2 * i] == inputs[i] by {
        assert(a[4 + 2 * i] == b[2 * i]);
        assert(a[5 + 2 * i] == b[2 * i + 1]);
    }
}
} // verus!
