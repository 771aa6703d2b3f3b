//! Mixing a constant low-level noise bed under a speech track, so that the
//! silent gaps between edited takes do not sound dead.

use vstd::prelude::*;
use crate::error::{AudioHelperError, ErrorView};
use crate::session::{
    duration_of, duration_reply, is_yes, produce, produce_step, yes, Reply, Request, RequestView,
    Step, StepView,
};
use crate::text::{
    decimal, div_round_half_even, millis_string, push_arg, push_owned_arg, round_micros_to_millis,
    seconds_text_millis, u64_text,
};

verus! {

/// How `mix_room_tone` makes its noise bed.
#[derive(Debug, Clone)]
pub struct RoomToneOptions {
    /// The noise amplitude as `anoisesrc` reads it, in decimal text (six
    /// fraction digits: `10^(dB / 20)` of the wanted level in dB).
    pub amplitude: String,
    /// `anoisesrc` color: white, pink, brown, red, blue, violet or velvet.
    pub color: String,
    pub sample_rate: u32,
}

/// A noise color that `anoisesrc` offers.
pub open spec fn valid_color(c: Seq<char>) -> bool {
    c == "white"@ || c == "pink"@ || c == "brown"@ || c == "red"@ || c == "blue"@ || c
        == "violet"@ || c == "velvet"@
}

/// Whether `anoisesrc` offers the color.
pub fn is_valid_color(c: &String) -> (r: bool)
    ensures
        r == valid_color(c@),
{
    *c == String::from_str("white") || *c == String::from_str("pink") || *c == String::from_str(
        "brown",
    ) || *c == String::from_str("red") || *c == String::from_str("blue") || *c
        == String::from_str("violet") || *c == String::from_str("velvet")
}

/// The noise source: the chosen color and amplitude, lasting half a second
/// longer than the speech (so that mixing to the first input's length
/// never cuts the speech short), at the chosen sample rate.
pub open spec fn noise_source(color: Seq<char>, amplitude: Seq<char>, duration: u64, sample_rate: u32) -> Seq<char> {
    "anoisesrc=color="@ + color + ":amplitude="@ + amplitude + ":duration="@ + seconds_text_millis(
        (duration + 500_000) as nat,
    ) + ":sample_rate="@ + decimal(sample_rate as nat)
}

/// The `ffmpeg` arguments that mix the noise `source` under `input`, keeping
/// the length of `input`.
pub open spec fn room_tone_arguments(input: Seq<char>, source: Seq<char>, output: Seq<char>) -> Seq<Seq<char>> {
    seq![
        "-i"@,
        input,
        "-f"@,
        "lavfi"@,
        "-i"@,
        source,
        "-filter_complex"@,
        "[0:a][1:a]amix=inputs=2:duration=first:dropout_transition=0[out]"@,
        "-map"@,
        "[out]"@,
        output,
    ]
}

/// Mixing room tone under `input` into `output`, given the answers `r` so
/// far: the input must be a file and valid audio, the color must be one
/// that `anoisesrc` offers, the input's duration sets the noise's, then
/// `ffmpeg` runs and its output is checked.
pub open spec fn room_tone_session(input: Seq<char>, output: Seq<char>, options: RoomToneOptions, r: Seq<Reply>) -> StepView<()> {
    if r.len() == 0 {
        StepView::Perform(RequestView::IsFile(input))
    } else if !yes(r[0]) {
        StepView::Finish(Err(ErrorView::FileNotFound(input)))
    } else if r.len() == 1 {
        StepView::Perform(RequestView::IsValidAudio(input))
    } else if !yes(r[1]) {
        StepView::Finish(Err(ErrorView::InvalidAudioFile(input)))
    } else if !valid_color(options.color@) {
        StepView::Finish(Err(ErrorView::UnsupportedNoiseColor(options.color@)))
    } else if r.len() == 2 {
        StepView::Perform(RequestView::AudioDuration(input))
    } else {
        match duration_reply(r[2]) {
            Err(e) => StepView::Finish(Err(e)),
            Ok(d) => produce(
                room_tone_arguments(
                    input,
                    noise_source(options.color@, options.amplitude@, d, options.sample_rate),
                    output,
                ),
                output,
                "room-tone mix"@,
                r.skip(3),
            ),
        }
    }
}

/// Builds the noise source description.
pub fn noise_source_text(color: &String, amplitude: &String, duration: u64, sample_rate: u32) -> (s: String)
    ensures
        s@ == noise_source(color@, amplitude@, duration, sample_rate),
{
    let ms = round_micros_to_millis(duration) + 500;
    assert(div_round_half_even((duration + 500_000) as nat, 1000) == div_round_half_even(
        duration as nat,
        1000,
    ) + 500) by (nonlinear_arith);
    let mut s = String::from_str("anoisesrc=color=");
    s.append(color.as_str());
    s.append(":amplitude=");
    s.append(amplitude.as_str());
    s.append(":duration=");
    let t = millis_string(ms);
    s.append(t.as_str());
    s.append(":sample_rate=");
    let r = u64_text(sample_rate as u64);
    s.append(r.as_str());
    s
}

/// Builds the `ffmpeg` arguments of a room-tone mix.
pub fn room_tone_args(input: &str, source: String, output: &str) -> (args: Vec<String>)
    ensures
        args.deep_view() == room_tone_arguments(input@, source@, output@),
{
    let ghost src = source@;
    let mut args: Vec<String> = Vec::new();
    push_arg(&mut args, "-i");
    push_arg(&mut args, input);
    push_arg(&mut args, "-f");
    push_arg(&mut args, "lavfi");
    push_arg(&mut args, "-i");
    push_owned_arg(&mut args, source);
    push_arg(&mut args, "-filter_complex");
    push_arg(&mut args, "[0:a][1:a]amix=inputs=2:duration=first:dropout_transition=0[out]");
    push_arg(&mut args, "-map");
    push_arg(&mut args, "[out]");
    push_arg(&mut args, output);
    assert(args.deep_view() =~= room_tone_arguments(input@, src, output@));
    args
}

/// The next step of mixing ambient noise under `input` into `output`.
pub fn mix_room_tone(input: &str, output: &str, options: &RoomToneOptions, replies: &[Reply]) -> (step: Step<()>)
    ensures
        step@ == room_tone_session(input@, output@, *options, replies@),
{
    let n = replies.len();
    if n == 0 {
        return Step::Perform(Request::IsFile(String::from_str(input)));
    }
    if !is_yes(&replies[0]) {
        return Step::Finish(Err(AudioHelperError::FileNotFound(String::from_str(input))));
    }
    if n == 1 {
        return Step::Perform(Request::IsValidAudio(String::from_str(input)));
    }
    if !is_yes(&replies[1]) {
        return Step::Finish(Err(AudioHelperError::InvalidAudioFile(String::from_str(input))));
    }
    if !is_valid_color(&options.color) {
        return Step::Finish(Err(AudioHelperError::UnsupportedNoiseColor(options.color.clone())));
    }
    if n == 2 {
        return Step::Perform(Request::AudioDuration(String::from_str(input)));
    }
    let d = match duration_of(&replies[2]) {
        Err(e) => return Step::Finish(Err(e)),
        Ok(d) => d,
    };
    let source = noise_source_text(&options.color, &options.amplitude, d, options.sample_rate);
    let args = room_tone_args(input, source, output);
    produce_step(args, output, "room-tone mix", replies, 3)
}


/// `ffmpeg` is only asked to mix once the input was found to be a valid
/// audio file, the color to be one `anoisesrc` offers, and the input's
/// duration was reported; the noise then lasts that long plus half a
/// second.
pub proof fn law_room_tone_runs_on_valid_input(
    input: Seq<char>,
    output: Seq<char>,
    options: RoomToneOptions,
    r: Seq<Reply>,
)
    requires
        room_tone_session(input, output, options, r) matches StepView::Perform(RequestView::RunFfmpeg(_)),
    ensures
        r.len() == 3,
        yes(r[0]),
        yes(r[1]),
        valid_color(options.color@),
        duration_reply(r[2]) is Ok,
        room_tone_session(input, output, options, r) == StepView::<()>::Perform(
            RequestView::RunFfmpeg(
                crate::session::ffmpeg_command(
                    room_tone_arguments(
                        input,
                        noise_source(
                            options.color@,
                            options.amplitude@,
                            duration_reply(r[2])->Ok_0,
                            options.sample_rate,
                        ),
                        output,
                    ),
                ),
            ),
        ),
{
    if r.len() > 3 {
        assert(r.skip(3).len() > 0);
    }
}
} // verus!
