//! What `ffprobe` reports of a file: whether it holds an audio stream, that
//! stream's sample rate, channel count and duration.

use vstd::prelude::*;
use crate::error::{outcome, AudioHelperError, ErrorView};
use crate::json::{elements_of, json_from_bytes, member, parse_json, text_of, u64_of, JsonValue};
use crate::seconds::{micros_of_value, read_seconds, seconds_reading, value_micros, SecondsValue};
use crate::text::{lossy_text, parse_u32, push_arg, u32_from_text, utf8_lossy};

verus! {

/// The first audio stream of a report.
#[derive(Debug, Clone, Copy, PartialEq, Eq, Structural)]
pub struct AudioStream {
    /// Samples per second; `0` when the report gives none that reads.
    pub sample_rate: u32,
    /// Channels; `1` when the report gives none.
    pub channels: u32,
    /// Length, when the stream or the container reports one that reads as a
    /// number.
    pub duration: Option<SecondsValue>,
}

/// What is known of a path before its audio is read: either it is not a
/// file, or `ffprobe` was run on it with this outcome.
#[derive(Debug)]
pub enum FileProbe {
    NotAFile,
    Probed(Result<JsonValue, AudioHelperError>),
}

/// A stream whose `codec_type` is the string `"audio"`.
pub open spec fn is_audio_stream(s: JsonValue) -> bool {
    text_of(member(Some(s), "codec_type"@)) == Some("audio"@)
}

/// The first audio stream among `streams`.
pub open spec fn first_audio(streams: Seq<JsonValue>) -> Option<JsonValue>
    decreases streams.len(),
{
    if streams.len() == 0 {
        None
    } else if is_audio_stream(streams[0]) {
        Some(streams[0])
    } else {
        first_audio(streams.drop_first())
    }
}

/// The seconds written by a string field, when it is one that reads as a
/// number.
pub open spec fn seconds_field(v: Option<JsonValue>) -> Option<SecondsValue> {
    match text_of(v) {
        Some(t) => seconds_reading(t),
        None => None,
    }
}

/// What the report `probe` says of its stream `s`. The duration is the
/// stream's own, else the container's (`format.duration`).
pub open spec fn stream_info(probe: JsonValue, s: JsonValue) -> AudioStream {
    AudioStream {
        sample_rate: match text_of(member(Some(s), "sample_rate"@)) {
            Some(t) => match u32_from_text(t) {
                Some(x) => x,
                None => 0,
            },
            None => 0,
        },
        channels: match u64_of(member(Some(s), "channels"@)) {
            Some(n) => n as u32,
            None => 1,
        },
        duration: match seconds_field(member(Some(s), "duration"@)) {
            Some(d) => Some(d),
            None => seconds_field(member(member(Some(probe), "format"@), "duration"@)),
        },
    }
}

/// The first audio stream that the report lists under `streams`.
pub open spec fn audio_stream_of(probe: JsonValue) -> Option<AudioStream> {
    match elements_of(member(Some(probe), "streams"@)) {
        Some(streams) => match first_audio(streams) {
            Some(s) => Some(stream_info(probe, s)),
            None => None,
        },
        None => None,
    }
}

proof fn lemma_first_audio(streams: Seq<JsonValue>, i: int)
    requires
        0 <= i <= streams.len(),
        forall|j: int| 0 <= j < i ==> !is_audio_stream(#[trigger] streams[j]),
    ensures
        first_audio(streams) == first_audio(streams.skip(i)),
    decreases i,
{
    if i > 0 {
        assert(streams.drop_first().skip(i - 1) =~= streams.skip(i));
        assert forall|j: int| 0 <= j < i - 1 implies !is_audio_stream(
            #[trigger] streams.drop_first()[j],
        ) by {
            assert(streams.drop_first()[j] == streams[j + 1]);
        }
        lemma_first_audio(streams.drop_first(), i - 1);
    } else {
        assert(streams.skip(0) =~= streams);
    }
}

fn text_field_seconds(v: Option<&JsonValue>) -> (r: Option<SecondsValue>)
    ensures
        r == seconds_field(
            match v {
                Some(x) => Some(*x),
                None => None,
            },
        ),
{
    match v {
        Some(x) => match x.as_text() {
            Some(t) => read_seconds(t.as_str()),
            None => None,
        },
        None => None,
    }
}

/// Reads what a report says of its stream `s`.
fn read_stream(probe: &JsonValue, s: &JsonValue) -> (r: AudioStream)
    ensures
        r == stream_info(*probe, *s),
{
    let sample_rate: u32 = match s.get(&String::from_str("sample_rate")) {
        Some(v) => match v.as_text() {
            Some(t) => match parse_u32(t.as_str()) {
                Some(x) => x,
                None => 0,
            },
            None => 0,
        },
        None => 0,
    };
    let channels: u32 = match s.get(&String::from_str("channels")) {
        Some(v) => match v.as_u64() {
            Some(n) => n as u32,
            None => 1,
        },
        None => 1,
    };
    let own = text_field_seconds(s.get(&String::from_str("duration")));
    let duration = match own {
        Some(d) => Some(d),
        None => match probe.get(&String::from_str("format")) {
            Some(f) => text_field_seconds(f.get(&String::from_str("duration"))),
            None => None,
        },
    };
    AudioStream { sample_rate, channels, duration }
}

/// The first audio stream of an `ffprobe` report (its `streams` array, the
/// first element whose `codec_type` is `"audio"`), with what the report says
/// of it; `None` when there is no such stream.
pub fn find_audio_stream(probe: &JsonValue) -> (r: Option<AudioStream>)
    ensures
        r == audio_stream_of(*probe),
{
    let streams = match probe.get(&String::from_str("streams")) {
        Some(v) => match v.as_array() {
            Some(items) => items,
            None => return None,
        },
        None => return None,
    };
    let audio = String::from_str("audio");
    let mut i: usize = 0;
    while i < streams.len()
        invariant
            i <= streams@.len(),
            elements_of(member(Some(*probe), "streams"@)) == Some(streams@),
            audio@ == "audio"@,
            forall|j: int| 0 <= j < i ==> !is_audio_stream(#[trigger] streams@[j]),
        decreases streams.len() - i,
    {
        let s = &streams[i];
        let is_audio = match s.get(&String::from_str("codec_type")) {
            Some(v) => match v.as_text() {
                Some(t) => *t == audio,
                None => false,
            },
            None => false,
        };
        if is_audio {
            proof {
                lemma_first_audio(streams@, i as int);
                assert(streams@.skip(i as int)[0] == streams@[i as int]);
            }
            return Some(read_stream(probe, s));
        }
        i = i + 1;
    }
    proof {
        lemma_first_audio(streams@, i as int);
    }
    None
}

/// Whether a probed path is a valid audio file: it is a file and `ffprobe`
/// found an audio stream in it.
pub open spec fn valid_audio(probe: FileProbe) -> bool {
    match probe {
        FileProbe::Probed(Ok(report)) => audio_stream_of(report) is Some,
        _ => false,
    }
}

/// True if the path is a file and `ffprobe` found at least one audio stream
/// in it.
pub fn is_valid_audio_file(probe: &FileProbe) -> (r: bool)
    ensures
        r == valid_audio(*probe),
{
    match probe {
        FileProbe::Probed(Ok(report)) => find_audio_stream(report).is_some(),
        _ => false,
    }
}

/// What `get_audio_duration` answers for `path` on what was learnt of it.
pub open spec fn duration_outcome(path: Seq<char>, probe: FileProbe) -> Result<SecondsValue, ErrorView> {
    match probe {
        FileProbe::NotAFile => Err(ErrorView::FileNotFound(path)),
        FileProbe::Probed(Err(e)) => Err(e@),
        FileProbe::Probed(Ok(report)) => match audio_stream_of(report) {
            None => Err(ErrorView::InvalidAudioFile(path)),
            Some(s) => match s.duration {
                Some(d) => Ok(d),
                None => Err(ErrorView::FfprobeParse("no duration reported for "@ + path)),
            },
        },
    }
}

/// The duration, in seconds, of the audio stream of `path`: the number that
/// the stream's `duration` text writes, else the container's, whatever
/// number it is.
pub fn get_audio_duration(path: &str, probe: &FileProbe) -> (r: Result<SecondsValue, AudioHelperError>)
    ensures
        outcome(r) == duration_outcome(path@, *probe),
{
    match probe {
        FileProbe::NotAFile => Err(AudioHelperError::FileNotFound(String::from_str(path))),
        FileProbe::Probed(Err(e)) => Err(e.duplicate()),
        FileProbe::Probed(Ok(report)) => match find_audio_stream(report) {
            None => Err(AudioHelperError::InvalidAudioFile(String::from_str(path))),
            Some(s) => match s.duration {
                Some(d) => Ok(d),
                None => {
                    let mut message = String::from_str("no duration reported for ");
                    message.append(path);
                    Err(AudioHelperError::FfprobeParse(message))
                },
            },
        },
    }
}

/// The error for a duration that no operation can work with.
pub open spec fn unusable_duration_message(path: Seq<char>) -> Seq<char> {
    "duration reported for "@ + path + " is not a length of at most u64::MAX microseconds"@
}

/// What the operations that cut or mix audio learn of the duration of
/// `path`: its whole microseconds, when it is zero or positive, finite and
/// at most `u64::MAX` microseconds.
pub open spec fn duration_micros_outcome(path: Seq<char>, probe: FileProbe) -> Result<u64, ErrorView> {
    match duration_outcome(path, probe) {
        Err(e) => Err(e),
        Ok(v) => match value_micros(v) {
            Some(us) => Ok(us),
            None => Err(ErrorView::FfprobeParse(unusable_duration_message(path))),
        },
    }
}

/// The duration of the audio stream of `path` in whole microseconds (rounded
/// down), as the operations that cut or mix audio work with it.
pub fn get_duration_micros(path: &str, probe: &FileProbe) -> (r: Result<u64, AudioHelperError>)
    ensures
        outcome(r) == duration_micros_outcome(path@, *probe),
{
    match get_audio_duration(path, probe) {
        Err(e) => Err(e),
        Ok(v) => match micros_of_value(v) {
            Some(us) => Ok(us),
            None => {
                let mut message = String::from_str("duration reported for ");
                message.append(path);
                message.append(" is not a length of at most u64::MAX microseconds");
                Err(AudioHelperError::FfprobeParse(message))
            },
        },
    }
}

/// What `native_format` answers for `path` on `ffprobe`'s report.
pub open spec fn format_outcome(path: Seq<char>, report: Result<JsonValue, AudioHelperError>) -> Result<(u32, u32), ErrorView> {
    match report {
        Err(e) => Err(e@),
        Ok(j) => match audio_stream_of(j) {
            None => Err(ErrorView::InvalidAudioFile(path)),
            Some(s) => Ok((s.sample_rate, s.channels)),
        },
    }
}

/// Native sample rate and channel count of the audio stream of `path`.
pub fn native_format(path: &str, report: &Result<JsonValue, AudioHelperError>) -> (r: Result<(u32, u32), AudioHelperError>)
    ensures
        outcome(r) == format_outcome(path@, *report),
{
    match report {
        Err(e) => Err(e.duplicate()),
        Ok(j) => match find_audio_stream(j) {
            None => Err(AudioHelperError::InvalidAudioFile(String::from_str(path))),
            Some(s) => Ok((s.sample_rate, s.channels)),
        },
    }
}

/// The arguments of the `ffprobe` run that reports on `path`.
pub open spec fn ffprobe_arguments(path: Seq<char>) -> Seq<Seq<char>> {
    seq!["-v"@, "error"@, "-show_streams"@, "-show_format"@, "-of"@, "json"@, path]
}

/// Builds the arguments of the `ffprobe` run that reports on `path`.
pub fn ffprobe_args(path: &str) -> (args: Vec<String>)
    ensures
        args.deep_view() == ffprobe_arguments(path@),
{
    let mut args: Vec<String> = Vec::new();
    push_arg(&mut args, "-v");
    push_arg(&mut args, "error");
    push_arg(&mut args, "-show_streams");
    push_arg(&mut args, "-show_format");
    push_arg(&mut args, "-of");
    push_arg(&mut args, "json");
    push_arg(&mut args, path);
    assert(args.deep_view() =~= ffprobe_arguments(path@));
    args
}

/// What an `ffprobe` exit means: failure carries its error output.
pub fn ffprobe_status(success: bool, stderr: &[u8]) -> (r: Result<(), AudioHelperError>)
    ensures
        outcome(r) == if success {
            Ok(())
        } else {
            Err(ErrorView::Ffprobe(utf8_lossy(stderr@)))
        },
{
    if success {
        Ok(())
    } else {
        Err(AudioHelperError::Ffprobe(lossy_text(stderr)))
    }
}


/// What an `ffprobe` run that exited with `success` and wrote `stdout` and
/// `stderr` reports: its failure with the error output, else the JSON
/// document of its standard output, or serde_json's error on it.
pub open spec fn report_outcome(success: bool, stdout: Seq<u8>, stderr: Seq<u8>) -> Result<JsonValue, ErrorView> {
    if !success {
        Err(ErrorView::Ffprobe(utf8_lossy(stderr)))
    } else {
        match json_from_bytes(stdout) {
            Ok(v) => Ok(v),
            Err(m) => Err(ErrorView::FfprobeParse(m)),
        }
    }
}

/// The report of an `ffprobe` run: a failed run gives its error output, a
/// successful one the JSON document it printed.
pub fn ffprobe_report(success: bool, stdout: &[u8], stderr: &[u8]) -> (r: Result<JsonValue, AudioHelperError>)
    ensures
        outcome(r) == report_outcome(success, stdout@, stderr@),
{
    if let Err(e) = ffprobe_status(success, stderr) {
        return Err(e);
    }
    match parse_json(stdout) {
        Ok(v) => Ok(v),
        Err(m) => Err(AudioHelperError::FfprobeParse(m)),
    }
}

/// A path whose duration can be read is a valid audio file.
pub proof fn law_duration_means_valid(path: Seq<char>, probe: FileProbe)
    requires
        duration_outcome(path, probe) is Ok,
    ensures
        valid_audio(probe),
{
}

/// `ffprobe`'s report of a file shows a valid audio file exactly when the
/// file's native format can be read from it.
pub proof fn law_valid_iff_format(path: Seq<char>, report: Result<JsonValue, AudioHelperError>)
    ensures
        valid_audio(FileProbe::Probed(report)) <==> format_outcome(path, report) is Ok,
{
}
} // verus!
