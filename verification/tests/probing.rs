use audio_helper::error::AudioHelperError;
use audio_helper::json::JsonValue;
use audio_helper::pcm::{decode_args, load, load_format, LoadOptions};
use audio_helper::seconds::SecondsValue;
use audio_helper::session::{Reply, Request, Step};
use audio_helper::probe::{
    ffprobe_args, ffprobe_report, ffprobe_status, find_audio_stream, get_audio_duration, get_duration_micros, is_valid_audio_file,
    native_format,
    AudioStream, FileProbe,
};

fn text(s: &str) -> JsonValue {
    JsonValue::Str(s.to_string())
}

fn object(members: Vec<(&str, JsonValue)>) -> JsonValue {
    JsonValue::Object(members.into_iter().map(|(k, v)| (k.to_string(), v)).collect())
}

/// The report `ffprobe -of json` gives of a one-second 16 kHz mono WAV.
fn wav_report() -> JsonValue {
    object(vec![
        (
            "streams",
            JsonValue::Array(vec![object(vec![
                ("index", JsonValue::Number(Some(0))),
                ("codec_name", text("pcm_s16le")),
                ("codec_type", text("audio")),
                ("sample_rate", text("16000")),
                ("channels", JsonValue::Number(Some(1))),
                ("duration", text("1.000000")),
            ])]),
        ),
        ("format", object(vec![("duration", text("1.000000"))])),
    ])
}

#[test]
fn valid_wav_reports_duration_and_is_valid() {
    let probe = FileProbe::Probed(Ok(wav_report()));
    assert!(is_valid_audio_file(&probe));
    let duration = get_audio_duration("tone.wav", &probe).unwrap();
    assert_eq!(duration, SecondsValue::Finite { negative: false, significand: 1_000_000, exponent: -6 });
    assert_eq!(get_duration_micros("tone.wav", &probe).unwrap(), 1_000_000);
}

#[test]
fn missing_file_is_invalid_and_errors() {
    let path = "/nonexistent/does-not-exist.wav";
    assert!(!is_valid_audio_file(&FileProbe::NotAFile));
    assert!(matches!(get_audio_duration(path, &FileProbe::NotAFile), Err(AudioHelperError::FileNotFound(_))));
}

#[test]
fn non_audio_file_is_invalid() {
    let failed = FileProbe::Probed(Err(AudioHelperError::Ffprobe("Invalid data found".to_string())));
    assert!(!is_valid_audio_file(&failed));
    let no_audio = FileProbe::Probed(Ok(object(vec![("streams", JsonValue::Array(vec![]))])));
    assert!(!is_valid_audio_file(&no_audio));
    assert!(matches!(get_audio_duration("x.txt", &no_audio), Err(AudioHelperError::InvalidAudioFile(_))));
}

#[test]
fn first_audio_stream_wins_and_missing_fields_default() {
    let report = object(vec![
        (
            "streams",
            JsonValue::Array(vec![
                object(vec![("codec_type", text("video")), ("sample_rate", text("1"))]),
                object(vec![("codec_type", text("audio")), ("sample_rate", text("+48000")), ("duration", text("N/A"))]),
                object(vec![("codec_type", text("audio")), ("sample_rate", text("8000"))]),
            ]),
        ),
        ("format", object(vec![("duration", text("2.5"))])),
    ]);
    assert_eq!(
        find_audio_stream(&report),
        Some(AudioStream { sample_rate: 48_000, channels: 1, duration: Some(SecondsValue::Finite { negative: false, significand: 25, exponent: -1 }) })
    );
}

#[test]
fn unreadable_sample_rate_reads_as_zero_and_channels_truncate() {
    let report = object(vec![(
        "streams",
        JsonValue::Array(vec![object(vec![
            ("codec_type", text("audio")),
            ("sample_rate", text("44.1k")),
            ("channels", JsonValue::Number(Some(4_294_967_298))),
        ])]),
    )]);
    assert_eq!(find_audio_stream(&report), Some(AudioStream { sample_rate: 0, channels: 2, duration: None }));
    match get_audio_duration("a.wav", &FileProbe::Probed(Ok(report))) {
        Err(AudioHelperError::FfprobeParse(m)) => assert_eq!(m, "no duration reported for a.wav"),
        other => panic!("unexpected {:?}", other),
    }
}

fn one_stream(duration: &str, format_duration: &str) -> JsonValue {
    object(vec![
        (
            "streams",
            JsonValue::Array(vec![object(vec![("codec_type", text("audio")), ("duration", text(duration))])]),
        ),
        ("format", object(vec![("duration", text(format_duration))])),
    ])
}

#[test]
fn stream_duration_in_exponent_form_is_read() {
    let report = one_stream("1e2", "7");
    let hundred = SecondsValue::Finite { negative: false, significand: 1, exponent: 2 };
    assert_eq!(find_audio_stream(&report), Some(AudioStream { sample_rate: 0, channels: 1, duration: Some(hundred) }));
    let probe = FileProbe::Probed(Ok(report));
    assert_eq!(get_audio_duration("long.wav", &probe).unwrap(), hundred);
    assert_eq!(get_duration_micros("long.wav", &probe).unwrap(), 100_000_000);
}

#[test]
fn every_reported_number_is_kept() {
    let cases = [
        ("inf", SecondsValue::Infinite { negative: false }),
        ("-Infinity", SecondsValue::Infinite { negative: true }),
        ("NaN", SecondsValue::NotANumber),
        ("-1.5", SecondsValue::Finite { negative: true, significand: 15, exponent: -1 }),
        ("1e20", SecondsValue::Finite { negative: false, significand: 1, exponent: 20 }),
    ];
    for (text, value) in cases {
        let probe = FileProbe::Probed(Ok(one_stream(text, "7")));
        assert_eq!(get_audio_duration("odd.wav", &probe).unwrap(), value);
        match get_duration_micros("odd.wav", &probe) {
            Err(AudioHelperError::FfprobeParse(m)) => assert_eq!(
                m,
                "duration reported for odd.wav is not a length of at most u64::MAX microseconds"
            ),
            other => panic!("unexpected {:?}", other),
        }
    }
}

#[test]
fn unreadable_stream_duration_falls_back_to_the_container() {
    let report = one_stream("1e", "2.5E0");
    let probe = FileProbe::Probed(Ok(report));
    assert_eq!(
        get_audio_duration("c.wav", &probe).unwrap(),
        SecondsValue::Finite { negative: false, significand: 25, exponent: -1 }
    );
    assert_eq!(get_duration_micros("c.wav", &probe).unwrap(), 2_500_000);
}

#[test]
fn native_format_reads_rate_and_channels() {
    assert_eq!(native_format("tone.wav", &Ok(wav_report())).unwrap(), (16_000, 1));
    let err = native_format("x", &Err(AudioHelperError::Ffprobe("boom".to_string())));
    assert!(matches!(err, Err(AudioHelperError::Ffprobe(ref m)) if m == "boom"));
}

#[test]
fn ffprobe_is_asked_for_streams_and_format_as_json() {
    assert_eq!(ffprobe_args("a b.wav"), vec!["-v", "error", "-show_streams", "-show_format", "-of", "json", "a b.wav"]);
}

#[test]
fn ffprobe_failure_carries_its_error_output() {
    assert!(ffprobe_status(true, b"ignored").is_ok());
    match ffprobe_status(false, b"bad\xffinput") {
        Err(AudioHelperError::Ffprobe(m)) => assert_eq!(m, "bad\u{FFFD}input"),
        other => panic!("unexpected {:?}", other),
    }
}

#[test]
fn loads_and_resamples_to_target_rate() {
    let options = LoadOptions { target_sample_rate: Some(16_000), ..Default::default() };
    let mut replies: Vec<Reply> = Vec::new();
    assert!(matches!(load("tone.wav", &options, &replies), Step::Perform(Request::NativeFormat(ref p)) if p == "tone.wav"));
    replies.push(Reply::Format(Ok((44_100, 1))));
    match load("tone.wav", &options, &replies) {
        Step::Perform(Request::DecodePcm(args)) => assert_eq!(
            args,
            vec!["-hide_banner", "-loglevel", "error", "-i", "tone.wav", "-f", "f32le", "-ac", "1", "-ar", "16000", "pipe:1"]
        ),
        other => panic!("unexpected {:?}", other),
    }
    replies.push(Reply::Done(Ok(())));
    let (rate, channels) = match load("tone.wav", &options, &replies) {
        Step::Finish(Ok(format)) => format,
        other => panic!("unexpected {:?}", other),
    };
    assert_eq!(rate, 16_000);
    assert_eq!(channels, 1);
}

#[test]
fn defaults_to_native_sample_rate_when_unset() {
    let replies = vec![Reply::Format(Ok((22_050, 2))), Reply::Done(Ok(()))];
    let (rate, _) = match load("tone.wav", &LoadOptions::default(), &replies) {
        Step::Finish(Ok(format)) => format,
        other => panic!("unexpected {:?}", other),
    };
    assert_eq!(rate, 22_050);
}

#[test]
fn channel_choice_prefers_mono_then_stereo_then_native() {
    let stereo = LoadOptions { target_sample_rate: None, to_mono: false, two_channels: true };
    assert_eq!(load_format(&stereo, (8_000, 6)), (8_000, 2));
    let native = LoadOptions { target_sample_rate: None, to_mono: false, two_channels: false };
    assert_eq!(load_format(&native, (8_000, 6)), (8_000, 6));
    assert_eq!(load_format(&native, (8_000, 0)), (8_000, 1));
    let both = LoadOptions { target_sample_rate: None, to_mono: true, two_channels: true };
    assert_eq!(load_format(&both, (8_000, 6)), (8_000, 1));
}

#[test]
fn decoding_writes_f32_pcm_to_standard_output() {
    assert_eq!(
        decode_args("in.mp4", 16_000, 1),
        vec!["-hide_banner", "-loglevel", "error", "-i", "in.mp4", "-f", "f32le", "-ac", "1", "-ar", "16000", "pipe:1"]
    );
}

#[test]
fn load_reads_the_native_format_then_decodes() {
    let options = LoadOptions { target_sample_rate: Some(16_000), ..Default::default() };
    assert!(matches!(load("tone.wav", &options, &[]), Step::Perform(Request::NativeFormat(ref p)) if p == "tone.wav"));
    match load("tone.wav", &options, &[Reply::Format(Ok((44_100, 2)))]) {
        Step::Perform(Request::DecodePcm(args)) => assert_eq!(
            args,
            vec!["-hide_banner", "-loglevel", "error", "-i", "tone.wav", "-f", "f32le", "-ac", "1", "-ar", "16000", "pipe:1"]
        ),
        other => panic!("unexpected {:?}", other),
    }
    let done = load("tone.wav", &options, &[Reply::Format(Ok((44_100, 2))), Reply::Done(Ok(()))]);
    assert!(matches!(done, Step::Finish(Ok((16_000, 1)))));
    let failed = load("x.wav", &options, &[Reply::Format(Err(AudioHelperError::InvalidAudioFile("x.wav".to_string())))]);
    assert!(matches!(failed, Step::Finish(Err(AudioHelperError::InvalidAudioFile(_)))));
}

#[test]
fn load_refuses_a_reply_of_the_wrong_kind() {
    let step = load("x.wav", &LoadOptions::default(), &[Reply::Answer(true)]);
    assert!(matches!(step, Step::Finish(Err(AudioHelperError::UnexpectedReply))));
}

#[test]
fn ffprobe_output_is_read_as_a_json_document() {
    let stdout = br#"{"streams": [{"index": 0, "codec_type": "video"},
        {"index": 1, "codec_type": "audio", "sample_rate": "44100", "channels": 2, "duration": "3.250000"}],
        "format": {"duration": "3.300000"}}"#;
    let report = ffprobe_report(true, stdout, b"").unwrap();
    assert_eq!(
        find_audio_stream(&report),
        Some(AudioStream {
            sample_rate: 44_100,
            channels: 2,
            duration: Some(SecondsValue::Finite { negative: false, significand: 3_250_000, exponent: -6 }),
        })
    );
    let probe = FileProbe::Probed(Ok(report));
    assert_eq!(get_duration_micros("a.mp3", &probe).unwrap(), 3_250_000);
}

#[test]
fn ffprobe_output_that_is_no_json_is_a_parse_error() {
    match ffprobe_report(true, b"", b"") {
        Err(AudioHelperError::FfprobeParse(m)) => assert_eq!(m, "EOF while parsing a value at line 1 column 0"),
        other => panic!("unexpected {:?}", other),
    }
    assert!(matches!(ffprobe_report(true, b"{\"streams\": [", b""), Err(AudioHelperError::FfprobeParse(_))));
}

#[test]
fn failed_ffprobe_reports_its_error_output_before_reading_json() {
    match ffprobe_report(false, b"{}", b"no such file") {
        Err(AudioHelperError::Ffprobe(m)) => assert_eq!(m, "no such file"),
        other => panic!("unexpected {:?}", other),
    }
}
