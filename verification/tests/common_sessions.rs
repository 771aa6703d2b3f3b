use audio_helper::chunk::extract_chunk;
use audio_helper::convert::{convert, ConvertOptions};
use audio_helper::error::AudioHelperError;
use audio_helper::roomtone::{mix_room_tone, RoomToneOptions};
use audio_helper::session::{Reply, Request, SilenceLevel, Step};
use audio_helper::silence::generate_silence;
use audio_helper::split::split_regularly;

fn yes() -> Reply {
    Reply::Answer(true)
}

fn no() -> Reply {
    Reply::Answer(false)
}

fn ran() -> Reply {
    Reply::Done(Ok(()))
}

fn micros(seconds: u64) -> u64 {
    seconds * 1_000_000
}

fn ffmpeg_args_of(step: Step<()>) -> Vec<String> {
    match step {
        Step::Perform(Request::RunFfmpeg(args)) => args,
        other => panic!("expected an ffmpeg run, got {:?}", other),
    }
}

fn strings(items: &[&str]) -> Vec<String> {
    items.iter().map(|s| s.to_string()).collect()
}

#[test]
fn extracts_a_valid_range() {
    let replies = vec![yes(), yes(), Reply::Duration(Ok(micros(2)))];
    let args = ffmpeg_args_of(extract_chunk("in.wav", Some(500_000), Some(1_500_000), "chunk.wav", &replies));
    assert_eq!(
        args,
        strings(&["-y", "-hide_banner", "-loglevel", "error", "-ss", "0.5", "-i", "in.wav", "-t", "1", "chunk.wav"])
    );
    let mut replies = replies;
    replies.push(ran());
    assert!(matches!(
        extract_chunk("in.wav", Some(500_000), Some(1_500_000), "chunk.wav", &replies),
        Step::Perform(Request::IsFile(ref p)) if p == "chunk.wav"
    ));
    replies.push(yes());
    replies.push(yes());
    assert!(matches!(
        extract_chunk("in.wav", Some(500_000), Some(1_500_000), "chunk.wav", &replies),
        Step::Finish(Ok(()))
    ));
}

#[test]
fn rejects_out_of_range_end() {
    let replies = vec![yes(), yes(), Reply::Duration(Ok(micros(1)))];
    let step = extract_chunk("in.wav", Some(0), Some(5_000_000), "chunk.wav", &replies);
    assert!(matches!(step, Step::Finish(Err(AudioHelperError::InvalidTimeRange { .. }))));
}

#[test]
fn rejects_end_before_start() {
    let replies = vec![yes(), yes(), Reply::Duration(Ok(micros(1)))];
    let step = extract_chunk("in.wav", Some(500_000), Some(200_000), "chunk.wav", &replies);
    assert!(matches!(step, Step::Finish(Err(AudioHelperError::InvalidTimeRange { .. }))));
}

#[test]
fn chunk_rejects_a_range_that_is_not_a_number() {
    let replies = vec![yes(), yes(), Reply::Duration(Ok(micros(1)))];
    let step = extract_chunk("in.wav", None, Some(200_000), "chunk.wav", &replies);
    assert!(matches!(
        step,
        Step::Finish(Err(AudioHelperError::InvalidTimeRange { start: None, end: Some(200_000), duration: 1_000_000 }))
    ));
}

#[test]
fn chunk_reports_a_missing_output() {
    let replies = vec![yes(), yes(), Reply::Duration(Ok(micros(2))), ran(), no()];
    match extract_chunk("in.wav", Some(0), Some(1_000_000), "out.wav", &replies) {
        Step::Finish(Err(AudioHelperError::Ffmpeg(m))) => {
            assert_eq!(m, "chunk extraction produced no valid audio file at out.wav")
        }
        other => panic!("unexpected {:?}", other),
    }
}

#[test]
fn concatenates_two_files_and_sums_duration() {
    let inputs = strings(&["a.wav", "b.wav"]);
    let replies = vec![yes(), yes(), yes(), yes()];
    let args = ffmpeg_args_of(audio_helper::concat::concat(&inputs, "concat.wav", &replies));
    assert_eq!(
        args,
        strings(&[
            "-y",
            "-hide_banner",
            "-loglevel",
            "error",
            "-i",
            "a.wav",
            "-i",
            "b.wav",
            "-filter_complex",
            "[0:a][1:a]concat=n=2:v=0:a=1[out]",
            "-map",
            "[out]",
            "concat.wav",
        ])
    );
    let replies = vec![yes(), yes(), yes(), yes(), ran(), yes(), yes()];
    assert!(matches!(audio_helper::concat::concat(&inputs, "concat.wav", &replies), Step::Finish(Ok(()))));
}

#[test]
fn rejects_empty_input_list() {
    let empty: Vec<String> = vec![];
    let step = audio_helper::concat::concat(&empty, "concat.wav", &[]);
    assert!(matches!(step, Step::Finish(Err(AudioHelperError::EmptyInputList))));
}

#[test]
fn concat_stops_at_the_first_invalid_input() {
    let inputs = strings(&["a.wav", "b.txt", "c.wav"]);
    let replies = vec![yes(), yes(), yes(), no()];
    match audio_helper::concat::concat(&inputs, "out.wav", &replies) {
        Step::Finish(Err(AudioHelperError::InvalidAudioFile(p))) => assert_eq!(p, "b.txt"),
        other => panic!("unexpected {:?}", other),
    }
}

#[test]
fn converts_sample_rate_and_channels() {
    let options = ConvertOptions { sample_rate: 16_000, channels: 1, ..Default::default() };
    let replies = vec![yes(), yes()];
    let args = ffmpeg_args_of(convert("in.wav", "out.wav", Some("wav"), &options, &replies));
    assert_eq!(
        args,
        strings(&[
            "-y", "-hide_banner", "-loglevel", "error", "-i", "in.wav", "-ar", "16000", "-ac", "1", "-acodec",
            "pcm_s16le", "out.wav",
        ])
    );
    let replies = vec![yes(), yes(), ran(), yes(), yes()];
    assert!(matches!(convert("in.wav", "out.wav", Some("wav"), &options, &replies), Step::Finish(Ok(()))));
}

#[test]
fn convert_names_no_codec_for_a_compressed_container() {
    let options = ConvertOptions::default();
    let args = ffmpeg_args_of(convert("in.wav", "out.mp3", Some("mp3"), &options, &[yes(), yes()]));
    assert_eq!(
        args,
        strings(&["-y", "-hide_banner", "-loglevel", "error", "-i", "in.wav", "-ar", "44100", "-ac", "1", "out.mp3"])
    );
    let args = ffmpeg_args_of(convert("in.wav", "OUT.WAV", Some("WAV"), &options, &[yes(), yes()]));
    assert!(args.contains(&"-acodec".to_string()));
}

#[test]
fn skips_conversion_when_overwrite_is_false_and_output_already_valid() {
    let options = ConvertOptions { sample_rate: 16_000, overwrite: false, ..Default::default() };
    assert!(matches!(
        convert("in.wav", "out.wav", Some("wav"), &options, &[yes(), yes()]),
        Step::Perform(Request::IsFile(ref p)) if p == "out.wav"
    ));
    let step = convert("in.wav", "out.wav", Some("wav"), &options, &[yes(), yes(), yes(), yes()]);
    assert!(matches!(step, Step::Finish(Ok(()))));
}

#[test]
fn missing_input_errors() {
    let step = convert("missing.wav", "out.wav", Some("wav"), &ConvertOptions::default(), &[no()]);
    assert!(matches!(step, Step::Finish(Err(AudioHelperError::FileNotFound(_)))));
}

#[test]
fn mixes_and_preserves_roughly_the_input_duration() {
    let options = RoomToneOptions {
        amplitude: "0.007943".to_string(),
        color: "pink".to_string(),
        sample_rate: 44_100,
    };
    let replies = vec![yes(), yes(), Reply::Duration(Ok(micros(1)))];
    let args = ffmpeg_args_of(mix_room_tone("speech.wav", "mixed.wav", &options, &replies));
    assert_eq!(
        args,
        strings(&[
            "-y",
            "-hide_banner",
            "-loglevel",
            "error",
            "-i",
            "speech.wav",
            "-f",
            "lavfi",
            "-i",
            "anoisesrc=color=pink:amplitude=0.007943:duration=1.500:sample_rate=44100",
            "-filter_complex",
            "[0:a][1:a]amix=inputs=2:duration=first:dropout_transition=0[out]",
            "-map",
            "[out]",
            "mixed.wav",
        ])
    );
}

#[test]
fn room_tone_duration_rounds_half_to_even() {
    let options = RoomToneOptions { amplitude: "0.1".to_string(), color: "white".to_string(), sample_rate: 8000 };
    let args = ffmpeg_args_of(mix_room_tone("a.wav", "b.wav", &options, &[yes(), yes(), Reply::Duration(Ok(62_500))]));
    assert_eq!(args[9], "anoisesrc=color=white:amplitude=0.1:duration=0.562:sample_rate=8000");
}

#[test]
fn rejects_unsupported_color() {
    let options = RoomToneOptions {
        amplitude: "0.007943".to_string(),
        color: "chartreuse".to_string(),
        sample_rate: 16_000,
    };
    let step = mix_room_tone("speech.wav", "mixed.wav", &options, &[yes(), yes()]);
    assert!(matches!(step, Step::Finish(Err(AudioHelperError::UnsupportedNoiseColor(_)))));
}

#[test]
fn generates_a_wav_of_the_requested_duration() {
    let step = generate_silence(Some(500_000), "silence.wav", Some("wav"), 16_000, &[]);
    match step {
        Step::Perform(Request::WriteSilentWav { path, sample_rate, samples }) => {
            assert_eq!(path, "silence.wav");
            assert_eq!(sample_rate, 16_000);
            assert_eq!(samples, 8_000);
        }
        other => panic!("unexpected {:?}", other),
    }
    let silent = Reply::Silence(Ok(SilenceLevel { silent: true, level: "0".to_string() }));
    let step = generate_silence(Some(500_000), "silence.wav", Some("wav"), 16_000, &[ran(), yes(), yes(), silent]);
    assert!(matches!(step, Step::Finish(Ok(()))));
}

#[test]
fn generates_a_non_wav_container() {
    let mut replies = vec![Reply::TempPath(Ok("/tmp/x.wav".to_string()))];
    match generate_silence(Some(300_000), "silence.mp3", Some("mp3"), 44_100, &replies) {
        Step::Perform(Request::WriteSilentWav { path, samples, .. }) => {
            assert_eq!(path, "/tmp/x.wav");
            assert_eq!(samples, 13_230);
        }
        other => panic!("unexpected {:?}", other),
    }
    replies.push(ran());
    replies.push(yes());
    replies.push(yes());
    let args = ffmpeg_args_of(generate_silence(Some(300_000), "silence.mp3", Some("mp3"), 44_100, &replies));
    assert_eq!(
        args,
        strings(&["-y", "-hide_banner", "-loglevel", "error", "-i", "/tmp/x.wav", "-ar", "44100", "-ac", "1", "silence.mp3"])
    );
    replies.extend([ran(), yes(), yes()]);
    match generate_silence(Some(300_000), "silence.mp3", Some("mp3"), 44_100, &replies) {
        Step::Perform(Request::RemoveTemp(path)) => assert_eq!(path, "/tmp/x.wav"),
        other => panic!("unexpected {:?}", other),
    }
    replies.extend([ran(), yes(), yes()]);
    assert!(matches!(
        generate_silence(Some(300_000), "silence.mp3", Some("mp3"), 44_100, &replies),
        Step::Perform(Request::CheckSilence(_))
    ));
    replies.push(Reply::Silence(Ok(SilenceLevel { silent: true, level: "0".to_string() })));
    assert!(matches!(
        generate_silence(Some(300_000), "silence.mp3", Some("mp3"), 44_100, &replies),
        Step::Finish(Ok(()))
    ));
}

#[test]
fn temporary_wav_is_removed_when_writing_it_fails() {
    let failed = Reply::Done(Err(AudioHelperError::Io("disk full".to_string())));
    let mut replies = vec![Reply::TempPath(Ok("/tmp/y.wav".to_string())), failed];
    match generate_silence(Some(300_000), "s.ogg", Some("ogg"), 8_000, &replies) {
        Step::Perform(Request::RemoveTemp(path)) => assert_eq!(path, "/tmp/y.wav"),
        other => panic!("unexpected {:?}", other),
    }
    replies.push(ran());
    match generate_silence(Some(300_000), "s.ogg", Some("ogg"), 8_000, &replies) {
        Step::Finish(Err(AudioHelperError::Io(m))) => assert_eq!(m, "disk full"),
        other => panic!("unexpected {:?}", other),
    }
}

#[test]
fn temporary_wav_is_removed_when_converting_it_fails() {
    let boom = Reply::Done(Err(AudioHelperError::Ffmpeg("boom".to_string())));
    let mut replies = vec![Reply::TempPath(Ok("/tmp/z.wav".to_string())), ran(), yes(), yes(), boom];
    match generate_silence(Some(300_000), "s.ogg", Some("ogg"), 8_000, &replies) {
        Step::Perform(Request::RemoveTemp(path)) => assert_eq!(path, "/tmp/z.wav"),
        other => panic!("unexpected {:?}", other),
    }
    replies.push(Reply::Done(Err(AudioHelperError::Io("busy".to_string()))));
    match generate_silence(Some(300_000), "s.ogg", Some("ogg"), 8_000, &replies) {
        Step::Finish(Err(AudioHelperError::Ffmpeg(m))) => assert_eq!(m, "boom"),
        other => panic!("unexpected {:?}", other),
    }
}

#[test]
fn silence_that_is_not_silent_is_reported() {
    let loud = Reply::Silence(Ok(SilenceLevel { silent: false, level: "1.5".to_string() }));
    match generate_silence(Some(500_000), "s.wav", Some("wav"), 16_000, &[ran(), yes(), yes(), loud]) {
        Step::Finish(Err(AudioHelperError::Ffmpeg(m))) => {
            assert_eq!(m, "generated silence at s.wav is not actually silent (sum(|x|) = 1.5)")
        }
        other => panic!("unexpected {:?}", other),
    }
}

#[test]
fn rejects_non_positive_duration() {
    let step = generate_silence(Some(0), "silence.wav", Some("wav"), 16_000, &[]);
    assert!(matches!(step, Step::Finish(Err(AudioHelperError::InvalidDuration(Some(0))))));
}

fn split_to_end(duration: u64, chunk: i128, replies: &mut Vec<Reply>) -> Step<Vec<String>> {
    loop {
        let step = split_regularly("dir/in.wav", "chunks", Some(chunk), "wav", "split", Some("in"), replies);
        match step {
            Step::Perform(Request::IsFile(_)) | Step::Perform(Request::IsValidAudio(_)) => replies.push(yes()),
            Step::Perform(Request::CreateDir(_)) | Step::Perform(Request::RunFfmpeg(_)) => replies.push(ran()),
            Step::Perform(Request::AudioDuration(_)) => replies.push(Reply::Duration(Ok(duration))),
            other => return other,
        }
    }
}

#[test]
fn splits_into_regular_chunks() {
    let mut replies = Vec::new();
    let step = split_to_end(3_500_000, 1_000_000, &mut replies);
    match step {
        Step::Finish(Ok(paths)) => {
            assert_eq!(paths.len(), 3);
            assert_eq!(paths, strings(&["chunks/in_split_0.wav", "chunks/in_split_1.wav", "chunks/in_split_2.wav"]));
        }
        other => panic!("unexpected {:?}", other),
    }
}

#[test]
fn a_file_shorter_than_one_second_still_yields_one_chunk() {
    let mut replies = Vec::new();
    match split_to_end(300_000, 5_000_000, &mut replies) {
        Step::Finish(Ok(paths)) => assert_eq!(paths.len(), 1),
        other => panic!("unexpected {:?}", other),
    }
}

#[test]
fn split_rejects_non_positive_chunks() {
    let step = split_regularly("in.wav", "out", Some(-1), "wav", "s", None, &[yes(), yes()]);
    assert!(matches!(step, Step::Finish(Err(AudioHelperError::InvalidDuration(Some(-1))))));
}

#[test]
fn split_cuts_the_second_chunk_where_the_first_ends() {
    let mut replies = vec![yes(), yes(), ran(), Reply::Duration(Ok(2_500_000)), yes(), yes(), Reply::Duration(Ok(2_500_000))];
    let args = ffmpeg_args_of(match split_regularly("in.wav", "out/", Some(1_000_000), ".mp3", "s", None, &replies) {
        Step::Perform(q) => Step::Perform(q),
        Step::Finish(r) => Step::Finish(r.map(|_| ())),
    });
    assert_eq!(args[4..], strings(&["-ss", "0", "-i", "in.wav", "-t", "1", "out/audio_s_0.mp3"])[..]);
    replies.extend([ran(), yes(), yes(), yes(), yes(), Reply::Duration(Ok(2_500_000))]);
    let args = ffmpeg_args_of(match split_regularly("in.wav", "out/", Some(1_000_000), ".mp3", "s", None, &replies) {
        Step::Perform(q) => Step::Perform(q),
        Step::Finish(r) => Step::Finish(r.map(|_| ())),
    });
    assert_eq!(args[4..], strings(&["-ss", "1", "-i", "in.wav", "-t", "1", "out/audio_s_1.mp3"])[..]);
}

#[test]
fn convert_overwrites_an_output_that_is_not_valid_audio() {
    let options = ConvertOptions { overwrite: false, ..Default::default() };
    let step = convert("in.wav", "out.wav", Some("wav"), &options, &[yes(), yes(), yes(), no()]);
    assert!(matches!(step, Step::Perform(Request::RunFfmpeg(_))));
    let step = convert("in.wav", "out.wav", Some("wav"), &options, &[yes(), yes(), no()]);
    assert!(matches!(step, Step::Perform(Request::RunFfmpeg(_))));
}

#[test]
fn convert_rejects_an_input_that_is_not_audio() {
    let step = convert("notes.txt", "out.wav", Some("wav"), &ConvertOptions::default(), &[yes(), no()]);
    assert!(matches!(step, Step::Finish(Err(AudioHelperError::InvalidAudioFile(ref p))) if p == "notes.txt"));
}

#[test]
fn ffmpeg_failure_ends_an_operation_with_its_error() {
    let replies = vec![yes(), yes(), Reply::Done(Err(AudioHelperError::Ffmpeg("boom".to_string())))];
    let step = convert("in.wav", "out.wav", Some("wav"), &ConvertOptions::default(), &replies);
    assert!(matches!(step, Step::Finish(Err(AudioHelperError::Ffmpeg(ref m))) if m == "boom"));
}

#[test]
fn splits_half_second_chunks_of_a_three_second_file() {
    let mut replies = Vec::new();
    match split_to_end(3_000_000, 500_000, &mut replies) {
        Step::Finish(Ok(paths)) => {
            assert_eq!(paths.len(), 6);
            for (i, p) in paths.iter().enumerate() {
                assert_eq!(*p, format!("chunks/in_split_{i}.wav"));
            }
        }
        other => panic!("unexpected {:?}", other),
    }
}

#[test]
fn split_rejects_a_chunk_length_that_is_not_a_number() {
    let step = split_regularly("in.wav", "out", None, "wav", "s", None, &[yes(), yes()]);
    assert!(matches!(step, Step::Finish(Err(AudioHelperError::InvalidDuration(None)))));
}

#[test]
fn silence_rejects_a_duration_that_is_not_a_number() {
    let step = generate_silence(None, "silence.wav", Some("wav"), 16_000, &[]);
    assert!(matches!(step, Step::Finish(Err(AudioHelperError::InvalidDuration(None)))));
}

#[test]
fn a_reply_of_the_wrong_kind_is_a_failure() {
    let step = extract_chunk("in.wav", Some(0), Some(1), "o.wav", &[yes(), yes(), yes()]);
    assert!(matches!(step, Step::Finish(Err(AudioHelperError::UnexpectedReply))));
    let step = convert("in.wav", "out.wav", Some("wav"), &ConvertOptions::default(), &[yes(), yes(), yes()]);
    assert!(matches!(step, Step::Finish(Err(AudioHelperError::UnexpectedReply))));
    let step = split_regularly("in.wav", "out", Some(1_000_000), "wav", "s", None, &[yes(), yes(), ran(), ran()]);
    assert!(matches!(step, Step::Finish(Err(AudioHelperError::UnexpectedReply))));
}
