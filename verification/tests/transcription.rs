use serde_json::Value;
use toodles::json::Json;
use toodles::telegram_api::{draft_failure, send_message_draft};
use toodles::transcription::{
    audio_file_names, authorization, clean_transcript, decode_samples, default_models_dir,
    ffmpeg_args, ffmpeg_failure, is_model_downloaded, model_missing, model_path, model_plan,
    whisper_failure, DownloadStep, ModelDownload, ModelPlan, MODEL_SIZE_MB,
};

const MODEL: &str = "/m/parakeet-tdt-0.6b-v3-int8";

#[test]
fn model_has_its_place() {
    assert_eq!(default_models_dir(Some("/home/u")), "/home/u/.toodles/models");
    assert_eq!(default_models_dir(None), "./.toodles/models");
    assert_eq!(model_path("/m"), MODEL);
    assert_eq!(MODEL_SIZE_MB, 478);
    assert!(is_model_downloaded(true, true));
    assert!(!is_model_downloaded(true, false));
    assert!(!is_model_downloaded(false, false));
    assert_eq!(
        model_missing("/m"),
        format!("Parakeet model not found at {MODEL}. Run `toodles --setup` to download it.")
    );
}

#[test]
fn model_is_loaded_where_it_is_wanted() {
    assert_eq!(model_plan(false, true), ModelPlan::Unused);
    assert_eq!(model_plan(false, false), ModelPlan::Unused);
    assert_eq!(model_plan(true, true), ModelPlan::Load);
    assert_eq!(model_plan(true, false), ModelPlan::DownloadAndLoad);
}

#[test]
fn download_goes_from_request_to_installation() {
    let mut d = ModelDownload::new("/m");
    assert_eq!(d.directory_failure(), "Failed to create models dir: /m");
    assert!(matches!(d.begin(true, true), DownloadStep::AlreadyThere));
    assert!(matches!(
        d.begin(true, false),
        DownloadStep::Request(url) if url == "https://s3.crispy.fyi/models/parakeet-v3-int8.tar.gz"
    ));
    assert!(matches!(
        d.answered(true, "200 OK", Some(10)),
        DownloadStep::Store(path) if path == format!("{MODEL}.tar.gz.partial")
    ));
    assert_eq!(d.total_size(), 10);
    assert_eq!(d.add_chunk(4), 4);
    assert_eq!(d.add_chunk(6), 10);
    assert_eq!(d.downloaded(), 10);
    match d.stored(10) {
        DownloadStep::Unpack { archive, into } => {
            assert_eq!(archive, format!("{MODEL}.tar.gz.partial"));
            assert_eq!(into, format!("{MODEL}.extracting"));
        }
        other => panic!("{other:?}"),
    }
    assert!(matches!(
        d.unpacked(None),
        DownloadStep::List(dir) if dir == format!("{MODEL}.extracting")
    ));
    match d.listed(&["/x/model".to_string()]) {
        DownloadStep::Install {
            source,
            target,
            leftovers,
        } => {
            assert_eq!(source, "/x/model");
            assert_eq!(target, MODEL);
            assert_eq!(
                leftovers,
                vec![format!("{MODEL}.extracting"), format!("{MODEL}.tar.gz.partial")]
            );
        }
        other => panic!("{other:?}"),
    }
    match d.listed(&[]) {
        DownloadStep::Install {
            source, leftovers, ..
        } => {
            assert_eq!(source, format!("{MODEL}.extracting"));
            assert_eq!(leftovers, vec![format!("{MODEL}.tar.gz.partial")]);
        }
        other => panic!("{other:?}"),
    }
}

#[test]
fn download_fails_for_three_reasons() {
    let mut d = ModelDownload::new("/m");
    match d.answered(false, "404 Not Found", None) {
        DownloadStep::Fail { error, remove } => {
            assert_eq!(error, "Download failed: HTTP 404 Not Found");
            assert_eq!(remove, None);
        }
        other => panic!("{other:?}"),
    }
    d.answered(true, "200 OK", Some(10));
    match d.stored(9) {
        DownloadStep::Fail { error, remove } => {
            assert_eq!(error, "Download incomplete: expected 10 bytes, got 9 bytes");
            assert_eq!(remove, Some(format!("{MODEL}.tar.gz.partial")));
        }
        other => panic!("{other:?}"),
    }
    match d.unpacked(Some("bad gzip")) {
        DownloadStep::Fail { error, remove } => {
            assert_eq!(error, "Failed to extract archive: bad gzip");
            assert_eq!(remove, Some(format!("{MODEL}.extracting")));
        }
        other => panic!("{other:?}"),
    }
    d.answered(true, "200 OK", None);
    assert!(matches!(d.stored(9), DownloadStep::Unpack { .. }));
}

#[test]
fn samples_are_little_endian() {
    let raw = [0x01, 0x00, 0xff, 0xff, 0x00, 0x80, 0xff, 0x7f, 0x55];
    assert_eq!(decode_samples(&raw), Ok(vec![1, -1, i16::MIN, i16::MAX]));
    for low in [0u8, 1, 127, 128, 255] {
        for high in [0u8, 1, 127, 128, 255] {
            assert_eq!(
                decode_samples(&[low, high]),
                Ok(vec![i16::from_le_bytes([low, high])])
            );
        }
    }
    for raw in [&[][..], &[7][..]] {
        assert_eq!(
            decode_samples(raw),
            Err("No audio samples decoded from OGG".to_string())
        );
    }
}

#[test]
fn audio_is_converted_by_ffmpeg() {
    let (input, output) = audio_file_names(12, 345);
    assert_eq!(input, "toodles_12_345.ogg");
    assert_eq!(output, "toodles_12_345.raw");
    assert_eq!(
        ffmpeg_args("/i", "/o").join(" "),
        "-y -i /i -f s16le -acodec pcm_s16le -ar 16000 -ac 1 /o"
    );
    assert_eq!(ffmpeg_failure("exit status: 1"), "ffmpeg exited with status: exit status: 1");
}

#[test]
fn cloud_transcription_is_asked_with_a_key() {
    assert_eq!(authorization("k"), "Bearer k");
    assert_eq!(
        whisper_failure("401 Unauthorized", "no"),
        "Whisper API returned 401 Unauthorized: no"
    );
    assert_eq!(clean_transcript("  hi \n"), "hi");
}

fn value_of(json: &Json) -> Value {
    match json {
        Json::Null => Value::Null,
        Json::OtherNumber(n) => Value::Number(n.clone()),
        Json::Bool(b) => Value::from(*b),
        Json::UInt(n) => Value::from(*n),
        Json::NegInt(n) => Value::from(*n),
        Json::Str(s) => Value::from(s.as_str()),
        Json::Array(items) => Value::Array(items.iter().map(value_of).collect()),
        Json::Object(fields) => Value::Object(
            fields
                .iter()
                .map(|(k, v)| (k.clone(), value_of(v)))
                .collect(),
        ),
    }
}

#[test]
fn drafts_are_posted_to_the_bot_api() {
    let call = send_message_draft("123:abc", -5, 9, "hi", Some(4));
    assert_eq!(call.url, "https://api.telegram.org/bot123:abc/sendMessageDraft");
    assert_eq!(
        value_of(&call.body).to_string(),
        r#"{"chat_id":-5,"draft_id":9,"message_thread_id":4,"text":"hi"}"#
    );
    let call = send_message_draft("t", 0, -1, "", None);
    assert_eq!(
        value_of(&call.body).to_string(),
        r#"{"chat_id":0,"draft_id":-1,"text":""}"#
    );
    assert_eq!(
        draft_failure("400 Bad Request", "x"),
        "sendMessageDraft returned 400 Bad Request: x"
    );
}
