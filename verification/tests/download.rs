use tasmota_mqtt_client::download::{
    chunk_request_token, command_topic, status_from_fields, status_topic, DownloadState,
    DownloadStep, JsonField, StatusMessage,
};
use tasmota_mqtt_client::DownloadError;

// md5(b"abcd")
const MD5_ABCD: [u8; 16] = [
    0xe2, 0xfc, 0x71, 0x4c, 0x47, 0x27, 0xee, 0x93, 0x95, 0xf3, 0x24, 0xcd, 0x2e, 0x7f, 0x33,
    0x1f,
];

#[test]
fn download_happy_path() {
    let mut state = DownloadState::new();
    let step = state.apply_message(
        br#"{"File":"f.dmp","Size":4,"Md5":"e2fc714c4727ee9395f324cd2e7f331f"}"#,
    );
    assert_eq!(step, DownloadStep::AwaitNext);
    let step = state.apply_message(br#"{"FileDownload":"Started"}"#);
    assert_eq!(step, DownloadStep::AwaitNext);
    let step = state.apply_message(b"ab");
    assert_eq!(step, DownloadStep::RequestChunk);
    let step = state.apply_message(b"cd");
    assert_eq!(step, DownloadStep::RequestChunk);
    let step = state.apply_message(br#"{"FileDownload":"Done"}"#);
    assert_eq!(step, DownloadStep::Completed);
    let file = state.finish().expect("the artifact must validate");
    assert_eq!(file.name, "f.dmp");
    assert_eq!(file.data, b"abcd".to_vec());
    assert_eq!(file.md5, MD5_ABCD);
}

#[test]
fn download_length_mismatch() {
    let mut state = DownloadState::new();
    state.apply_message(
        br#"{"File":"f.dmp","Size":4,"Md5":"e2fc714c4727ee9395f324cd2e7f331f"}"#,
    );
    state.apply_message(br#"{"FileDownload":"Started"}"#);
    state.apply_message(b"ab");
    let step = state.apply_message(br#"{"FileDownload":"Done"}"#);
    assert_eq!(step, DownloadStep::Completed);
    let err = state.finish().expect_err("two bytes cannot pass a declared size of four");
    assert_eq!(err, DownloadError::MismatchedLength(4, 2));
}

#[test]
fn download_hash_mismatch() {
    let mut state = DownloadState::new();
    state.apply_message(
        br#"{"File":"f.dmp","Size":4,"Md5":"00000000000000000000000000000000"}"#,
    );
    state.apply_message(b"ab");
    state.apply_message(b"cd");
    state.apply_message(br#"{"FileDownload":"Done"}"#);
    let err = state.finish().expect_err("a zero digest cannot match the data");
    match err {
        DownloadError::MismatchedHash(expected, got) => {
            assert_eq!(expected, [0u8; 16]);
            assert_eq!(got, MD5_ABCD);
        }
        other => panic!("expected a hash mismatch, got {other:?}"),
    }
}

#[test]
fn error_codes_map_to_named_errors() {
    let cases: [(&[u8], DownloadError); 4] = [
        (
            br#"{"FileDownload":"Error 1"}"#,
            DownloadError::InvalidPassword,
        ),
        (br#"{"FileDownload":"Error 2"}"#, DownloadError::BadChunkSize),
        (
            br#"{"FileDownload":"Error 3"}"#,
            DownloadError::InvalidFileType,
        ),
        (
            br#"{"FileDownload":"Aborted"}"#,
            DownloadError::DownloadAborted,
        ),
    ];
    for (payload, expected) in cases {
        let mut state = DownloadState::new();
        let step = state.apply_message(payload);
        assert_eq!(step, DownloadStep::Failed(expected));
    }
}

#[test]
fn malformed_digest_fails_the_transfer() {
    let mut state = DownloadState::new();
    let step = state.apply_message(br#"{"Md5":"zz"}"#);
    assert_eq!(step, DownloadStep::Failed(DownloadError::InvalidHash));
    let mut state = DownloadState::new();
    let step = state.apply_message(br#"{"Md5":"e2fc714c4727ee9395f324cd2e7f331"}"#);
    assert_eq!(step, DownloadStep::Failed(DownloadError::InvalidHash));
}

#[test]
fn status_fields_update_the_state() {
    let mut state = DownloadState::new();
    let status = StatusMessage {
        file_download: None,
        file: Some("config.dmp".to_string()),
        size: Some(2048),
        id: Some(7),
        ty: Some(2),
        md5: None,
    };
    let step = state.apply_status(&status);
    assert_eq!(step, DownloadStep::RequestChunk);
    assert_eq!(state.name, "config.dmp");
    assert_eq!(state.size, 2048);
    assert_eq!(state.id, 7);
    assert_eq!(state.ty, 2);
    assert!(state.data.is_empty());
}

#[test]
fn unknown_status_word_falls_through_to_the_fields() {
    let mut state = DownloadState::new();
    let step = state.apply_message(br#"{"FileDownload":"Waiting","Size":9}"#);
    assert_eq!(step, DownloadStep::RequestChunk);
    assert_eq!(state.size, 9);
}

#[test]
fn json_that_is_not_an_object_is_a_chunk() {
    let mut state = DownloadState::new();
    let step = state.apply_message(b"42");
    assert_eq!(step, DownloadStep::RequestChunk);
    let step = state.apply_message(b"\"ab\"");
    assert_eq!(step, DownloadStep::RequestChunk);
    assert_eq!(state.data, b"42\"ab\"".to_vec());
}

#[test]
fn wrongly_typed_fields_make_the_payload_a_chunk() {
    let mut state = DownloadState::new();
    let payload: &[u8] = br#"{"Size":"four"}"#;
    let step = state.apply_message(payload);
    assert_eq!(step, DownloadStep::RequestChunk);
    assert_eq!(state.size, 0);
    assert_eq!(state.data, payload.to_vec());

    let mut state = DownloadState::new();
    let step = state.apply_message(br#"{"Size":5000000000}"#);
    assert_eq!(step, DownloadStep::RequestChunk);
    assert_eq!(state.size, 0);
    assert!(!state.data.is_empty());

    let mut state = DownloadState::new();
    let step = state.apply_message(br#"{"FileDownload":2}"#);
    assert_eq!(step, DownloadStep::RequestChunk);
    assert!(!state.data.is_empty());
}

#[test]
fn null_fields_count_as_absent() {
    let mut state = DownloadState::new();
    let step = state.apply_message(br#"{"File":null,"Size":4}"#);
    assert_eq!(step, DownloadStep::RequestChunk);
    assert_eq!(state.name, "");
    assert_eq!(state.size, 4);
    assert!(state.data.is_empty());
}

#[test]
fn started_does_not_touch_the_state() {
    let mut state = DownloadState::new();
    state.apply_message(br#"{"Size":4}"#);
    let step = state.apply_message(br#"{"FileDownload":"Started","Size":9}"#);
    assert_eq!(step, DownloadStep::AwaitNext);
    assert_eq!(state.size, 4);
}

#[test]
fn field_list_decodes_to_a_status_message() {
    let fields = vec![
        ("File".to_string(), JsonField::Text("f.dmp".to_string())),
        ("Size".to_string(), JsonField::Number(4)),
        ("Extra".to_string(), JsonField::Other),
    ];
    let m = status_from_fields(&fields).expect("well-typed fields must decode");
    assert_eq!(m.file.as_deref(), Some("f.dmp"));
    assert_eq!(m.size, Some(4));
    assert_eq!(m.file_download, None);
    assert_eq!(m.md5, None);

    let bad = vec![("Md5".to_string(), JsonField::Number(1))];
    assert!(status_from_fields(&bad).is_none());
}

#[test]
fn download_topics_and_request_token() {
    assert_eq!(status_topic("dev1"), "stat/dev1/FILEDOWNLOAD");
    assert_eq!(command_topic("dev1"), "cmnd/dev1/FILEDOWNLOAD");
    assert_eq!(chunk_request_token(), "?");
}

#[test]
fn fresh_state_is_empty() {
    let state = DownloadState::new();
    assert_eq!(state.name, "");
    assert_eq!(state.size, 0);
    assert_eq!(state.ty, 0);
    assert_eq!(state.id, 0);
    assert!(state.data.is_empty());
    assert_eq!(state.md5, [0u8; 16]);
}
