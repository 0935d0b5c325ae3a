use stt_app::docx::{
    clock_text, render_docx, transcript_docx, transcript_paragraphs, DocParagraph, DocRun,
    TranscriptData, TranscriptEntry,
};
use stt_app::sarvam::{
    content_type_for, exhausted_message, DownloadResponse, RetryState, SarvamCall, SignedUrl,
    UploadResponse,
};
use stt_app::commands::SettingWrite;
use stt_app::state::{api_key_fallback_write, api_key_from, keychain_key, RunTokens, KEY_API_KEY};

#[test]
fn content_types_ignore_case() {
    assert_eq!(content_type_for("mp3"), "audio/mpeg");
    assert_eq!(content_type_for("MP3"), "audio/mpeg");
    assert_eq!(content_type_for("Wav"), "audio/wav");
    assert_eq!(content_type_for("m4a"), "audio/aac");
    assert_eq!(content_type_for("AAC"), "audio/aac");
    assert_eq!(content_type_for("flac"), "audio/flac");
    assert_eq!(content_type_for("Opus"), "audio/ogg");
    assert_eq!(content_type_for("ogg"), "audio/ogg");
    assert_eq!(content_type_for("webm"), "audio/webm");
    assert_eq!(content_type_for("txt"), "application/octet-stream");
    assert_eq!(content_type_for(""), "application/octet-stream");
}

#[test]
fn calls_go_to_their_urls() {
    assert_eq!(SarvamCall::Initialise.url(), "https://api.sarvam.ai/speech-to-text/job/v1");
    assert_eq!(
        SarvamCall::UploadLinks.url(),
        "https://api.sarvam.ai/speech-to-text/job/v1/upload-files"
    );
    assert_eq!(
        SarvamCall::Start { job_id: "j1".into() }.url(),
        "https://api.sarvam.ai/speech-to-text/job/v1/j1/start"
    );
    assert_eq!(
        SarvamCall::Status { job_id: "j1".into() }.url(),
        "https://api.sarvam.ai/speech-to-text/job/v1/j1/status"
    );
    assert_eq!(
        SarvamCall::DownloadLinks.url(),
        "https://api.sarvam.ai/speech-to-text/job/v1/download-files"
    );
    assert_eq!(SarvamCall::UploadPut { url: "https://blob/x".into() }.url(), "https://blob/x");
    assert_eq!(SarvamCall::Status { job_id: "j".into() }.label(), "status");
    assert_eq!(SarvamCall::DownloadGet { url: "u".into() }.label(), "download-get");
}

#[test]
fn api_key_goes_only_to_sarvam() {
    let calls = vec![
        SarvamCall::Initialise,
        SarvamCall::UploadLinks,
        SarvamCall::UploadPut { url: "https://blob.core.windows.net/a?sig".into() },
        SarvamCall::Start { job_id: "j".into() },
        SarvamCall::Status { job_id: "j".into() },
        SarvamCall::DownloadLinks,
        SarvamCall::DownloadGet { url: "https://blob.core.windows.net/b?sig".into() },
    ];
    for c in &calls {
        if c.sends_api_key() {
            assert!(c.url().starts_with("https://api.sarvam.ai"));
        }
    }
    assert!(!calls[2].sends_api_key());
    assert!(!calls[6].sends_api_key());
    assert!(calls[0].sends_api_key());
}

#[test]
fn retry_waits_double_and_stop_after_five_attempts() {
    let mut s = RetryState::first();
    let mut waits = Vec::new();
    while let Some((w, next)) = s.after_failure() {
        waits.push(w);
        s = next;
    }
    assert_eq!(waits, vec![2, 4, 8, 16]);
    assert_eq!(s.attempt, 5);
    assert_eq!(exhausted_message("status"), "status failed after 5 attempts");
}

#[test]
fn url_tables_look_up_by_name() {
    let up = UploadResponse {
        upload_urls: vec![
            ("a.mp3".into(), SignedUrl { file_url: "https://u/a".into() }),
            ("b.mp3".into(), SignedUrl { file_url: "https://u/b".into() }),
        ],
    };
    assert_eq!(up.url_for("b.mp3").as_deref(), Some("https://u/b"));
    assert_eq!(up.url_for("c.mp3"), None);
    let down = DownloadResponse { download_urls: vec![] };
    assert_eq!(down.url_for("x"), None);
}

#[test]
fn clock_times() {
    assert_eq!(clock_text(0), "00:00");
    assert_eq!(clock_text(59), "00:59");
    assert_eq!(clock_text(61), "01:01");
    assert_eq!(clock_text(3599), "59:59");
    assert_eq!(clock_text(3600), "01:00:00");
    assert_eq!(clock_text(3725), "01:02:05");
    assert_eq!(clock_text(36000), "10:00:00");
    assert_eq!(clock_text(-1), "00:-1");
    assert_eq!(clock_text(-75), "-1:-15");
}

fn texts(d: &stt_app::docx::DocParagraph) -> Vec<String> {
    d.runs.iter().map(|r| r.text.clone()).collect()
}

#[test]
fn document_from_diarized_entries() {
    let data = TranscriptData {
        language_code: Some("hi-IN".into()),
        entries: Some(vec![
            TranscriptEntry {
                start_secs: 0,
                end_secs: 4,
                speaker: Some("0".into()),
                text: Some("Namaste".into()),
            },
            TranscriptEntry { start_secs: 3700, end_secs: 3702, speaker: None, text: None },
        ]),
        transcript: Some("ignored".into()),
    };
    let doc = transcript_paragraphs(&data, "call.mp3", "saaras:v3", "2024-05-01T10:00:00Z");
    assert_eq!(doc.len(), 5);
    assert_eq!(texts(&doc[0]), vec!["call.mp3"]);
    assert!(doc[0].runs[0].bold && doc[0].runs[0].size == Some(32));
    assert_eq!(
        texts(&doc[1]),
        vec!["Model: saaras:v3 | Generated: 2024-05-01T10:00:00Z | Detected language: hi-IN"]
    );
    assert!(doc[1].runs[0].italic && doc[1].runs[0].size == Some(18));
    assert!(doc[2].runs.is_empty());
    assert_eq!(texts(&doc[3]), vec!["[00:00-00:04] Speaker 0: ", "Namaste"]);
    assert!(doc[3].runs[0].bold && !doc[3].runs[1].bold);
    assert_eq!(texts(&doc[4]), vec!["[01:01:40-01:01:42] Speaker ?: ", ""]);
}

#[test]
fn document_falls_back_to_plain_lines() {
    let data = TranscriptData {
        language_code: None,
        entries: Some(vec![]),
        transcript: Some("line one\nline two".into()),
    };
    let doc = transcript_paragraphs(&data, "a.wav", "m", "t");
    assert_eq!(texts(&doc[1]), vec!["Model: m | Generated: t"]);
    assert_eq!(doc.len(), 5);
    assert_eq!(texts(&doc[3]), vec!["line one"]);
    assert_eq!(texts(&doc[4]), vec!["line two"]);
    let empty = TranscriptData { language_code: None, entries: None, transcript: None };
    let doc2 = transcript_paragraphs(&empty, "a.wav", "m", "t");
    assert_eq!(doc2.len(), 4);
    assert_eq!(texts(&doc2[3]), vec!["(empty transcript)"]);
}

#[test]
fn rendered_document_is_a_zip_archive() {
    let data = TranscriptData { language_code: None, entries: None, transcript: Some("hi".into()) };
    let doc = transcript_paragraphs(&data, "a.wav", "m", "t");
    let bytes = render_docx(&doc).ok().unwrap();
    assert!(bytes.len() > 100);
    assert_eq!(&bytes[..2], b"PK");
}

#[test]
fn tokens_count_per_run_and_cancel_together() {
    let mut reg = RunTokens::new();
    let t1 = reg.register_token("run-a");
    let t2 = reg.register_token("run-a");
    let t3 = reg.register_token("run-b");
    assert_eq!(reg.tokens_for("run-a"), 2);
    assert_eq!(reg.tokens_for("run-b"), 1);
    assert_eq!(reg.tokens_for("run-c"), 0);
    reg.cancel_run("run-a");
    assert!(t1.is_cancelled() && t2.is_cancelled());
    assert!(!t3.is_cancelled());
    reg.cancel_run("missing");
    assert!(!t3.is_cancelled());
}

#[test]
fn keychain_password_used_only_when_not_empty() {
    assert_eq!(keychain_key(Some("k".into())).as_deref(), Some("k"));
    assert_eq!(keychain_key(Some(String::new())), None);
    assert_eq!(keychain_key(None), None);
}

#[test]
fn api_key_prefers_a_non_empty_keychain_password() {
    assert_eq!(api_key_from(Some("kc".into()), Some("db".into())).as_deref(), Some("kc"));
    assert_eq!(api_key_from(Some(String::new()), Some("db".into())).as_deref(), Some("db"));
    assert_eq!(api_key_from(None, Some("db".into())).as_deref(), Some("db"));
    assert_eq!(api_key_from(None, None), None);
    assert_eq!(api_key_from(Some(String::new()), None), None);
}

#[test]
fn api_key_fallback_follows_the_keychain() {
    match api_key_fallback_write(true, "secret") {
        SettingWrite::Delete { key } => assert_eq!(key, KEY_API_KEY),
        SettingWrite::Put { .. } => panic!("expected a delete"),
    }
    match api_key_fallback_write(false, "secret") {
        SettingWrite::Put { key, value } => {
            assert_eq!(key, "api_key");
            assert_eq!(value, "secret");
        }
        SettingWrite::Delete { .. } => panic!("expected a put"),
    }
}

/// The paragraphs of a packed document: each run's text, bold, italic, and
/// whether it has a size.
fn read_back(bytes: &[u8]) -> Vec<Vec<(String, bool, bool, bool)>> {
    let doc = docx_rs::read_docx(bytes).unwrap();
    let mut out = Vec::new();
    for child in &doc.document.children {
        if let docx_rs::DocumentChild::Paragraph(p) = child {
            let mut runs = Vec::new();
            for pc in &p.children {
                if let docx_rs::ParagraphChild::Run(r) = pc {
                    let mut text = String::new();
                    for rc in &r.children {
                        if let docx_rs::RunChild::Text(t) = rc {
                            text.push_str(&t.text);
                        }
                    }
                    runs.push((
                        text,
                        r.run_property.bold.is_some(),
                        r.run_property.italic.is_some(),
                        r.run_property.sz.is_some(),
                    ));
                }
            }
            out.push(runs);
        }
    }
    out
}

#[test]
fn packed_document_holds_the_paragraphs() {
    let doc = vec![
        DocParagraph {
            runs: vec![DocRun { text: "Head".into(), bold: true, italic: false, size: Some(32) }],
        },
        DocParagraph {
            runs: vec![
                DocRun { text: "a\nb".into(), bold: false, italic: true, size: None },
                DocRun { text: "c".into(), bold: false, italic: false, size: None },
                DocRun { text: "x\r\ny & <z>".into(), bold: false, italic: false, size: None },
            ],
        },
    ];
    let bytes = render_docx(&doc).ok().unwrap();
    assert_eq!(
        read_back(&bytes),
        vec![
            vec![("Head".to_string(), true, false, true)],
            vec![
                ("ab".to_string(), false, true, false),
                ("c".to_string(), false, false, false),
                ("xy & <z>".to_string(), false, false, false),
            ],
        ]
    );
}

#[test]
fn transcript_document_from_entries() {
    let data = TranscriptData {
        language_code: None,
        entries: Some(vec![TranscriptEntry {
            start_secs: 60,
            end_secs: 3600,
            speaker: Some("1".into()),
            text: Some("hi".into()),
        }]),
        transcript: None,
    };
    let bytes = transcript_docx(&data, "a.mp3", "m", "g").ok().unwrap();
    let texts: Vec<String> = read_back(&bytes)
        .iter()
        .map(|p| p.iter().map(|r| r.0.clone()).collect::<String>())
        .collect();
    assert_eq!(texts, vec!["a.mp3", "Model: m | Generated: g", "", "[01:00-01:00:00] Speaker 1: hi"]);
}

#[test]
fn stored_api_key_reads_back() {
    for keychain_took in [true, false] {
        let mut settings: std::collections::HashMap<String, String> =
            std::collections::HashMap::new();
        settings.insert("api_key".into(), "old".into());
        match api_key_fallback_write(keychain_took, "secret") {
            SettingWrite::Put { key, value } => {
                settings.insert(key.into(), value);
            }
            SettingWrite::Delete { key } => {
                settings.remove(key);
            }
        }
        let keychain = if keychain_took { Some("secret".to_string()) } else { None };
        let stored = settings.get("api_key").cloned();
        assert_eq!(stored.is_none(), keychain_took);
        assert_eq!(api_key_from(keychain, stored).as_deref(), Some("secret"));
    }
}
