use stt_app::db::{RunFileRow, RunSummaryDto};
use stt_app::runner::{is_active, Effect, Event, FileState, JobTask, Request};
use stt_app::sarvam::{DownloadResponse, FileRef, JobDetail, JobStatus, SignedUrl, UploadResponse};

fn row(id: &str, upload: &str, state: &str) -> RunFileRow {
    RunFileRow {
        id: id.into(),
        run_id: "run-1".into(),
        asset_id: format!("asset-{id}"),
        upload_name: upload.into(),
        stored_path: format!("/audio/{id}.mp3"),
        ext: "MP3".into(),
        state: state.into(),
        transcript_json_path: None,
        docx_path: None,
        original_name: format!("{id}.mp3"),
    }
}

fn run() -> RunSummaryDto {
    RunSummaryDto {
        id: "run-1".into(),
        created_at: "t".into(),
        model: "saaras:v3".into(),
        mode: Some("transcribe".into()),
        default_language: "en-IN".into(),
        with_diarization: true,
        with_timestamps: false,
        num_speakers: Some(2),
        aggregate_state: "queued".into(),
        parent_run_id: None,
        total: 2,
        done: 0,
        failed: 0,
    }
}

fn status(state: &str, details: Option<Vec<JobDetail>>, err: Option<&str>) -> JobStatus {
    JobStatus {
        job_state: state.into(),
        total_files: Some(2),
        successful_files_count: Some(1),
        failed_files_count: Some(0),
        error_message: err.map(|e| e.to_string()),
        job_details: details,
    }
}

fn detail(input: &str, state: &str, output: Option<&str>, err: Option<&str>) -> JobDetail {
    JobDetail {
        inputs: vec![FileRef { file_name: input.into() }],
        outputs: output.map(|o| vec![FileRef { file_name: o.into() }]).unwrap_or_default(),
        state: state.into(),
        error_message: err.map(|e| e.to_string()),
    }
}

fn updates(fx: &[Effect]) -> Vec<(String, FileState, Option<String>)> {
    fx.iter()
        .filter_map(|e| match e {
            Effect::UpdateFile { run_file_id, state, error } => {
                Some((run_file_id.clone(), *state, error.clone()))
            }
            _ => None,
        })
        .collect()
}

#[test]
fn active_states() {
    for s in ["queued", "uploading", "processing", "downloading"] {
        assert!(is_active(s));
    }
    for s in ["done", "failed", "cancelled", "Queued", ""] {
        assert!(!is_active(s));
    }
}

#[test]
fn missing_key_fails_every_file() {
    let (t, rq) = JobTask::fresh("run-1".into(), "en-IN".into(), vec!["a".into(), "b".into()]);
    assert!(matches!(rq, Request::LoadClient));
    let (_t, fx, rq) = t.step(Event::ClientReady(false));
    assert!(matches!(rq, Request::Finish));
    let msg = Some("No Sarvam API key set — open Settings.".to_string());
    assert_eq!(
        updates(&fx),
        vec![("a".into(), FileState::Failed, msg.clone()), ("b".into(), FileState::Failed, msg)]
    );
    assert!(matches!(fx.last(), Some(Effect::EmitRunState)));
}

#[test]
fn create_failure_fails_every_file() {
    let (t, _) = JobTask::fresh("run-1".into(), "en-IN".into(), vec!["a".into()]);
    let (t, _, _) = t.step(Event::ClientReady(true));
    let (t, _, _) = t.step(Event::RowsLoaded(Ok(vec![row("a", "aaaaaaaa_a.mp3", "queued")])));
    let (t, _, _) = t.step(Event::RunLoaded(Some(run())));
    let (_t, fx, rq) = t.step(Event::JobCreated(Err("initialise failed after 5 attempts".into())));
    assert!(matches!(rq, Request::Finish));
    assert_eq!(
        updates(&fx),
        vec![(
            "a".into(),
            FileState::Failed,
            Some("create job failed: initialise failed after 5 attempts".into())
        )]
    );
}

#[test]
fn fresh_job_runs_to_completion() {
    let ids = vec!["a".to_string(), "b".to_string()];
    let (t, _) = JobTask::fresh("run-1".into(), "hi-IN".into(), ids.clone());
    let (t, fx, rq) = t.step(Event::ClientReady(true));
    assert!(fx.is_empty());
    match rq {
        Request::LoadRows { run_file_ids } => assert_eq!(run_file_ids, ids),
        _ => panic!("expected LoadRows"),
    }
    let rows = vec![row("a", "aaaaaaaa_a.mp3", "queued"), row("b", "bbbbbbbb_b.mp3", "queued")];
    let (t, _, rq) = t.step(Event::RowsLoaded(Ok(rows)));
    assert!(matches!(rq, Request::LoadRun));
    let (t, _, rq) = t.step(Event::RunLoaded(Some(run())));
    match &rq {
        Request::CreateJob { params } => {
            assert_eq!(params.language_code.as_deref(), Some("hi-IN"));
            assert_eq!(params.model, "saaras:v3");
            assert_eq!(params.mode.as_deref(), Some("transcribe"));
            assert!(params.with_diarization && !params.with_timestamps);
            assert_eq!(params.num_speakers, Some(2));
        }
        _ => panic!("expected CreateJob"),
    }
    // The job is stored before anything is uploaded.
    let (t, fx, rq) = t.step(Event::JobCreated(Ok("job-1".into())));
    assert!(fx.is_empty());
    match &rq {
        Request::StoreJob { job_id, language, run_file_ids } => {
            assert_eq!(job_id, "job-1");
            assert_eq!(language, "hi-IN");
            assert_eq!(run_file_ids, &ids);
        }
        _ => panic!("expected StoreJob"),
    }
    let (t, fx, rq) = t.step(Event::JobStored(Ok(())));
    assert!(matches!(&fx[0], Effect::EmitJob { job_state, counts: None, .. } if job_state == "Accepted"));
    match &rq {
        Request::UploadLinks { job_id, names } => {
            assert_eq!(job_id, "job-1");
            assert_eq!(names, &vec!["aaaaaaaa_a.mp3".to_string(), "bbbbbbbb_b.mp3".to_string()]);
        }
        _ => panic!("expected UploadLinks"),
    }
    assert_eq!(t.job_id(), "job-1");
    // Only the first file gets an upload URL.
    let links = UploadResponse {
        upload_urls: vec![("aaaaaaaa_a.mp3".into(), SignedUrl { file_url: "https://blob/a".into() })],
    };
    let (t, _, rq) = t.step(Event::UploadLinks(Ok(links)));
    assert!(matches!(rq, Request::CheckCancelled));
    let (t, fx, rq) = t.step(Event::Cancelled(false));
    assert_eq!(updates(&fx), vec![("a".into(), FileState::Uploading, None)]);
    match &rq {
        Request::Upload { url, path, content_type } => {
            assert_eq!(url, "https://blob/a");
            assert_eq!(path, "/audio/a.mp3");
            assert_eq!(*content_type, "audio/mpeg");
        }
        _ => panic!("expected Upload"),
    }
    let (t, fx, rq) = t.step(Event::Uploaded(Ok(())));
    assert_eq!(updates(&fx), vec![("a".into(), FileState::Processing, None)]);
    assert!(matches!(rq, Request::CheckCancelled));
    let (t, fx, rq) = t.step(Event::Cancelled(false));
    assert_eq!(
        updates(&fx),
        vec![
            ("b".into(), FileState::Uploading, None),
            ("b".into(), FileState::Failed, Some("no upload URL returned".into())),
        ]
    );
    assert!(matches!(fx.last(), Some(Effect::EmitRunState)));
    assert!(matches!(&rq, Request::StartJob { job_id } if job_id == "job-1"));
    let (t, fx, rq) = t.step(Event::Started(Ok(())));
    assert!(matches!(&fx[0], Effect::UpdateJob { job_state, error: None, .. } if job_state == "running"));
    assert!(matches!(&fx[1], Effect::EmitJob { job_state, .. } if job_state == "Running"));
    assert!(matches!(rq, Request::CheckCancelled));
    // One poll that is still running, then a wait.
    let (t, _, rq) = t.step(Event::Cancelled(false));
    assert!(matches!(&rq, Request::PollStatus { job_id } if job_id == "job-1"));
    let (t, fx, rq) = t.step(Event::Status(Ok(status("Running", None, None))));
    assert!(matches!(&fx[0], Effect::EmitJob { job_state, counts: Some(_), .. } if job_state == "Running"));
    assert!(matches!(&fx[1], Effect::UpdateJob { job_state, .. } if job_state == "running"));
    assert!(matches!(rq, Request::CheckElapsed));
    let (t, _, rq) = t.step(Event::Elapsed(20));
    assert!(matches!(rq, Request::Wait { secs: 10 }));
    let (t, _, rq) = t.step(Event::Woke { cancelled: false });
    assert!(matches!(rq, Request::CheckCancelled));
    let (t, _, _) = t.step(Event::Cancelled(false));
    // Completed: finalize.
    let details = vec![
        detail("aaaaaaaa_a.mp3", "Success", Some("aaaaaaaa_a.json"), None),
        detail("bbbbbbbb_b.mp3", "Failed", None, Some("bad audio")),
    ];
    let (t, _, rq) = t.step(Event::Status(Ok(status("COMPLETED", Some(details), None))));
    assert!(matches!(&rq, Request::LoadJobRows { job_id } if job_id == "job-1"));
    let rows2 = vec![row("a", "aaaaaaaa_a.mp3", "processing"), row("b", "bbbbbbbb_b.mp3", "failed")];
    let (t, fx, rq) = t.step(Event::JobRows(rows2));
    assert_eq!(updates(&fx), vec![("b".into(), FileState::Failed, Some("bad audio".into()))]);
    match &rq {
        Request::DownloadLinks { job_id, names } => {
            assert_eq!(job_id, "job-1");
            assert_eq!(names, &vec!["aaaaaaaa_a.json".to_string()]);
        }
        _ => panic!("expected DownloadLinks"),
    }
    let dl = DownloadResponse {
        download_urls: vec![("aaaaaaaa_a.json".into(), SignedUrl { file_url: "https://blob/o".into() })],
    };
    let (t, fx, rq) = t.step(Event::DownloadLinks(Ok(dl)));
    assert_eq!(updates(&fx), vec![("a".into(), FileState::Downloading, None)]);
    assert!(matches!(&rq, Request::Download { url } if url == "https://blob/o"));
    let (t, _, rq) = t.step(Event::Downloaded(Ok(b"{}".to_vec())));
    match &rq {
        Request::WriteTranscript { upload_name, bytes } => {
            assert_eq!(upload_name, "aaaaaaaa_a.mp3");
            assert_eq!(bytes, b"{}");
        }
        _ => panic!("expected WriteTranscript"),
    }
    let (_t, fx, rq) = t.step(Event::Written(Ok("/json/run-1/aaaaaaaa_a.mp3.json".into())));
    assert!(matches!(&fx[0], Effect::SetTranscript { run_file_id, path }
        if run_file_id == "a" && path == "/json/run-1/aaaaaaaa_a.mp3.json"));
    assert_eq!(updates(&fx), vec![("a".into(), FileState::Done, None)]);
    assert!(matches!(&fx[2], Effect::UpdateJob { job_state, .. } if job_state == "completed"));
    assert!(matches!(fx.last(), Some(Effect::EmitRunState)));
    assert!(matches!(rq, Request::Finish));
}

#[test]
fn nothing_uploaded_fails_the_job() {
    let (t, _) = JobTask::fresh("run-1".into(), "en-IN".into(), vec!["a".into()]);
    let (t, _, _) = t.step(Event::ClientReady(true));
    let (t, _, _) = t.step(Event::RowsLoaded(Ok(vec![row("a", "aaaaaaaa_a.mp3", "queued")])));
    let (t, _, _) = t.step(Event::RunLoaded(Some(run())));
    let (t, _, _) = t.step(Event::JobCreated(Ok("job-9".into())));
    let (t, _, _) = t.step(Event::JobStored(Ok(())));
    let links = UploadResponse {
        upload_urls: vec![("aaaaaaaa_a.mp3".into(), SignedUrl { file_url: "u".into() })],
    };
    let (t, _, _) = t.step(Event::UploadLinks(Ok(links)));
    let (t, _, _) = t.step(Event::Cancelled(false));
    let (t, fx, rq) = t.step(Event::Uploaded(Err("upload-put failed after 5 attempts".into())));
    assert_eq!(
        updates(&fx),
        vec![(
            "a".into(),
            FileState::Failed,
            Some("upload failed: upload-put failed after 5 attempts".into())
        )]
    );
    assert!(matches!(&fx[2], Effect::UpdateJob { job_state, error: Some(e), .. }
        if job_state == "failed" && e == "no files uploaded successfully"));
    assert!(matches!(rq, Request::LoadJobRows { .. }));
    let (_t, fx, rq) = t.step(Event::JobRows(vec![row("a", "aaaaaaaa_a.mp3", "failed")]));
    assert!(updates(&fx).is_empty());
    assert!(matches!(rq, Request::Finish));
}

#[test]
fn cancelled_before_upload_marks_file_cancelled() {
    let (t, _) = JobTask::fresh("run-1".into(), "en-IN".into(), vec!["a".into()]);
    let (t, _, _) = t.step(Event::ClientReady(true));
    let (t, _, _) = t.step(Event::RowsLoaded(Ok(vec![row("a", "aaaaaaaa_a.mp3", "queued")])));
    let (t, _, _) = t.step(Event::RunLoaded(Some(run())));
    let (t, _, _) = t.step(Event::JobCreated(Ok("job-9".into())));
    let (t, _, _) = t.step(Event::JobStored(Ok(())));
    let (t, _, _) = t.step(Event::UploadLinks(Ok(UploadResponse { upload_urls: vec![] })));
    let (_t, fx, _) = t.step(Event::Cancelled(true));
    assert_eq!(updates(&fx), vec![("a".into(), FileState::Cancelled, None)]);
}

fn resumed_polling() -> JobTask {
    let (t, rq) = JobTask::resume("job-7".into(), "run-1".into());
    assert!(matches!(rq, Request::LoadClient));
    let (t, _, rq) = t.step(Event::ClientReady(true));
    assert!(matches!(&rq, Request::PollStatus { job_id } if job_id == "job-7"));
    t
}

#[test]
fn resume_reuploads_a_job_that_never_started() {
    let t = resumed_polling();
    let (t, fx, rq) = t.step(Event::Status(Ok(status("Accepted", None, None))));
    assert!(matches!(&fx[0], Effect::EmitJob { .. }));
    assert!(matches!(&rq, Request::LoadJobRows { job_id } if job_id == "job-7"));
    let (_t, fx, rq) = t.step(Event::JobRows(vec![row("a", "aaaaaaaa_a.mp3", "failed")]));
    assert!(fx.is_empty());
    // Re-attaches to the stored job: uploads, never creates a new one.
    assert!(matches!(&rq, Request::UploadLinks { job_id, .. } if job_id == "job-7"));
}

#[test]
fn resume_keeps_polling_a_running_job() {
    let t = resumed_polling();
    let (_t, _, rq) = t.step(Event::Status(Ok(status("Pending", None, None))));
    assert!(matches!(rq, Request::CheckCancelled));
}

#[test]
fn resume_gives_up_quietly_when_status_fails() {
    let t = resumed_polling();
    let (_t, fx, rq) = t.step(Event::Status(Err("status failed after 5 attempts".into())));
    assert!(fx.is_empty());
    assert!(matches!(rq, Request::Finish));
    let (t, _) = JobTask::resume("job-7".into(), "run-1".into());
    let (_t, fx, rq) = t.step(Event::ClientReady(false));
    assert!(fx.is_empty());
    assert!(matches!(rq, Request::Finish));
}

#[test]
fn failed_job_fails_active_files() {
    let t = resumed_polling();
    let (t, fx, rq) = t.step(Event::Status(Ok(status("failed", None, None))));
    assert!(matches!(&fx[1], Effect::UpdateJob { job_state, error: Some(e), .. }
        if job_state == "failed" && e == "job failed"));
    assert!(matches!(rq, Request::LoadJobRows { .. }));
    let rows = vec![row("a", "a", "processing"), row("b", "b", "done"), row("c", "c", "queued")];
    let (_t, fx, rq) = t.step(Event::JobRows(rows));
    assert_eq!(
        updates(&fx),
        vec![
            ("a".into(), FileState::Failed, Some("job failed".into())),
            ("c".into(), FileState::Failed, Some("job failed".into())),
        ]
    );
    assert!(matches!(fx.last(), Some(Effect::EmitRunState)));
    assert!(matches!(rq, Request::Finish));
}

#[test]
fn polling_times_out_after_an_hour() {
    let t = resumed_polling();
    let (t, _, _) = t.step(Event::Status(Ok(status("running", None, None))));
    let (t, _, _) = t.step(Event::Cancelled(false));
    let (t, _, _) = t.step(Event::Status(Ok(status("running", None, None))));
    let (t, fx, rq) = t.step(Event::Elapsed(3601));
    assert!(matches!(&fx[0], Effect::UpdateJob { job_state, error: Some(e), .. }
        if job_state == "failed" && e == "timeout"));
    assert!(matches!(rq, Request::LoadJobRows { .. }));
    let (_t, fx, _) = t.step(Event::JobRows(vec![row("a", "a", "processing")]));
    assert_eq!(updates(&fx), vec![("a".into(), FileState::Failed, Some("job timed out".into()))]);
}

#[test]
fn cancellation_while_waiting_cancels_active_files() {
    let t = resumed_polling();
    let (t, _, _) = t.step(Event::Status(Ok(status("running", None, None))));
    let (t, _, _) = t.step(Event::Cancelled(false));
    let (t, _, _) = t.step(Event::Status(Ok(status("running", None, None))));
    let (t, _, _) = t.step(Event::Elapsed(1));
    let (t, fx, rq) = t.step(Event::Woke { cancelled: true });
    assert!(fx.is_empty());
    assert!(matches!(rq, Request::LoadJobRows { .. }));
    let (_t, fx, _) = t.step(Event::JobRows(vec![row("a", "a", "processing")]));
    assert_eq!(updates(&fx), vec![("a".into(), FileState::Cancelled, None)]);
}

#[test]
fn finalize_without_outputs_completes_the_job() {
    let t = resumed_polling();
    let details = vec![
        detail("a", "Success", None, None),
        detail("x", "Success", Some("x.json"), None),
    ];
    let (t, _, _) = t.step(Event::Status(Ok(status("Completed", Some(details), None))));
    let rows = vec![row("a", "a", "processing"), row("b", "b", "processing"), row("c", "c", "failed")];
    let (_t, fx, rq) = t.step(Event::JobRows(rows));
    assert_eq!(
        updates(&fx),
        vec![
            ("a".into(), FileState::Failed, Some("no output produced".into())),
            ("b".into(), FileState::Failed, Some("no result for file".into())),
        ]
    );
    assert!(matches!(&fx[2], Effect::UpdateJob { job_state, .. } if job_state == "completed"));
    assert!(matches!(rq, Request::Finish));
}

#[test]
fn finalize_uses_the_last_detail_for_an_input() {
    let t = resumed_polling();
    let details = vec![
        detail("a", "Failed", None, None),
        detail("a", "Success", Some("a.json"), None),
    ];
    let (t, _, _) = t.step(Event::Status(Ok(status("completed", Some(details), None))));
    let (t, fx, rq) = t.step(Event::JobRows(vec![row("a", "a", "processing")]));
    assert!(updates(&fx).is_empty());
    assert!(matches!(rq, Request::DownloadLinks { .. }));
    let (_t, fx, rq) = t.step(Event::DownloadLinks(Err("download-links failed after 5 attempts".into())));
    assert_eq!(
        updates(&fx),
        vec![(
            "a".into(),
            FileState::Failed,
            Some("download links failed: download-links failed after 5 attempts".into())
        )]
    );
    assert!(matches!(rq, Request::Finish));
}

#[test]
fn download_and_write_failures_fail_the_file() {
    let t = resumed_polling();
    let details = vec![
        detail("a", "Success", Some("a.json"), None),
        detail("b", "Success", Some("b.json"), None),
        detail("c", "Success", Some("c.json"), None),
    ];
    let (t, _, _) = t.step(Event::Status(Ok(status("completed", Some(details), None))));
    let rows = vec![row("a", "a", "processing"), row("b", "b", "processing"), row("c", "c", "processing")];
    let (t, _, _) = t.step(Event::JobRows(rows));
    let dl = DownloadResponse {
        download_urls: vec![
            ("a.json".into(), SignedUrl { file_url: "ua".into() }),
            ("c.json".into(), SignedUrl { file_url: "uc".into() }),
        ],
    };
    let (t, _, _) = t.step(Event::DownloadLinks(Ok(dl)));
    let (t, fx, rq) = t.step(Event::Downloaded(Err("download-get failed after 5 attempts".into())));
    assert_eq!(
        updates(&fx),
        vec![
            ("a".into(), FileState::Failed, Some("download failed: download-get failed after 5 attempts".into())),
            ("b".into(), FileState::Downloading, None),
            ("b".into(), FileState::Failed, Some("no download URL".into())),
            ("c".into(), FileState::Downloading, None),
        ]
    );
    assert!(matches!(&rq, Request::Download { url } if url == "uc"));
    let (t, _, _) = t.step(Event::Downloaded(Ok(vec![1, 2])));
    let (_t, fx, rq) = t.step(Event::Written(Err("disk full".into())));
    assert_eq!(updates(&fx), vec![("c".into(), FileState::Failed, Some("write failed: disk full".into()))]);
    assert!(matches!(rq, Request::Finish));
}

#[test]
fn unexpected_event_ends_the_task() {
    let (t, _) = JobTask::fresh("run-1".into(), "en-IN".into(), vec![]);
    let (t, fx, rq) = t.step(Event::Elapsed(5));
    assert!(fx.is_empty());
    assert!(matches!(rq, Request::Finish));
    let (_t, fx, rq) = t.step(Event::ClientReady(true));
    assert!(fx.is_empty());
    assert!(matches!(rq, Request::Finish));
    assert_eq!(FileState::Downloading.as_str(), "downloading");
}

#[test]
fn job_states_are_compared_without_case() {
    let t = resumed_polling();
    let (t, _, rq) = t.step(Event::Status(Ok(status("RUNNING", None, None))));
    assert!(matches!(rq, Request::CheckCancelled));
    let (t, _, rq) = t.step(Event::Cancelled(false));
    assert!(matches!(rq, Request::PollStatus { .. }));
    let (_t, fx, rq) = t.step(Event::Status(Ok(status("PENDING", None, None))));
    assert!(matches!(&fx[1], Effect::UpdateJob { job_state, .. } if job_state == "pending"));
    assert!(matches!(rq, Request::CheckElapsed));
}

#[test]
fn nothing_is_uploaded_when_the_job_cannot_be_stored() {
    let (t, _) = JobTask::fresh("run-1".into(), "en-IN".into(), vec!["a".into(), "b".into()]);
    let (t, _, _) = t.step(Event::ClientReady(true));
    let rows = vec![row("a", "aaaaaaaa_a.mp3", "queued"), row("b", "bbbbbbbb_b.mp3", "queued")];
    let (t, _, _) = t.step(Event::RowsLoaded(Ok(rows)));
    let (t, _, _) = t.step(Event::RunLoaded(Some(run())));
    let (t, _, rq) = t.step(Event::JobCreated(Ok("job-3".into())));
    assert!(matches!(&rq, Request::StoreJob { job_id, .. } if job_id == "job-3"));
    let (_t, fx, rq) = t.step(Event::JobStored(Err("database is locked".into())));
    assert!(matches!(rq, Request::Finish));
    let msg = Some("storing job failed: database is locked".to_string());
    assert_eq!(
        updates(&fx),
        vec![("a".into(), FileState::Failed, msg.clone()), ("b".into(), FileState::Failed, msg)]
    );
    assert!(matches!(fx.last(), Some(Effect::EmitRunState)));
}
