//! The job engine's decisions. One task per Sarvam job drives
//! create -> upload -> start -> poll -> download -> finalize; the host runs the
//! outside work (HTTP, database, events, timers) and feeds the outcome back as
//! an event, and `JobTask::step` decides what happens next.
//!
//! Invariants of the flow: the job row is persisted the instant the job is
//! created (before any upload), and a job that already has a persisted job id
//! is never created again: resuming re-attaches through the status call.

use vstd::prelude::*;
use crate::db::{RunFileRow, RunSummaryDto};
use crate::sarvam::{
    content_type_for, content_type_spec, url_for, DownloadResponse, JobDetail, JobParameters,
    JobStatus, SignedUrl, UploadResponse,
};
use crate::text::{concat2, owned, str_eq};

verus! {

pub const POLL_INTERVAL_SECS: u64 = 10;

pub const JOB_TIMEOUT_SECS: u64 = 3600;

// ---------------------------------------------------------------------------
// File states
// ---------------------------------------------------------------------------

/// Lifecycle state of one run file.
#[derive(PartialEq, Eq, Structural, Clone, Copy, Debug)]
pub enum FileState {
    Queued,
    Uploading,
    Processing,
    Downloading,
    Done,
    Failed,
    Cancelled,
}

pub open spec fn file_state_name(s: FileState) -> Seq<char> {
    match s {
        FileState::Queued => "queued"@,
        FileState::Uploading => "uploading"@,
        FileState::Processing => "processing"@,
        FileState::Downloading => "downloading"@,
        FileState::Done => "done"@,
        FileState::Failed => "failed"@,
        FileState::Cancelled => "cancelled"@,
    }
}

impl FileState {
    /// The name stored in `run_files.state`.
    pub fn as_str(&self) -> (s: &'static str)
        ensures
            s@ == file_state_name(*self),
    {
        match self {
            FileState::Queued => "queued",
            FileState::Uploading => "uploading",
            FileState::Processing => "processing",
            FileState::Downloading => "downloading",
            FileState::Done => "done",
            FileState::Failed => "failed",
            FileState::Cancelled => "cancelled",
        }
    }
}

/// A file is active while it is queued, uploading, processing or downloading.
pub open spec fn active_state(s: Seq<char>) -> bool {
    s == "queued"@ || s == "uploading"@ || s == "processing"@ || s == "downloading"@
}

/// Whether a stored file state is one of the in-flight states.
pub fn is_active(state: &str) -> (b: bool)
    ensures
        b == active_state(state@),
{
    str_eq(state, "queued") || str_eq(state, "uploading") || str_eq(state, "processing")
        || str_eq(state, "downloading")
}

// ---------------------------------------------------------------------------
// What the host does for the task
// ---------------------------------------------------------------------------

/// File counts reported with a job status.
#[derive(PartialEq, Eq, Structural, Clone, Copy, Debug)]
pub struct StatusCounts {
    pub total: Option<i64>,
    pub successful: Option<i64>,
    pub failed: Option<i64>,
}

/// Work with no answer that the host carries out, in order.
pub enum Effect {
    /// Store a file's state and error, and announce the file's progress.
    UpdateFile { run_file_id: String, state: FileState, error: Option<String> },
    /// Recompute the run's aggregate state and announce it.
    EmitRunState,
    /// Announce a job's progress.
    EmitJob { job_id: String, job_state: String, counts: Option<StatusCounts> },
    /// Store a job's state and error.
    UpdateJob { job_id: String, job_state: String, error: Option<String> },
    /// Record where a file's transcript was written.
    SetTranscript { run_file_id: String, path: String },
}

/// Work whose outcome the host hands back as the next event.
pub enum Request {
    /// Build a client from the stored API key; answered by `ClientReady`.
    LoadClient,
    /// Read the rows of these run files; answered by `RowsLoaded`.
    LoadRows { run_file_ids: Vec<String> },
    /// Read the run's summary; answered by `RunLoaded`.
    LoadRun,
    /// Create the job; answered by `JobCreated`.
    CreateJob { params: JobParameters },
    /// Store the new job for the run and attach the files to it; answered by
    /// `JobStored`.
    StoreJob { job_id: String, language: String, run_file_ids: Vec<String> },
    /// Ask for upload URLs; answered by `UploadLinks`.
    UploadLinks { job_id: String, names: Vec<String> },
    /// Look at the task's cancellation token; answered by `Cancelled`.
    CheckCancelled,
    /// Upload a stored file; answered by `Uploaded`.
    Upload { url: String, path: String, content_type: &'static str },
    /// Start the job; answered by `Started`.
    StartJob { job_id: String },
    /// Poll the job's status; answered by `Status`.
    PollStatus { job_id: String },
    /// Measure the time since polling began; answered by `Elapsed`.
    CheckElapsed,
    /// Sleep, waking early on cancellation; answered by `Woke`.
    Wait { secs: u64 },
    /// Read the rows of the job's files; answered by `JobRows`.
    LoadJobRows { job_id: String },
    /// Ask for download URLs; answered by `DownloadLinks`.
    DownloadLinks { job_id: String, names: Vec<String> },
    /// Download an output; answered by `Downloaded`.
    Download { url: String },
    /// Store a transcript under the run's directory; answered by `Written`.
    WriteTranscript { upload_name: String, bytes: Vec<u8> },
    /// The task is over.
    Finish,
}

/// The outcome of a request.
pub enum Event {
    ClientReady(bool),
    RowsLoaded(Result<Vec<RunFileRow>, String>),
    RunLoaded(Option<RunSummaryDto>),
    JobCreated(Result<String, String>),
    JobStored(Result<(), String>),
    UploadLinks(Result<UploadResponse, String>),
    Cancelled(bool),
    Uploaded(Result<(), String>),
    Started(Result<(), String>),
    Status(Result<JobStatus, String>),
    Elapsed(u64),
    Woke { cancelled: bool },
    JobRows(Vec<RunFileRow>),
    DownloadLinks(Result<DownloadResponse, String>),
    Downloaded(Result<Vec<u8>, String>),
    Written(Result<String, String>),
}

// ---------------------------------------------------------------------------
// Mathematical views
// ---------------------------------------------------------------------------

pub enum EffectView {
    UpdateFile { run_file_id: Seq<char>, state: FileState, error: Option<Seq<char>> },
    EmitRunState,
    EmitJob { job_id: Seq<char>, job_state: Seq<char>, counts: Option<StatusCounts> },
    UpdateJob { job_id: Seq<char>, job_state: Seq<char>, error: Option<Seq<char>> },
    SetTranscript { run_file_id: Seq<char>, path: Seq<char> },
}

pub enum RequestView {
    LoadClient,
    LoadRows { run_file_ids: Seq<Seq<char>> },
    LoadRun,
    CreateJob {
        language_code: Option<Seq<char>>,
        model: Seq<char>,
        mode: Option<Seq<char>>,
        with_diarization: bool,
        with_timestamps: bool,
        num_speakers: Option<i64>,
    },
    StoreJob { job_id: Seq<char>, language: Seq<char>, run_file_ids: Seq<Seq<char>> },
    UploadLinks { job_id: Seq<char>, names: Seq<Seq<char>> },
    CheckCancelled,
    Upload { url: Seq<char>, path: Seq<char>, content_type: Seq<char> },
    StartJob { job_id: Seq<char> },
    PollStatus { job_id: Seq<char> },
    CheckElapsed,
    Wait { secs: u64 },
    LoadJobRows { job_id: Seq<char> },
    DownloadLinks { job_id: Seq<char>, names: Seq<Seq<char>> },
    Download { url: Seq<char> },
    WriteTranscript { upload_name: Seq<char>, bytes: Seq<u8> },
    Finish,
}

pub enum EventView {
    ClientReady(bool),
    RowsLoaded(Result<Seq<RunFileRow>, Seq<char>>),
    RunLoaded(Option<RunSummaryDto>),
    JobCreated(Result<Seq<char>, Seq<char>>),
    JobStored(Result<(), Seq<char>>),
    UploadLinks(Result<Seq<(String, SignedUrl)>, Seq<char>>),
    Cancelled(bool),
    Uploaded(Result<(), Seq<char>>),
    Started(Result<(), Seq<char>>),
    Status(Result<JobStatus, Seq<char>>),
    Elapsed(u64),
    Woke { cancelled: bool },
    JobRows(Seq<RunFileRow>),
    DownloadLinks(Result<Seq<(String, SignedUrl)>, Seq<char>>),
    Downloaded(Result<Seq<u8>, Seq<char>>),
    Written(Result<Seq<char>, Seq<char>>),
}

pub open spec fn opt_view(o: Option<String>) -> Option<Seq<char>> {
    match o {
        Some(s) => Some(s@),
        None => None,
    }
}

pub open spec fn strings_view(v: Seq<String>) -> Seq<Seq<char>> {
    v.map_values(|s: String| s@)
}

impl View for Effect {
    type V = EffectView;

    open spec fn view(&self) -> EffectView {
        match self {
            Effect::UpdateFile { run_file_id, state, error } => EffectView::UpdateFile {
                run_file_id: run_file_id@,
                state: *state,
                error: opt_view(*error),
            },
            Effect::EmitRunState => EffectView::EmitRunState,
            Effect::EmitJob { job_id, job_state, counts } => EffectView::EmitJob {
                job_id: job_id@,
                job_state: job_state@,
                counts: *counts,
            },
            Effect::UpdateJob { job_id, job_state, error } => EffectView::UpdateJob {
                job_id: job_id@,
                job_state: job_state@,
                error: opt_view(*error),
            },
            Effect::SetTranscript { run_file_id, path } => EffectView::SetTranscript {
                run_file_id: run_file_id@,
                path: path@,
            },
        }
    }
}

pub open spec fn effects_view(v: Seq<Effect>) -> Seq<EffectView> {
    v.map_values(|e: Effect| e@)
}

impl View for Request {
    type V = RequestView;

    open spec fn view(&self) -> RequestView {
        match self {
            Request::LoadClient => RequestView::LoadClient,
            Request::LoadRows { run_file_ids } => RequestView::LoadRows {
                run_file_ids: strings_view(run_file_ids@),
            },
            Request::LoadRun => RequestView::LoadRun,
            Request::CreateJob { params } => RequestView::CreateJob {
                language_code: opt_view(params.language_code),
                model: params.model@,
                mode: opt_view(params.mode),
                with_diarization: params.with_diarization,
                with_timestamps: params.with_timestamps,
                num_speakers: params.num_speakers,
            },
            Request::StoreJob { job_id, language, run_file_ids } => RequestView::StoreJob {
                job_id: job_id@,
                language: language@,
                run_file_ids: strings_view(run_file_ids@),
            },
            Request::UploadLinks { job_id, names } => RequestView::UploadLinks {
                job_id: job_id@,
                names: strings_view(names@),
            },
            Request::CheckCancelled => RequestView::CheckCancelled,
            Request::Upload { url, path, content_type } => RequestView::Upload {
                url: url@,
                path: path@,
                content_type: content_type@,
            },
            Request::StartJob { job_id } => RequestView::StartJob { job_id: job_id@ },
            Request::PollStatus { job_id } => RequestView::PollStatus { job_id: job_id@ },
            Request::CheckElapsed => RequestView::CheckElapsed,
            Request::Wait { secs } => RequestView::Wait { secs: *secs },
            Request::LoadJobRows { job_id } => RequestView::LoadJobRows { job_id: job_id@ },
            Request::DownloadLinks { job_id, names } => RequestView::DownloadLinks {
                job_id: job_id@,
                names: strings_view(names@),
            },
            Request::Download { url } => RequestView::Download { url: url@ },
            Request::WriteTranscript { upload_name, bytes } => RequestView::WriteTranscript {
                upload_name: upload_name@,
                bytes: bytes@,
            },
            Request::Finish => RequestView::Finish,
        }
    }
}

pub open spec fn str_result_view<T>(r: Result<T, String>) -> Result<T, Seq<char>> {
    match r {
        Ok(v) => Ok(v),
        Err(e) => Err(e@),
    }
}

impl View for Event {
    type V = EventView;

    open spec fn view(&self) -> EventView {
        match self {
            Event::ClientReady(b) => EventView::ClientReady(*b),
            Event::RowsLoaded(r) => EventView::RowsLoaded(
                match r {
                    Ok(rows) => Ok(rows@),
                    Err(e) => Err(e@),
                },
            ),
            Event::RunLoaded(r) => EventView::RunLoaded(*r),
            Event::JobCreated(r) => EventView::JobCreated(
                match r {
                    Ok(id) => Ok(id@),
                    Err(e) => Err(e@),
                },
            ),
            Event::JobStored(r) => EventView::JobStored(str_result_view(*r)),
            Event::UploadLinks(r) => EventView::UploadLinks(
                match r {
                    Ok(l) => Ok(l.upload_urls@),
                    Err(e) => Err(e@),
                },
            ),
            Event::Cancelled(b) => EventView::Cancelled(*b),
            Event::Uploaded(r) => EventView::Uploaded(str_result_view(*r)),
            Event::Started(r) => EventView::Started(str_result_view(*r)),
            Event::Status(r) => EventView::Status(str_result_view(*r)),
            Event::Elapsed(s) => EventView::Elapsed(*s),
            Event::Woke { cancelled } => EventView::Woke { cancelled: *cancelled },
            Event::JobRows(rows) => EventView::JobRows(rows@),
            Event::DownloadLinks(r) => EventView::DownloadLinks(
                match r {
                    Ok(l) => Ok(l.download_urls@),
                    Err(e) => Err(e@),
                },
            ),
            Event::Downloaded(r) => EventView::Downloaded(
                match r {
                    Ok(b) => Ok(b@),
                    Err(e) => Err(e@),
                },
            ),
            Event::Written(r) => EventView::Written(
                match r {
                    Ok(p) => Ok(p@),
                    Err(e) => Err(e@),
                },
            ),
        }
    }
}

} // verus!

verus! {

// ---------------------------------------------------------------------------
// The task and its model
// ---------------------------------------------------------------------------

/// Where a task stands: which answer it waits for.
#[derive(PartialEq, Eq, Structural, Clone, Copy, Debug)]
pub enum Phase {
    AwaitClient,
    AwaitRows,
    AwaitRun,
    AwaitCreate,
    AwaitStore,
    AwaitUploadLinks,
    UploadCheckCancel,
    AwaitUpload,
    AwaitStart,
    PollCheckCancel,
    AwaitStatus,
    AwaitElapsed,
    AwaitWait,
    ResumeStatus,
    ResumeRows,
    MarkActive,
    FinalizeRows,
    AwaitDownloadLinks,
    AwaitDownload,
    AwaitWrite,
    Finished,
}

/// The model of a task.
pub struct TaskView {
    pub phase: Phase,
    /// A task of a fresh group creates its job; a resumed task never does.
    pub fresh: bool,
    /// The job row exists in the database.
    pub persisted: bool,
    pub run_id: Seq<char>,
    pub language: Seq<char>,
    pub run_file_ids: Seq<Seq<char>>,
    pub job_id: Seq<char>,
    pub rows: Seq<RunFileRow>,
    pub upload_links: Seq<(String, SignedUrl)>,
    pub cursor: nat,
    pub any_uploaded: bool,
    pub details: Seq<JobDetail>,
    /// Planned downloads: index into `rows`, output file name.
    pub downloads: Seq<(int, Seq<char>)>,
    pub download_links: Seq<(String, SignedUrl)>,
    pub mark_state: FileState,
    pub mark_error: Option<Seq<char>>,
}

/// The phases in which the job may not be stored yet.
pub open spec fn before_creation(p: Phase) -> bool {
    p is AwaitClient || p is AwaitRows || p is AwaitRun || p is AwaitCreate || p is AwaitStore
        || p is Finished
}

/// The phases of a fresh task before its job exists.
pub open spec fn creation_pending(p: Phase) -> bool {
    p is AwaitClient || p is AwaitRows || p is AwaitRun || p is AwaitCreate || p is AwaitStore
}

impl TaskView {
    pub open spec fn wf(self) -> bool {
        &&& (!self.fresh ==> self.persisted)
        &&& (!self.persisted ==> before_creation(self.phase))
        &&& (self.fresh && creation_pending(self.phase) ==> !self.persisted)
        &&& (!self.fresh ==> !(self.phase is AwaitRows || self.phase is AwaitRun
            || self.phase is AwaitCreate || self.phase is AwaitStore))
        &&& ((self.phase is UploadCheckCancel || self.phase is AwaitUpload) ==> self.cursor
            < self.rows.len())
        &&& ((self.phase is AwaitDownload || self.phase is AwaitWrite) ==> self.cursor
            < self.downloads.len())
        &&& forall|k: int|
            0 <= k < self.downloads.len() ==> 0 <= #[trigger] self.downloads[k].0 < self.rows.len()
    }

    pub open spec fn with_phase(self, p: Phase) -> TaskView {
        TaskView { phase: p, ..self }
    }
}

pub type Outcome = (TaskView, Seq<EffectView>, RequestView);

pub open spec fn fail_update(id: Seq<char>, msg: Seq<char>) -> EffectView {
    EffectView::UpdateFile { run_file_id: id, state: FileState::Failed, error: Some(msg) }
}

/// Fail every listed file with the same message, then announce the run state.
pub open spec fn fail_all_spec(ids: Seq<Seq<char>>, msg: Seq<char>) -> Seq<EffectView> {
    ids.map_values(|id: Seq<char>| fail_update(id, msg)).push(EffectView::EmitRunState)
}

/// Move every active file among `rows` to `st`.
pub open spec fn mark_spec(rows: Seq<RunFileRow>, st: FileState, err: Option<Seq<char>>) -> Seq<
    EffectView,
>
    decreases rows.len(),
{
    if rows.len() == 0 {
        seq![]
    } else {
        let fx = mark_spec(rows.drop_last(), st, err);
        let r = rows.last();
        if active_state(r.state@) {
            fx.push(EffectView::UpdateFile { run_file_id: r.id@, state: st, error: err })
        } else {
            fx
        }
    }
}

pub open spec fn row_ids(rows: Seq<RunFileRow>) -> Seq<Seq<char>> {
    rows.map_values(|r: RunFileRow| r.id@)
}

pub open spec fn upload_names(rows: Seq<RunFileRow>) -> Seq<Seq<char>> {
    rows.map_values(|r: RunFileRow| r.upload_name@)
}

pub open spec fn download_names(d: Seq<(int, Seq<char>)>) -> Seq<Seq<char>> {
    d.map_values(|x: (int, Seq<char>)| x.1)
}

pub open spec fn or_default(o: Option<String>, d: Seq<char>) -> Seq<char> {
    match o {
        Some(s) => s@,
        None => d,
    }
}

pub open spec fn counts_of(st: JobStatus) -> StatusCounts {
    StatusCounts {
        total: st.total_files,
        successful: st.successful_files_count,
        failed: st.failed_files_count,
    }
}

pub open spec fn details_of(st: JobStatus) -> Seq<JobDetail> {
    match st.job_details {
        Some(d) => d@,
        None => seq![],
    }
}

/// Index of the last job detail whose first input is `name`: the one that a
/// table keyed by first input name keeps.
pub open spec fn detail_for(ds: Seq<JobDetail>, name: Seq<char>) -> Option<int>
    decreases ds.len(),
{
    if ds.len() == 0 {
        None
    } else if ds.last().inputs@.len() > 0 && ds.last().inputs@[0].file_name@ == name {
        Some(ds.len() - 1)
    } else {
        detail_for(ds.drop_last(), name)
    }
}

/// What finalizing does with the files of a completed job, file by file:
/// the failures to record, and the outputs to download.
pub open spec fn plan_spec(rows: Seq<RunFileRow>, ds: Seq<JobDetail>) -> (
    Seq<EffectView>,
    Seq<(int, Seq<char>)>,
)
    decreases rows.len(),
{
    if rows.len() == 0 {
        (seq![], seq![])
    } else {
        let (fx, dl) = plan_spec(rows.drop_last(), ds);
        let i = rows.len() - 1;
        let r = rows.last();
        match detail_for(ds, r.upload_name@) {
            Some(k) => {
                let d = ds[k];
                if d.state@ == "Success"@ {
                    if d.outputs@.len() > 0 {
                        (fx, dl.push((i, d.outputs@[0].file_name@)))
                    } else {
                        (fx.push(fail_update(r.id@, "no output produced"@)), dl)
                    }
                } else {
                    (fx.push(fail_update(r.id@, or_default(d.error_message, "file failed"@))), dl)
                }
            },
            None => if active_state(r.state@) {
                (fx.push(fail_update(r.id@, "no result for file"@)), dl)
            } else {
                (fx, dl)
            },
        }
    }
}

pub open spec fn download_in_range(t: TaskView) -> bool {
    t.cursor < t.downloads.len() && 0 <= t.downloads[t.cursor as int].0 < t.rows.len()
}

pub open spec fn downloads_in_range(t: TaskView) -> bool {
    forall|k: int| 0 <= k < t.downloads.len() ==> 0 <= #[trigger] t.downloads[k].0 < t.rows.len()
}

pub open spec fn finish_spec(t: TaskView, fx: Seq<EffectView>) -> Outcome {
    (t.with_phase(Phase::Finished), fx, RequestView::Finish)
}

/// Move the job's active files to `st` (after reading them afresh).
pub open spec fn to_mark_spec(
    t: TaskView,
    st: FileState,
    err: Option<Seq<char>>,
    fx: Seq<EffectView>,
) -> Outcome {
    (
        TaskView { phase: Phase::MarkActive, mark_state: st, mark_error: err, ..t },
        fx,
        RequestView::LoadJobRows { job_id: t.job_id },
    )
}

/// The job failed before it ran: store that and fail its active files.
pub open spec fn job_failed_spec(t: TaskView, msg: Seq<char>, fx: Seq<EffectView>) -> Outcome {
    to_mark_spec(
        t,
        FileState::Failed,
        Some(msg),
        fx.push(EffectView::UpdateJob { job_id: t.job_id, job_state: "failed"@, error: Some(msg) }),
    )
}

pub open spec fn begin_upload_spec(t: TaskView, fx: Seq<EffectView>) -> Outcome {
    (
        t.with_phase(Phase::AwaitUploadLinks),
        fx,
        RequestView::UploadLinks { job_id: t.job_id, names: upload_names(t.rows) },
    )
}

pub open spec fn finish_uploads_spec(t: TaskView, fx: Seq<EffectView>) -> Outcome {
    let fx1 = fx.push(EffectView::EmitRunState);
    if !t.any_uploaded {
        job_failed_spec(t, "no files uploaded successfully"@, fx1)
    } else {
        (t.with_phase(Phase::AwaitStart), fx1, RequestView::StartJob { job_id: t.job_id })
    }
}

pub open spec fn next_upload_spec(t: TaskView, fx: Seq<EffectView>) -> Outcome {
    if t.cursor < t.rows.len() {
        (t.with_phase(Phase::UploadCheckCancel), fx, RequestView::CheckCancelled)
    } else {
        finish_uploads_spec(t, fx)
    }
}

pub open spec fn begin_poll_spec(t: TaskView, fx: Seq<EffectView>) -> Outcome {
    (t.with_phase(Phase::PollCheckCancel), fx, RequestView::CheckCancelled)
}

pub open spec fn begin_finalize_spec(t: TaskView, st: JobStatus, fx: Seq<EffectView>) -> Outcome {
    (
        TaskView { phase: Phase::FinalizeRows, details: details_of(st), ..t },
        fx,
        RequestView::LoadJobRows { job_id: t.job_id },
    )
}

pub open spec fn finish_finalize_spec(t: TaskView, fx: Seq<EffectView>) -> Outcome {
    finish_spec(
        t,
        fx.push(EffectView::UpdateJob { job_id: t.job_id, job_state: "completed"@, error: None }).push(
            EffectView::EmitRunState,
        ),
    )
}

/// Take the next planned download: mark the file downloading and fetch its
/// output, or fail it when no URL came back for it.
pub open spec fn next_download_spec(t: TaskView, fx: Seq<EffectView>) -> Outcome
    decreases t.downloads.len() - t.cursor,
{
    if download_in_range(t) {
        let (ri, out) = t.downloads[t.cursor as int];
        let row = t.rows[ri];
        let fx1 = fx.push(
            EffectView::UpdateFile {
                run_file_id: row.id@,
                state: FileState::Downloading,
                error: None,
            },
        );
        match url_for(t.download_links, out) {
            Some(u) => (t.with_phase(Phase::AwaitDownload), fx1, RequestView::Download { url: u }),
            None => next_download_spec(
                TaskView { cursor: t.cursor + 1, ..t },
                fx1.push(fail_update(row.id@, "no download URL"@)),
            ),
        }
    } else if t.cursor < t.downloads.len() {
        finish_spec(t, fx)
    } else {
        finish_finalize_spec(t, fx)
    }
}

/// React to a job status: finalize a completed job, fail a failed one, and
/// otherwise keep polling (or, when resuming a job that was never started,
/// upload its files again).
pub open spec fn on_status_spec(t: TaskView, st: JobStatus, resuming: bool) -> Outcome {
    let js = crate::text::lowercase_spec(st.job_state@);
    let fx = seq![
        EffectView::EmitJob {
            job_id: t.job_id,
            job_state: st.job_state@,
            counts: Some(counts_of(st)),
        },
    ];
    if js == "completed"@ {
        begin_finalize_spec(t, st, fx)
    } else if js == "failed"@ {
        job_failed_spec(t, or_default(st.error_message, "job failed"@), fx)
    } else if resuming {
        if js == "pending"@ || js == "running"@ {
            begin_poll_spec(t, fx)
        } else {
            (t.with_phase(Phase::ResumeRows), fx, RequestView::LoadJobRows { job_id: t.job_id })
        }
    } else {
        (
            t.with_phase(Phase::AwaitElapsed),
            fx.push(EffectView::UpdateJob { job_id: t.job_id, job_state: js, error: None }),
            RequestView::CheckElapsed,
        )
    }
}

pub open spec fn create_request_spec(t: TaskView, run: RunSummaryDto) -> RequestView {
    RequestView::CreateJob {
        language_code: Some(t.language),
        model: run.model@,
        mode: opt_view(run.mode),
        with_diarization: run.with_diarization,
        with_timestamps: run.with_timestamps,
        num_speakers: run.num_speakers,
    }
}

/// The decision of a task in state `t` on event `e`: its next state, the work
/// to carry out, and the request whose answer it waits for next. An event that
/// the task does not wait for ends it.
pub open spec fn spec_step(t: TaskView, e: EventView) -> Outcome {
    match (t.phase, e) {
        (Phase::AwaitClient, EventView::ClientReady(ok)) => if !ok {
            if t.fresh {
                finish_spec(t, fail_all_spec(t.run_file_ids, "No Sarvam API key set — open Settings."@))
            } else {
                finish_spec(t, seq![])
            }
        } else if t.fresh {
            (
                t.with_phase(Phase::AwaitRows),
                seq![],
                RequestView::LoadRows { run_file_ids: t.run_file_ids },
            )
        } else {
            (t.with_phase(Phase::ResumeStatus), seq![], RequestView::PollStatus { job_id: t.job_id })
        },
        (Phase::AwaitRows, EventView::RowsLoaded(r)) => match r {
            Err(msg) => finish_spec(t, fail_all_spec(t.run_file_ids, msg)),
            Ok(rows) => (
                TaskView { phase: Phase::AwaitRun, rows: rows, downloads: seq![], ..t },
                seq![],
                RequestView::LoadRun,
            ),
        },
        (Phase::AwaitRun, EventView::RunLoaded(r)) => match r {
            None => finish_spec(t, seq![]),
            Some(run) => (t.with_phase(Phase::AwaitCreate), seq![], create_request_spec(t, run)),
        },
        (Phase::AwaitCreate, EventView::JobCreated(r)) => match r {
            Err(msg) => finish_spec(
                t,
                fail_all_spec(t.run_file_ids, "create job failed: "@ + msg),
            ),
            Ok(id) => (
                TaskView { phase: Phase::AwaitStore, job_id: id, ..t },
                seq![],
                RequestView::StoreJob { job_id: id, language: t.language, run_file_ids: row_ids(t.rows) },
            ),
        },
        (Phase::AwaitStore, EventView::JobStored(r)) => match r {
            Err(msg) => finish_spec(
                t,
                fail_all_spec(t.run_file_ids, "storing job failed: "@ + msg),
            ),
            Ok(_) => begin_upload_spec(
                TaskView { persisted: true, ..t },
                seq![EffectView::EmitJob { job_id: t.job_id, job_state: "Accepted"@, counts: None }],
            ),
        },
        (Phase::AwaitUploadLinks, EventView::UploadLinks(r)) => match r {
            Err(msg) => job_failed_spec(t, msg, seq![]),
            Ok(links) => next_upload_spec(
                TaskView { upload_links: links, cursor: 0, any_uploaded: false, ..t },
                seq![],
            ),
        },
        (Phase::UploadCheckCancel, EventView::Cancelled(c)) => if t.cursor >= t.rows.len() {
            finish_spec(t, seq![])
        } else {
            let row = t.rows[t.cursor as int];
            let t1 = TaskView { cursor: t.cursor + 1, ..t };
            if c {
                next_upload_spec(
                    t1,
                    seq![
                        EffectView::UpdateFile {
                            run_file_id: row.id@,
                            state: FileState::Cancelled,
                            error: None,
                        },
                    ],
                )
            } else {
                let fx = seq![
                    EffectView::UpdateFile {
                        run_file_id: row.id@,
                        state: FileState::Uploading,
                        error: None,
                    },
                ];
                match url_for(t.upload_links, row.upload_name@) {
                    Some(u) => (
                        t.with_phase(Phase::AwaitUpload),
                        fx,
                        RequestView::Upload {
                            url: u,
                            path: row.stored_path@,
                            content_type: content_type_spec(row.ext@),
                        },
                    ),
                    None => next_upload_spec(
                        t1,
                        fx.push(fail_update(row.id@, "no upload URL returned"@)),
                    ),
                }
            }
        },
        (Phase::AwaitUpload, EventView::Uploaded(r)) => if t.cursor >= t.rows.len() {
            finish_spec(t, seq![])
        } else {
            let row = t.rows[t.cursor as int];
            match r {
                Ok(_) => next_upload_spec(
                    TaskView { cursor: t.cursor + 1, any_uploaded: true, ..t },
                    seq![
                        EffectView::UpdateFile {
                            run_file_id: row.id@,
                            state: FileState::Processing,
                            error: None,
                        },
                    ],
                ),
                Err(msg) => next_upload_spec(
                    TaskView { cursor: t.cursor + 1, ..t },
                    seq![fail_update(row.id@, "upload failed: "@ + msg)],
                ),
            }
        },
        (Phase::AwaitStart, EventView::Started(r)) => match r {
            Err(msg) => job_failed_spec(t, msg, seq![]),
            Ok(_) => begin_poll_spec(
                t,
                seq![
                    EffectView::UpdateJob { job_id: t.job_id, job_state: "running"@, error: None },
                    EffectView::EmitJob { job_id: t.job_id, job_state: "Running"@, counts: None },
                ],
            ),
        },
        (Phase::PollCheckCancel, EventView::Cancelled(c)) => if c {
            to_mark_spec(t, FileState::Cancelled, None, seq![])
        } else {
            (t.with_phase(Phase::AwaitStatus), seq![], RequestView::PollStatus { job_id: t.job_id })
        },
        (Phase::AwaitStatus, EventView::Status(r)) => match r {
            Err(msg) => job_failed_spec(t, msg, seq![]),
            Ok(st) => on_status_spec(t, st, false),
        },
        (Phase::AwaitElapsed, EventView::Elapsed(secs)) => if secs > JOB_TIMEOUT_SECS {
            to_mark_spec(
                t,
                FileState::Failed,
                Some("job timed out"@),
                seq![EffectView::UpdateJob { job_id: t.job_id, job_state: "failed"@, error: Some("timeout"@) }],
            )
        } else {
            (t.with_phase(Phase::AwaitWait), seq![], RequestView::Wait { secs: POLL_INTERVAL_SECS })
        },
        (Phase::AwaitWait, EventView::Woke { cancelled }) => if cancelled {
            to_mark_spec(t, FileState::Cancelled, None, seq![])
        } else {
            begin_poll_spec(t, seq![])
        },
        (Phase::ResumeStatus, EventView::Status(r)) => match r {
            Err(_) => finish_spec(t, seq![]),
            Ok(st) => on_status_spec(t, st, true),
        },
        (Phase::ResumeRows, EventView::JobRows(rows)) => begin_upload_spec(
            TaskView { rows: rows, downloads: seq![], ..t },
            seq![],
        ),
        (Phase::MarkActive, EventView::JobRows(rows)) => finish_spec(
            t,
            mark_spec(rows, t.mark_state, t.mark_error).push(EffectView::EmitRunState),
        ),
        (Phase::FinalizeRows, EventView::JobRows(rows)) => {
            let (fx, dl) = plan_spec(rows, t.details);
            let t1 = TaskView { rows: rows, downloads: dl, ..t };
            if dl.len() == 0 {
                finish_finalize_spec(t1, fx)
            } else {
                (
                    t1.with_phase(Phase::AwaitDownloadLinks),
                    fx,
                    RequestView::DownloadLinks { job_id: t.job_id, names: download_names(dl) },
                )
            }
        },
        (Phase::AwaitDownloadLinks, EventView::DownloadLinks(r)) => match r {
            Err(msg) => if !downloads_in_range(t) {
                finish_spec(t, seq![])
            } else {
                finish_finalize_spec(
                t,
                t.downloads.map_values(
                    |d: (int, Seq<char>)|
                        fail_update(t.rows[d.0].id@, "download links failed: "@ + msg),
                ),
            )
            },
            Ok(links) => next_download_spec(
                TaskView { download_links: links, cursor: 0, ..t },
                seq![],
            ),
        },
        (Phase::AwaitDownload, EventView::Downloaded(r)) => if !download_in_range(t) {
            finish_spec(t, seq![])
        } else {
            let row = t.rows[t.downloads[t.cursor as int].0];
            match r {
                Err(msg) => next_download_spec(
                    TaskView { cursor: t.cursor + 1, ..t },
                    seq![fail_update(row.id@, "download failed: "@ + msg)],
                ),
                Ok(bytes) => (
                    t.with_phase(Phase::AwaitWrite),
                    seq![],
                    RequestView::WriteTranscript { upload_name: row.upload_name@, bytes: bytes },
                ),
            }
        },
        (Phase::AwaitWrite, EventView::Written(r)) => if !download_in_range(t) {
            finish_spec(t, seq![])
        } else {
            let row = t.rows[t.downloads[t.cursor as int].0];
            let t1 = TaskView { cursor: t.cursor + 1, ..t };
            match r {
                Err(msg) => next_download_spec(
                    t1,
                    seq![fail_update(row.id@, "write failed: "@ + msg)],
                ),
                Ok(path) => next_download_spec(
                    t1,
                    seq![
                        EffectView::SetTranscript { run_file_id: row.id@, path: path },
                        EffectView::UpdateFile {
                            run_file_id: row.id@,
                            state: FileState::Done,
                            error: None,
                        },
                    ],
                ),
            }
        },
        _ => finish_spec(t, seq![]),
    }
}

} // verus!

verus! {

// ---------------------------------------------------------------------------
// Building effects
// ---------------------------------------------------------------------------

pub open spec fn downloads_view(d: Seq<(usize, String)>) -> Seq<(int, Seq<char>)> {
    d.map_values(|x: (usize, String)| (x.0 as int, x.1@))
}

fn push_effect(fx: &mut Vec<Effect>, e: Effect)
    ensures
        effects_view(final(fx)@) == effects_view(old(fx)@).push(e@),
{
    let ghost before = fx@;
    fx.push(e);
    assert(effects_view(fx@) =~= effects_view(before).push(e@));
}

fn no_effects() -> (fx: Vec<Effect>)
    ensures
        effects_view(fx@) == Seq::<EffectView>::empty(),
{
    let fx: Vec<Effect> = Vec::new();
    assert(effects_view(fx@) =~= Seq::<EffectView>::empty());
    fx
}

fn clone_opt(o: &Option<String>) -> (r: Option<String>)
    ensures
        opt_view(r) == opt_view(*o),
{
    match o {
        Some(s) => Some(s.clone()),
        None => None,
    }
}

fn fail_effect(id: &String, msg: &str) -> (e: Effect)
    ensures
        e@ == fail_update(id@, msg@),
{
    Effect::UpdateFile { run_file_id: id.clone(), state: FileState::Failed, error: Some(owned(msg)) }
}

/// Fail every listed file with the same message, then announce the run state.
fn fail_all(ids: &Vec<String>, msg: &str) -> (fx: Vec<Effect>)
    ensures
        effects_view(fx@) == fail_all_spec(strings_view(ids@), msg@),
{
    let ghost ids_v = strings_view(ids@);
    let ghost f = |id: Seq<char>| fail_update(id, msg@);
    let mut fx = no_effects();
    let mut i: usize = 0;
    while i < ids.len()
        invariant
            i <= ids.len(),
            ids_v == strings_view(ids@),
            f == (|id: Seq<char>| fail_update(id, msg@)),
            effects_view(fx@) == ids_v.take(i as int).map_values(f),
        decreases ids.len() - i,
    {
        let e = fail_effect(&ids[i], msg);
        push_effect(&mut fx, e);
        assert(ids_v.take(i + 1).map_values(f) =~= ids_v.take(i as int).map_values(f).push(
            f(ids_v[i as int]),
        ));
        i = i + 1;
    }
    assert(ids_v.take(ids.len() as int) =~= ids_v);
    push_effect(&mut fx, Effect::EmitRunState);
    fx
}

/// Move every active file among `rows` to `st`, then announce the run state.
fn mark_effects(rows: &Vec<RunFileRow>, st: FileState, err: &Option<String>) -> (fx: Vec<Effect>)
    ensures
        effects_view(fx@) == mark_spec(rows@, st, opt_view(*err)).push(EffectView::EmitRunState),
{
    let mut fx = no_effects();
    let mut i: usize = 0;
    while i < rows.len()
        invariant
            i <= rows.len(),
            effects_view(fx@) == mark_spec(rows@.take(i as int), st, opt_view(*err)),
        decreases rows.len() - i,
    {
        assert(rows@.take(i + 1).drop_last() =~= rows@.take(i as int));
        if is_active(rows[i].state.as_str()) {
            let e = Effect::UpdateFile {
                run_file_id: rows[i].id.clone(),
                state: st,
                error: clone_opt(err),
            };
            push_effect(&mut fx, e);
        }
        i = i + 1;
    }
    assert(rows@.take(rows.len() as int) =~= rows@);
    push_effect(&mut fx, Effect::EmitRunState);
    fx
}

fn clone_strings(v: &Vec<String>) -> (r: Vec<String>)
    ensures
        strings_view(r@) == strings_view(v@),
{
    let mut r: Vec<String> = Vec::new();
    let mut i: usize = 0;
    while i < v.len()
        invariant
            i <= v.len(),
            strings_view(r@) == strings_view(v@).take(i as int),
        decreases v.len() - i,
    {
        let ghost before = r@;
        r.push(v[i].clone());
        assert(strings_view(r@) =~= strings_view(before).push(v@[i as int]@));
        assert(strings_view(v@).take(i + 1) =~= strings_view(v@).take(i as int).push(
            v@[i as int]@,
        ));
        i = i + 1;
    }
    assert(strings_view(v@).take(v.len() as int) =~= strings_view(v@));
    r
}

fn row_ids_of(rows: &Vec<RunFileRow>) -> (r: Vec<String>)
    ensures
        strings_view(r@) == row_ids(rows@),
{
    let mut r: Vec<String> = Vec::new();
    let mut i: usize = 0;
    while i < rows.len()
        invariant
            i <= rows.len(),
            strings_view(r@) == row_ids(rows@).take(i as int),
        decreases rows.len() - i,
    {
        let ghost before = r@;
        r.push(rows[i].id.clone());
        assert(strings_view(r@) =~= strings_view(before).push(rows@[i as int].id@));
        assert(row_ids(rows@).take(i + 1) =~= row_ids(rows@).take(i as int).push(
            rows@[i as int].id@,
        ));
        i = i + 1;
    }
    assert(row_ids(rows@).take(rows.len() as int) =~= row_ids(rows@));
    r
}

fn upload_names_of(rows: &Vec<RunFileRow>) -> (r: Vec<String>)
    ensures
        strings_view(r@) == upload_names(rows@),
{
    let mut r: Vec<String> = Vec::new();
    let mut i: usize = 0;
    while i < rows.len()
        invariant
            i <= rows.len(),
            strings_view(r@) == upload_names(rows@).take(i as int),
        decreases rows.len() - i,
    {
        let ghost before = r@;
        r.push(rows[i].upload_name.clone());
        assert(strings_view(r@) =~= strings_view(before).push(rows@[i as int].upload_name@));
        assert(upload_names(rows@).take(i + 1) =~= upload_names(rows@).take(i as int).push(
            rows@[i as int].upload_name@,
        ));
        i = i + 1;
    }
    assert(upload_names(rows@).take(rows.len() as int) =~= upload_names(rows@));
    r
}

fn download_names_of(d: &Vec<(usize, String)>) -> (r: Vec<String>)
    ensures
        strings_view(r@) == download_names(downloads_view(d@)),
{
    let ghost dv = downloads_view(d@);
    let mut r: Vec<String> = Vec::new();
    let mut i: usize = 0;
    while i < d.len()
        invariant
            i <= d.len(),
            dv == downloads_view(d@),
            strings_view(r@) == download_names(dv).take(i as int),
        decreases d.len() - i,
    {
        let ghost before = r@;
        r.push(d[i].1.clone());
        assert(strings_view(r@) =~= strings_view(before).push(d@[i as int].1@));
        assert(download_names(dv).take(i + 1) =~= download_names(dv).take(i as int).push(
            d@[i as int].1@,
        ));
        i = i + 1;
    }
    assert(download_names(dv).take(d.len() as int) =~= download_names(dv));
    r
}

// ---------------------------------------------------------------------------
// Finalize planning
// ---------------------------------------------------------------------------

/// The last job detail whose first input is `name`.
fn find_detail(ds: &Vec<JobDetail>, name: &str) -> (r: Option<usize>)
    ensures
        r matches Some(k) ==> detail_for(ds@, name@) == Some(k as int) && k < ds@.len(),
        r is None ==> detail_for(ds@, name@) is None,
{
    let mut i: usize = ds.len();
    assert(ds@.take(ds.len() as int) =~= ds@);
    while i > 0
        invariant
            i <= ds.len(),
            detail_for(ds@.take(i as int), name@) == detail_for(ds@, name@),
        decreases i,
    {
        let d = &ds[i - 1];
        assert(ds@.take(i as int).drop_last() =~= ds@.take(i - 1));
        assert(ds@.take(i as int).last() == ds@[i - 1]);
        if d.inputs.len() > 0 && str_eq(d.inputs[0].file_name.as_str(), name) {
            return Some(i - 1);
        }
        i = i - 1;
    }
    assert(ds@.take(0) =~= Seq::<JobDetail>::empty());
    None
}

/// The failures to record and the outputs to download when a job completed.
fn plan_finalize(rows: &Vec<RunFileRow>, ds: &Vec<JobDetail>) -> (r: (Vec<Effect>, Vec<(usize, String)>))
    ensures
        (effects_view(r.0@), downloads_view(r.1@)) == plan_spec(rows@, ds@),
        forall|k: int| 0 <= k < r.1@.len() ==> #[trigger] r.1@[k].0 < rows@.len(),
{
    let mut fx = no_effects();
    let mut dl: Vec<(usize, String)> = Vec::new();
    let mut i: usize = 0;
    assert(downloads_view(dl@) =~= Seq::<(int, Seq<char>)>::empty());
    while i < rows.len()
        invariant
            i <= rows.len(),
            (effects_view(fx@), downloads_view(dl@)) == plan_spec(rows@.take(i as int), ds@),
            forall|k: int| 0 <= k < dl@.len() ==> #[trigger] dl@[k].0 < i,
        decreases rows.len() - i,
    {
        let r = &rows[i];
        assert(rows@.take(i + 1).drop_last() =~= rows@.take(i as int));
        assert(rows@.take(i + 1).last() == rows@[i as int]);
        let ghost before = dl@;
        match find_detail(ds, r.upload_name.as_str()) {
            Some(k) => {
                let d = &ds[k];
                if str_eq(d.state.as_str(), "Success") {
                    if d.outputs.len() > 0 {
                        dl.push((i, d.outputs[0].file_name.clone()));
                        assert(downloads_view(dl@) =~= downloads_view(before).push(
                            (i as int, d.outputs@[0].file_name@),
                        ));
                    } else {
                        let e = fail_effect(&r.id, "no output produced");
                        push_effect(&mut fx, e);
                    }
                } else {
                    let msg = match &d.error_message {
                        Some(m) => m.clone(),
                        None => owned("file failed"),
                    };
                    let e = fail_effect(&r.id, msg.as_str());
                    push_effect(&mut fx, e);
                }
            },
            None => {
                if is_active(r.state.as_str()) {
                    let e = fail_effect(&r.id, "no result for file");
                    push_effect(&mut fx, e);
                }
            },
        }
        i = i + 1;
    }
    assert(rows@.take(rows.len() as int) =~= rows@);
    (fx, dl)
}

// ---------------------------------------------------------------------------
// The task
// ---------------------------------------------------------------------------

/// One job's task: the state of the decisions that drive it.
pub struct JobTask {
    phase: Phase,
    fresh: bool,
    persisted: bool,
    run_id: String,
    language: String,
    run_file_ids: Vec<String>,
    job_id: String,
    rows: Vec<RunFileRow>,
    upload_links: Vec<(String, SignedUrl)>,
    cursor: usize,
    any_uploaded: bool,
    details: Vec<JobDetail>,
    downloads: Vec<(usize, String)>,
    download_links: Vec<(String, SignedUrl)>,
    mark_state: FileState,
    mark_error: Option<String>,
}

impl View for JobTask {
    type V = TaskView;

    closed spec fn view(&self) -> TaskView {
        TaskView {
            phase: self.phase,
            fresh: self.fresh,
            persisted: self.persisted,
            run_id: self.run_id@,
            language: self.language@,
            run_file_ids: strings_view(self.run_file_ids@),
            job_id: self.job_id@,
            rows: self.rows@,
            upload_links: self.upload_links@,
            cursor: self.cursor as nat,
            any_uploaded: self.any_uploaded,
            details: self.details@,
            downloads: downloads_view(self.downloads@),
            download_links: self.download_links@,
            mark_state: self.mark_state,
            mark_error: opt_view(self.mark_error),
        }
    }
}

pub open spec fn out(r: (JobTask, Vec<Effect>, Request)) -> Outcome {
    (r.0@, effects_view(r.1@), r.2@)
}

/// A task for a fresh group of files, before anything happened.
pub open spec fn fresh_spec(run_id: Seq<char>, language: Seq<char>, ids: Seq<Seq<char>>) -> TaskView {
    TaskView {
        phase: Phase::AwaitClient,
        fresh: true,
        persisted: false,
        run_id: run_id,
        language: language,
        run_file_ids: ids,
        job_id: seq![],
        rows: seq![],
        upload_links: seq![],
        cursor: 0,
        any_uploaded: false,
        details: seq![],
        downloads: seq![],
        download_links: seq![],
        mark_state: FileState::Failed,
        mark_error: None,
    }
}

/// A task that re-attaches to a job that was stored by an earlier session.
pub open spec fn resume_spec(job_id: Seq<char>, run_id: Seq<char>) -> TaskView {
    TaskView {
        phase: Phase::AwaitClient,
        fresh: false,
        persisted: true,
        run_id: run_id,
        language: seq![],
        run_file_ids: seq![],
        job_id: job_id,
        rows: seq![],
        upload_links: seq![],
        cursor: 0,
        any_uploaded: false,
        details: seq![],
        downloads: seq![],
        download_links: seq![],
        mark_state: FileState::Failed,
        mark_error: None,
    }
}

impl JobTask {
    /// The task of a fresh group: initialise -> persist -> upload -> start ->
    /// poll -> finalize. Its first request is for a client.
    pub fn fresh(run_id: String, language: String, run_file_ids: Vec<String>) -> (r: (
        JobTask,
        Request,
    ))
        ensures
            r.0@ == fresh_spec(run_id@, language@, strings_view(run_file_ids@)),
            r.1@ == RequestView::LoadClient,
    {
        let t = JobTask {
            phase: Phase::AwaitClient,
            fresh: true,
            persisted: false,
            run_id,
            language,
            run_file_ids,
            job_id: String::new(),
            rows: Vec::new(),
            upload_links: Vec::new(),
            cursor: 0,
            any_uploaded: false,
            details: Vec::new(),
            downloads: Vec::new(),
            download_links: Vec::new(),
            mark_state: FileState::Failed,
            mark_error: None,
        };
        assert(downloads_view(t.downloads@) =~= Seq::<(int, Seq<char>)>::empty());
        assert(t@ == fresh_spec(t.run_id@, t.language@, strings_view(t.run_file_ids@)));
        (t, Request::LoadClient)
    }

    /// The task that resumes a stored job by its id. Its first request is for
    /// a client.
    pub fn resume(job_id: String, run_id: String) -> (r: (JobTask, Request))
        ensures
            r.0@ == resume_spec(job_id@, run_id@),
            r.1@ == RequestView::LoadClient,
    {
        let t = JobTask {
            phase: Phase::AwaitClient,
            fresh: false,
            persisted: true,
            run_id,
            language: String::new(),
            run_file_ids: Vec::new(),
            job_id,
            rows: Vec::new(),
            upload_links: Vec::new(),
            cursor: 0,
            any_uploaded: false,
            details: Vec::new(),
            downloads: Vec::new(),
            download_links: Vec::new(),
            mark_state: FileState::Failed,
            mark_error: None,
        };
        assert(downloads_view(t.downloads@) =~= Seq::<(int, Seq<char>)>::empty());
        assert(strings_view(t.run_file_ids@) =~= Seq::<Seq<char>>::empty());
        assert(t@ == resume_spec(t.job_id@, t.run_id@));
        (t, Request::LoadClient)
    }

    /// The run that the task works for.
    pub fn run_id(&self) -> (r: &str)
        ensures
            r@ == self@.run_id,
    {
        self.run_id.as_str()
    }

    /// The job that the task drives (empty before it is created).
    pub fn job_id(&self) -> (r: &str)
        ensures
            r@ == self@.job_id,
    {
        self.job_id.as_str()
    }

    fn finish(self, fx: Vec<Effect>) -> (r: (JobTask, Vec<Effect>, Request))
        ensures
            out(r) == finish_spec(self@, effects_view(fx@)),
    {
        let mut t = self;
        t.phase = Phase::Finished;
        (t, fx, Request::Finish)
    }

    fn to_mark(self, st: FileState, err: Option<String>, fx: Vec<Effect>) -> (r: (
        JobTask,
        Vec<Effect>,
        Request,
    ))
        ensures
            out(r) == to_mark_spec(self@, st, opt_view(err), effects_view(fx@)),
    {
        let mut t = self;
        let job_id = t.job_id.clone();
        t.phase = Phase::MarkActive;
        t.mark_state = st;
        t.mark_error = err;
        (t, fx, Request::LoadJobRows { job_id })
    }

    fn job_failed(self, msg: String, fx: Vec<Effect>) -> (r: (JobTask, Vec<Effect>, Request))
        ensures
            out(r) == job_failed_spec(self@, msg@, effects_view(fx@)),
    {
        let mut fx = fx;
        let e = Effect::UpdateJob {
            job_id: self.job_id.clone(),
            job_state: owned("failed"),
            error: Some(msg.clone()),
        };
        push_effect(&mut fx, e);
        self.to_mark(FileState::Failed, Some(msg), fx)
    }

    fn begin_upload(self, fx: Vec<Effect>) -> (r: (JobTask, Vec<Effect>, Request))
        ensures
            out(r) == begin_upload_spec(self@, effects_view(fx@)),
    {
        let mut t = self;
        let names = upload_names_of(&t.rows);
        let job_id = t.job_id.clone();
        t.phase = Phase::AwaitUploadLinks;
        (t, fx, Request::UploadLinks { job_id, names })
    }

    fn finish_uploads(self, fx: Vec<Effect>) -> (r: (JobTask, Vec<Effect>, Request))
        ensures
            out(r) == finish_uploads_spec(self@, effects_view(fx@)),
    {
        let mut fx = fx;
        push_effect(&mut fx, Effect::EmitRunState);
        if !self.any_uploaded {
            self.job_failed(owned("no files uploaded successfully"), fx)
        } else {
            let mut t = self;
            let job_id = t.job_id.clone();
            t.phase = Phase::AwaitStart;
            (t, fx, Request::StartJob { job_id })
        }
    }

    fn next_upload(self, fx: Vec<Effect>) -> (r: (JobTask, Vec<Effect>, Request))
        ensures
            out(r) == next_upload_spec(self@, effects_view(fx@)),
    {
        if self.cursor < self.rows.len() {
            let mut t = self;
            t.phase = Phase::UploadCheckCancel;
            (t, fx, Request::CheckCancelled)
        } else {
            self.finish_uploads(fx)
        }
    }

    fn begin_poll(self, fx: Vec<Effect>) -> (r: (JobTask, Vec<Effect>, Request))
        ensures
            out(r) == begin_poll_spec(self@, effects_view(fx@)),
    {
        let mut t = self;
        t.phase = Phase::PollCheckCancel;
        (t, fx, Request::CheckCancelled)
    }

    fn begin_finalize(self, details: Option<Vec<JobDetail>>, fx: Vec<Effect>) -> (r: (
        JobTask,
        Vec<Effect>,
        Request,
    ))
        ensures
            out(r) == ({
                let d = match details {
                    Some(d) => d@,
                    None => seq![],
                };
                (
                    TaskView { phase: Phase::FinalizeRows, details: d, ..self@ },
                    effects_view(fx@),
                    RequestView::LoadJobRows { job_id: self@.job_id },
                )
            }),
    {
        let mut t = self;
        t.details = match details {
            Some(d) => d,
            None => Vec::new(),
        };
        let job_id = t.job_id.clone();
        t.phase = Phase::FinalizeRows;
        (t, fx, Request::LoadJobRows { job_id })
    }

    fn finish_finalize(self, fx: Vec<Effect>) -> (r: (JobTask, Vec<Effect>, Request))
        ensures
            out(r) == finish_finalize_spec(self@, effects_view(fx@)),
    {
        let mut fx = fx;
        let e = Effect::UpdateJob { job_id: self.job_id.clone(), job_state: owned("completed"), error: None };
        push_effect(&mut fx, e);
        push_effect(&mut fx, Effect::EmitRunState);
        self.finish(fx)
    }

    fn next_download(self, fx: Vec<Effect>) -> (r: (JobTask, Vec<Effect>, Request))
        ensures
            out(r) == next_download_spec(self@, effects_view(fx@)),
    {
        let ghost s0 = self@;
        let ghost f0 = effects_view(fx@);
        let mut t = self;
        let mut acc = fx;
        loop
            invariant
                next_download_spec(t@, effects_view(acc@)) == next_download_spec(s0, f0),
                s0 == self@,
                f0 == effects_view(fx@),
            decreases t.downloads.len() - t.cursor,
        {
            if t.cursor < t.downloads.len() && t.downloads[t.cursor].0 < t.rows.len() {
                let ri = t.downloads[t.cursor].0;
                let id = t.rows[ri].id.clone();
                assert(download_in_range(t@));
                let e = Effect::UpdateFile {
                    run_file_id: id.clone(),
                    state: FileState::Downloading,
                    error: None,
                };
                push_effect(&mut acc, e);
                match crate::sarvam::lookup_url(&t.download_links, t.downloads[t.cursor].1.as_str()) {
                    Some(u) => {
                        t.phase = Phase::AwaitDownload;
                        return (t, acc, Request::Download { url: u });
                    },
                    None => {
                        let e2 = fail_effect(&id, "no download URL");
                        push_effect(&mut acc, e2);
                        t.cursor = t.cursor + 1;
                    },
                }
            } else if t.cursor < t.downloads.len() {
                assert(!download_in_range(t@));
                return t.finish(acc);
            } else {
                assert(!download_in_range(t@));
                return t.finish_finalize(acc);
            }
        }
    }

    fn on_status(self, st: JobStatus, resuming: bool) -> (r: (JobTask, Vec<Effect>, Request))
        ensures
            out(r) == on_status_spec(self@, st, resuming),
    {
        let js = crate::text::to_lowercase(st.job_state.as_str());
        let counts = StatusCounts {
            total: st.total_files,
            successful: st.successful_files_count,
            failed: st.failed_files_count,
        };
        let mut fx = no_effects();
        let e = Effect::EmitJob {
            job_id: self.job_id.clone(),
            job_state: st.job_state.clone(),
            counts: Some(counts),
        };
        push_effect(&mut fx, e);
        assert(effects_view(fx@) =~= seq![e@]);
        if str_eq(js.as_str(), "completed") {
            self.begin_finalize(st.job_details, fx)
        } else if str_eq(js.as_str(), "failed") {
            let err = match st.error_message {
                Some(m) => m,
                None => owned("job failed"),
            };
            self.job_failed(err, fx)
        } else if resuming {
            if str_eq(js.as_str(), "pending") || str_eq(js.as_str(), "running") {
                self.begin_poll(fx)
            } else {
                let mut t = self;
                let job_id = t.job_id.clone();
                t.phase = Phase::ResumeRows;
                (t, fx, Request::LoadJobRows { job_id })
            }
        } else {
            let mut t = self;
            let e2 = Effect::UpdateJob { job_id: t.job_id.clone(), job_state: js, error: None };
            push_effect(&mut fx, e2);
            t.phase = Phase::AwaitElapsed;
            (t, fx, Request::CheckElapsed)
        }
    }
    /// Decides what follows an event: the task's next state, the work that the
    /// host carries out in order, and the request whose answer it waits for.
    pub fn step(self, ev: Event) -> (r: (JobTask, Vec<Effect>, Request))
        ensures
            out(r) == spec_step(self@, ev@),
    {
        match &ev {
            Event::ClientReady(..) => self.on_client_ready(ev),
            Event::RowsLoaded(..) => self.on_rows_loaded(ev),
            Event::RunLoaded(..) => self.on_run_loaded(ev),
            Event::JobCreated(..) => self.on_job_created(ev),
            Event::JobStored(..) => self.on_job_stored(ev),
            Event::UploadLinks(..) => self.on_upload_links(ev),
            Event::Cancelled(..) => self.on_cancelled(ev),
            Event::Uploaded(..) => self.on_uploaded(ev),
            Event::Started(..) => self.on_started(ev),
            Event::Status(..) => self.on_status_event(ev),
            Event::Elapsed(..) => self.on_elapsed(ev),
            Event::Woke { .. } => self.on_woke(ev),
            Event::JobRows(..) => self.on_job_rows(ev),
            Event::DownloadLinks(..) => self.on_download_links(ev),
            Event::Downloaded(..) => self.on_downloaded(ev),
            Event::Written(..) => self.on_written(ev),
        }
    }

    fn on_client_ready(self, ev: Event) -> (r: (JobTask, Vec<Effect>, Request))
        requires
            ev is ClientReady,
        ensures
            out(r) == spec_step(self@, ev@),
    {
        let ghost t0 = self@;
        let ghost e0 = ev@;
        match ev {
            Event::ClientReady(ok) => {
                if self.phase != Phase::AwaitClient {
                    return self.finish(no_effects());
                }
                if !ok {
                    if self.fresh {
                        let fx = fail_all(&self.run_file_ids, "No Sarvam API key set — open Settings.");
                        self.finish(fx)
                    } else {
                        self.finish(no_effects())
                    }
                } else if self.fresh {
                    let mut t = self;
                    let ids = clone_strings(&t.run_file_ids);
                    t.phase = Phase::AwaitRows;
                    let res = (t, no_effects(), Request::LoadRows { run_file_ids: ids });
                    assert(out(res) == spec_step(t0, e0));
                    res
                } else {
                    let mut t = self;
                    let job_id = t.job_id.clone();
                    t.phase = Phase::ResumeStatus;
                    (t, no_effects(), Request::PollStatus { job_id })
                }
            },
            _ => self.finish(no_effects()),
        }
    }

    fn on_rows_loaded(self, ev: Event) -> (r: (JobTask, Vec<Effect>, Request))
        requires
            ev is RowsLoaded,
        ensures
            out(r) == spec_step(self@, ev@),
    {
        let ghost t0 = self@;
        let ghost e0 = ev@;
        match ev {
            Event::RowsLoaded(r) => {
                if self.phase != Phase::AwaitRows {
                    return self.finish(no_effects());
                }
                match r {
                    Err(msg) => {
                        let fx = fail_all(&self.run_file_ids, msg.as_str());
                        self.finish(fx)
                    },
                    Ok(rows) => {
                        let mut t = self;
                        t.rows = rows;
                        t.downloads = Vec::new();
                        t.phase = Phase::AwaitRun;
                        assert(downloads_view(t.downloads@) =~= Seq::<(int, Seq<char>)>::empty());
                        let res = (t, no_effects(), Request::LoadRun);
                        assert(out(res) == spec_step(t0, e0));
                        res
                    },
                }
            },
            _ => self.finish(no_effects()),
        }
    }

    fn on_run_loaded(self, ev: Event) -> (r: (JobTask, Vec<Effect>, Request))
        requires
            ev is RunLoaded,
        ensures
            out(r) == spec_step(self@, ev@),
    {
        let ghost t0 = self@;
        let ghost e0 = ev@;
        match ev {
            Event::RunLoaded(r) => {
                if self.phase != Phase::AwaitRun {
                    return self.finish(no_effects());
                }
                match r {
                    None => self.finish(no_effects()),
                    Some(run) => {
                        let mut t = self;
                        let params = JobParameters {
                            language_code: Some(t.language.clone()),
                            model: run.model,
                            mode: run.mode,
                            with_diarization: run.with_diarization,
                            with_timestamps: run.with_timestamps,
                            num_speakers: run.num_speakers,
                        };
                        t.phase = Phase::AwaitCreate;
                        let res = (t, no_effects(), Request::CreateJob { params });
                        assert(out(res) == spec_step(t0, e0));
                        res
                    },
                }
            },
            _ => self.finish(no_effects()),
        }
    }

    fn on_job_created(self, ev: Event) -> (r: (JobTask, Vec<Effect>, Request))
        requires
            ev is JobCreated,
        ensures
            out(r) == spec_step(self@, ev@),
    {
        match ev {
            Event::JobCreated(r) => {
                if self.phase != Phase::AwaitCreate {
                    return self.finish(no_effects());
                }
                match r {
                    Err(msg) => {
                        let m = concat2("create job failed: ", msg.as_str());
                        let fx = fail_all(&self.run_file_ids, m.as_str());
                        self.finish(fx)
                    },
                    Ok(id) => {
                        let mut t = self;
                        let store = Request::StoreJob {
                            job_id: id.clone(),
                            language: t.language.clone(),
                            run_file_ids: row_ids_of(&t.rows),
                        };
                        t.job_id = id;
                        t.phase = Phase::AwaitStore;
                        (t, no_effects(), store)
                    },
                }
            },
            _ => self.finish(no_effects()),
        }
    }

    fn on_job_stored(self, ev: Event) -> (r: (JobTask, Vec<Effect>, Request))
        requires
            ev is JobStored,
        ensures
            out(r) == spec_step(self@, ev@),
    {
        match ev {
            Event::JobStored(r) => {
                if self.phase != Phase::AwaitStore {
                    return self.finish(no_effects());
                }
                match r {
                    Err(msg) => {
                        let m = concat2("storing job failed: ", msg.as_str());
                        let fx = fail_all(&self.run_file_ids, m.as_str());
                        self.finish(fx)
                    },
                    Ok(()) => {
                        let mut t = self;
                        let mut fx = no_effects();
                        let accepted = Effect::EmitJob {
                            job_id: t.job_id.clone(),
                            job_state: owned("Accepted"),
                            counts: None,
                        };
                        push_effect(&mut fx, accepted);
                        t.persisted = true;
                        t.begin_upload(fx)
                    },
                }
            },
            _ => self.finish(no_effects()),
        }
    }

    fn on_upload_links(self, ev: Event) -> (r: (JobTask, Vec<Effect>, Request))
        requires
            ev is UploadLinks,
        ensures
            out(r) == spec_step(self@, ev@),
    {
        match ev {
            Event::UploadLinks(r) => {
                if self.phase != Phase::AwaitUploadLinks {
                    return self.finish(no_effects());
                }
                match r {
                    Err(msg) => self.job_failed(msg, no_effects()),
                    Ok(links) => {
                        let mut t = self;
                        t.upload_links = links.upload_urls;
                        t.cursor = 0;
                        t.any_uploaded = false;
                        t.next_upload(no_effects())
                    },
                }
            },
            _ => self.finish(no_effects()),
        }
    }

    fn on_cancelled(self, ev: Event) -> (r: (JobTask, Vec<Effect>, Request))
        requires
            ev is Cancelled,
        ensures
            out(r) == spec_step(self@, ev@),
    {
        match ev {
            Event::Cancelled(c) => {
                if self.phase == Phase::UploadCheckCancel {
                    if self.cursor >= self.rows.len() {
                        return self.finish(no_effects());
                    }
                    let mut t = self;
                    let i = t.cursor;
                    let id = t.rows[i].id.clone();
                    let mut fx = no_effects();
                    if c {
                        let e = Effect::UpdateFile { run_file_id: id, state: FileState::Cancelled, error: None };
                        push_effect(&mut fx, e);
                        t.cursor = i + 1;
                        t.next_upload(fx)
                    } else {
                        let e = Effect::UpdateFile {
                            run_file_id: id.clone(),
                            state: FileState::Uploading,
                            error: None,
                        };
                        push_effect(&mut fx, e);
                        match crate::sarvam::lookup_url(&t.upload_links, t.rows[i].upload_name.as_str()) {
                            Some(u) => {
                                let path = t.rows[i].stored_path.clone();
                                let ct = content_type_for(t.rows[i].ext.as_str());
                                t.phase = Phase::AwaitUpload;
                                (t, fx, Request::Upload { url: u, path, content_type: ct })
                            },
                            None => {
                                let e2 = fail_effect(&id, "no upload URL returned");
                                push_effect(&mut fx, e2);
                                t.cursor = i + 1;
                                t.next_upload(fx)
                            },
                        }
                    }
                } else if self.phase == Phase::PollCheckCancel {
                    if c {
                        self.to_mark(FileState::Cancelled, None, no_effects())
                    } else {
                        let mut t = self;
                        let job_id = t.job_id.clone();
                        t.phase = Phase::AwaitStatus;
                        (t, no_effects(), Request::PollStatus { job_id })
                    }
                } else {
                    self.finish(no_effects())
                }
            },
            _ => self.finish(no_effects()),
        }
    }

    fn on_uploaded(self, ev: Event) -> (r: (JobTask, Vec<Effect>, Request))
        requires
            ev is Uploaded,
        ensures
            out(r) == spec_step(self@, ev@),
    {
        match ev {
            Event::Uploaded(r) => {
                if self.phase != Phase::AwaitUpload || self.cursor >= self.rows.len() {
                    return self.finish(no_effects());
                }
                let mut t = self;
                let i = t.cursor;
                let mut fx = no_effects();
                match r {
                    Ok(_) => {
                        let e = Effect::UpdateFile {
                            run_file_id: t.rows[i].id.clone(),
                            state: FileState::Processing,
                            error: None,
                        };
                        push_effect(&mut fx, e);
                        t.any_uploaded = true;
                    },
                    Err(msg) => {
                        let m = concat2("upload failed: ", msg.as_str());
                        let e = fail_effect(&t.rows[i].id, m.as_str());
                        push_effect(&mut fx, e);
                    },
                }
                t.cursor = i + 1;
                t.next_upload(fx)
            },
            _ => self.finish(no_effects()),
        }
    }

    fn on_started(self, ev: Event) -> (r: (JobTask, Vec<Effect>, Request))
        requires
            ev is Started,
        ensures
            out(r) == spec_step(self@, ev@),
    {
        match ev {
            Event::Started(r) => {
                if self.phase != Phase::AwaitStart {
                    return self.finish(no_effects());
                }
                match r {
                    Err(msg) => self.job_failed(msg, no_effects()),
                    Ok(_) => {
                        let mut fx = no_effects();
                        let e1 = Effect::UpdateJob {
                            job_id: self.job_id.clone(),
                            job_state: owned("running"),
                            error: None,
                        };
                        push_effect(&mut fx, e1);
                        let e2 = Effect::EmitJob {
                            job_id: self.job_id.clone(),
                            job_state: owned("Running"),
                            counts: None,
                        };
                        push_effect(&mut fx, e2);
                        self.begin_poll(fx)
                    },
                }
            },
            _ => self.finish(no_effects()),
        }
    }

    fn on_status_event(self, ev: Event) -> (r: (JobTask, Vec<Effect>, Request))
        requires
            ev is Status,
        ensures
            out(r) == spec_step(self@, ev@),
    {
        match ev {
            Event::Status(r) => {
                if self.phase == Phase::AwaitStatus {
                    match r {
                        Err(msg) => self.job_failed(msg, no_effects()),
                        Ok(st) => self.on_status(st, false),
                    }
                } else if self.phase == Phase::ResumeStatus {
                    match r {
                        Err(_) => self.finish(no_effects()),
                        Ok(st) => self.on_status(st, true),
                    }
                } else {
                    self.finish(no_effects())
                }
            },
            _ => self.finish(no_effects()),
        }
    }

    fn on_elapsed(self, ev: Event) -> (r: (JobTask, Vec<Effect>, Request))
        requires
            ev is Elapsed,
        ensures
            out(r) == spec_step(self@, ev@),
    {
        match ev {
            Event::Elapsed(secs) => {
                if self.phase != Phase::AwaitElapsed {
                    return self.finish(no_effects());
                }
                if secs > JOB_TIMEOUT_SECS {
                    let mut fx = no_effects();
                    let e = Effect::UpdateJob {
                        job_id: self.job_id.clone(),
                        job_state: owned("failed"),
                        error: Some(owned("timeout")),
                    };
                    push_effect(&mut fx, e);
                    self.to_mark(FileState::Failed, Some(owned("job timed out")), fx)
                } else {
                    let mut t = self;
                    t.phase = Phase::AwaitWait;
                    (t, no_effects(), Request::Wait { secs: POLL_INTERVAL_SECS })
                }
            },
            _ => self.finish(no_effects()),
        }
    }

    fn on_woke(self, ev: Event) -> (r: (JobTask, Vec<Effect>, Request))
        requires
            ev is Woke,
        ensures
            out(r) == spec_step(self@, ev@),
    {
        match ev {
            Event::Woke { cancelled } => {
                if self.phase != Phase::AwaitWait {
                    return self.finish(no_effects());
                }
                if cancelled {
                    self.to_mark(FileState::Cancelled, None, no_effects())
                } else {
                    self.begin_poll(no_effects())
                }
            },
            _ => self.finish(no_effects()),
        }
    }

    fn on_job_rows(self, ev: Event) -> (r: (JobTask, Vec<Effect>, Request))
        requires
            ev is JobRows,
        ensures
            out(r) == spec_step(self@, ev@),
    {
        match ev {
            Event::JobRows(rows) => {
                if self.phase == Phase::ResumeRows {
                    let mut t = self;
                    t.rows = rows;
                    t.downloads = Vec::new();
                    assert(downloads_view(t.downloads@) =~= Seq::<(int, Seq<char>)>::empty());
                    t.begin_upload(no_effects())
                } else if self.phase == Phase::MarkActive {
                    let fx = mark_effects(&rows, self.mark_state, &self.mark_error);
                    self.finish(fx)
                } else if self.phase == Phase::FinalizeRows {
                    let (fx, dl) = plan_finalize(&rows, &self.details);
                    let mut t = self;
                    let job_id = t.job_id.clone();
                    t.rows = rows;
                    t.downloads = dl;
                    if t.downloads.len() == 0 {
                        t.finish_finalize(fx)
                    } else {
                        let names = download_names_of(&t.downloads);
                        t.phase = Phase::AwaitDownloadLinks;
                        (t, fx, Request::DownloadLinks { job_id, names })
                    }
                } else {
                    self.finish(no_effects())
                }
            },
            _ => self.finish(no_effects()),
        }
    }

    fn on_download_links(self, ev: Event) -> (r: (JobTask, Vec<Effect>, Request))
        requires
            ev is DownloadLinks,
        ensures
            out(r) == spec_step(self@, ev@),
    {
        match ev {
            Event::DownloadLinks(r) => {
                if self.phase != Phase::AwaitDownloadLinks {
                    return self.finish(no_effects());
                }
                match r {
                    Err(msg) => self.fail_downloads(msg),
                    Ok(links) => {
                        let mut t = self;
                        t.download_links = links.download_urls;
                        t.cursor = 0;
                        t.next_download(no_effects())
                    },
                }
            },
            _ => self.finish(no_effects()),
        }
    }

    fn on_downloaded(self, ev: Event) -> (r: (JobTask, Vec<Effect>, Request))
        requires
            ev is Downloaded,
        ensures
            out(r) == spec_step(self@, ev@),
    {
        match ev {
            Event::Downloaded(r) => {
                if self.phase != Phase::AwaitDownload || self.cursor >= self.downloads.len()
                    || self.downloads[self.cursor].0 >= self.rows.len() {
                    return self.finish(no_effects());
                }
                let mut t = self;
                let ri = t.downloads[t.cursor].0;
                match r {
                    Err(msg) => {
                        let m = concat2("download failed: ", msg.as_str());
                        let mut fx = no_effects();
                        let e = fail_effect(&t.rows[ri].id, m.as_str());
                        push_effect(&mut fx, e);
                        t.cursor = t.cursor + 1;
                        t.next_download(fx)
                    },
                    Ok(bytes) => {
                        let upload_name = t.rows[ri].upload_name.clone();
                        t.phase = Phase::AwaitWrite;
                        (t, no_effects(), Request::WriteTranscript { upload_name, bytes })
                    },
                }
            },
            _ => self.finish(no_effects()),
        }
    }

    fn on_written(self, ev: Event) -> (r: (JobTask, Vec<Effect>, Request))
        requires
            ev is Written,
        ensures
            out(r) == spec_step(self@, ev@),
    {
        match ev {
            Event::Written(r) => {
                if self.phase != Phase::AwaitWrite || self.cursor >= self.downloads.len()
                    || self.downloads[self.cursor].0 >= self.rows.len() {
                    return self.finish(no_effects());
                }
                let mut t = self;
                let ri = t.downloads[t.cursor].0;
                let id = t.rows[ri].id.clone();
                let mut fx = no_effects();
                match r {
                    Err(msg) => {
                        let m = concat2("write failed: ", msg.as_str());
                        let e = fail_effect(&id, m.as_str());
                        push_effect(&mut fx, e);
                    },
                    Ok(path) => {
                        let e1 = Effect::SetTranscript { run_file_id: id.clone(), path };
                        let ghost v1 = e1@;
                        push_effect(&mut fx, e1);
                        let e2 = Effect::UpdateFile { run_file_id: id, state: FileState::Done, error: None };
                        let ghost v2 = e2@;
                        push_effect(&mut fx, e2);
                        assert(effects_view(fx@) =~= seq![v1, v2]);
                    },
                }
                t.cursor = t.cursor + 1;
                t.next_download(fx)
            },
            _ => self.finish(no_effects()),
        }
    }


    /// The download-links call failed: fail every planned download and
    /// complete the job.
    fn fail_downloads(self, msg: String) -> (r: (JobTask, Vec<Effect>, Request))
        ensures
            out(r) == (if !downloads_in_range(self@) {
                finish_spec(self@, seq![])
            } else {
                finish_finalize_spec(
                    self@,
                    self@.downloads.map_values(
                        |d: (int, Seq<char>)|
                            fail_update(self@.rows[d.0].id@, "download links failed: "@ + msg@),
                    ),
                )
            }),
    {
        let ghost tv = self@;
        let m = concat2("download links failed: ", msg.as_str());
        let ghost f = |d: (int, Seq<char>)| fail_update(tv.rows[d.0].id@, m@);
        let mut fx = no_effects();
        let mut k: usize = 0;
        while k < self.downloads.len()
            invariant
                k <= self.downloads.len(),
                tv == self@,
                f == (|d: (int, Seq<char>)| fail_update(tv.rows[d.0].id@, m@)),
                forall|j: int| 0 <= j < k ==> 0 <= #[trigger] tv.downloads[j].0 < tv.rows.len(),
                effects_view(fx@) == tv.downloads.take(k as int).map_values(f),
            decreases self.downloads.len() - k,
        {
            let ri = self.downloads[k].0;
            if ri >= self.rows.len() {
                assert(tv.downloads[k as int].0 == ri as int);
                assert(!downloads_in_range(tv));
                return self.finish(no_effects());
            }
            let e = fail_effect(&self.rows[ri].id, m.as_str());
            push_effect(&mut fx, e);
            assert(tv.downloads.take(k + 1).map_values(f) =~= tv.downloads.take(k as int).map_values(
                f,
            ).push(f(tv.downloads[k as int])));
            k = k + 1;
        }
        assert(tv.downloads.take(self.downloads.len() as int) =~= tv.downloads);
        assert(downloads_in_range(tv));
        assert(f == (|d: (int, Seq<char>)| fail_update(tv.rows[d.0].id@, "download links failed: "@ + msg@)));
        self.finish_finalize(fx)
    }
}

} // verus!

verus! {

// ---------------------------------------------------------------------------
// Laws of the job flow
// ---------------------------------------------------------------------------

/// The host reports that it stored the task's job.
pub open spec fn job_reported_stored(t: TaskView, e: EventView) -> bool {
    t.phase is AwaitStore && e matches EventView::JobStored(Ok(_))
}

/// Requests that send a job's files or start it.
pub open spec fn is_upload_request(r: RequestView) -> bool {
    r is UploadLinks || r is Upload || r is StartJob
}

/// What the helpers of `spec_step` keep of a task.
pub open spec fn same_job(t: TaskView, n: TaskView) -> bool {
    &&& n.persisted == t.persisted
    &&& n.fresh == t.fresh
    &&& n.job_id == t.job_id
    &&& n.rows == t.rows
    &&& n.downloads == t.downloads
}

proof fn lemma_next_download(t: TaskView, fx: Seq<EffectView>)
    ensures
        ({
            let (n, fx2, rq) = next_download_spec(t, fx);
            &&& same_job(t, n)
            &&& (n.phase is AwaitDownload && n.cursor < n.downloads.len() || n.phase is Finished)
            &&& (rq is Download || rq is Finish)
        }),
    decreases t.downloads.len() - t.cursor,
{
    if download_in_range(t) {
        let (ri, out) = t.downloads[t.cursor as int];
        let row = t.rows[ri];
        let fx1 = fx.push(
            EffectView::UpdateFile {
                run_file_id: row.id@,
                state: FileState::Downloading,
                error: None,
            },
        );
        if url_for(t.download_links, out) is None {
            lemma_next_download(
                TaskView { cursor: t.cursor + 1, ..t },
                fx1.push(fail_update(row.id@, "no download URL"@)),
            );
        }
    }
}

proof fn lemma_plan_indices(rows: Seq<RunFileRow>, ds: Seq<JobDetail>)
    ensures
        forall|k: int|
            0 <= k < plan_spec(rows, ds).1.len() ==> 0 <= #[trigger] plan_spec(rows, ds).1[k].0
                < rows.len(),
    decreases rows.len(),
{
    if rows.len() > 0 {
        lemma_plan_indices(rows.drop_last(), ds);
        let prev = plan_spec(rows.drop_last(), ds).1;
        let cur = plan_spec(rows, ds).1;
        assert(cur == prev || cur == prev.push(
            (rows.len() - 1, cur[cur.len() - 1].1),
        ));
        assert forall|k: int| 0 <= k < cur.len() implies 0 <= #[trigger] cur[k].0 < rows.len() by {
            if k < prev.len() {
                assert(0 <= prev[k].0 < rows.len() - 1);
            }
        }
    }
}

/// The job is stored before anything of it is uploaded, and a stored job is
/// never created again: every step keeps the task well formed; a newly created
/// job is first handed to the host to store, with the task's language and
/// files; a task's job counts as stored only once the host reports it stored;
/// a step that asks to upload or start comes from a task whose job is stored,
/// or whose storing the host has just reported; and once stored, a task never
/// asks to create or store a job, nor changes its job id.
#[verifier::rlimit(60)]
pub proof fn job_stored_before_upload(t: TaskView, e: EventView)
    requires
        t.wf(),
    ensures
        ({
            let (n, fx, rq) = spec_step(t, e);
            &&& n.wf()
            &&& n.fresh == t.fresh
            &&& (rq is StoreJob ==> {
                &&& t.phase is AwaitCreate
                &&& e is JobCreated
                &&& e->JobCreated_0 == Ok::<Seq<char>, Seq<char>>(n.job_id)
                &&& rq->StoreJob_job_id == n.job_id
                &&& rq->StoreJob_language == t.language
                &&& rq->StoreJob_run_file_ids == row_ids(t.rows)
                &&& !n.persisted
            })
            &&& (is_upload_request(rq) ==> n.persisted && (t.persisted || job_reported_stored(t, e)))
            &&& (!t.persisted && n.persisted ==> job_reported_stored(t, e) && n.job_id == t.job_id)
            &&& (t.persisted ==> !(rq is CreateJob) && !(rq is StoreJob) && n.persisted && n.job_id
                == t.job_id)
        }),
{
    match (t.phase, e) {
        (Phase::FinalizeRows, EventView::JobRows(rows)) => {
            lemma_plan_indices(rows, t.details);
        },
        (Phase::AwaitDownloadLinks, EventView::DownloadLinks(Ok(links))) => {
            lemma_next_download(TaskView { download_links: links, cursor: 0, ..t }, seq![]);
        },
        (Phase::AwaitDownload, EventView::Downloaded(Err(msg))) => {
            if download_in_range(t) {
                let row = t.rows[t.downloads[t.cursor as int].0];
                lemma_next_download(
                    TaskView { cursor: t.cursor + 1, ..t },
                    seq![fail_update(row.id@, "download failed: "@ + msg)],
                );
            }
        },
        (Phase::AwaitWrite, EventView::Written(r)) => {
            if download_in_range(t) {
                let row = t.rows[t.downloads[t.cursor as int].0];
                let t1 = TaskView { cursor: t.cursor + 1, ..t };
                match r {
                    Err(msg) => lemma_next_download(
                        t1,
                        seq![fail_update(row.id@, "write failed: "@ + msg)],
                    ),
                    Ok(path) => lemma_next_download(
                        t1,
                        seq![
                            EffectView::SetTranscript { run_file_id: row.id@, path: path },
                            EffectView::UpdateFile {
                                run_file_id: row.id@,
                                state: FileState::Done,
                                error: None,
                            },
                        ],
                    ),
                }
            }
        },
        _ => {},
    }
}

/// A fresh task starts well formed with no job stored; a resumed task starts
/// well formed with its job stored, so it never asks to create one.
pub proof fn starting_tasks(run_id: Seq<char>, language: Seq<char>, ids: Seq<Seq<char>>, job_id: Seq<char>)
    ensures
        fresh_spec(run_id, language, ids).wf(),
        !fresh_spec(run_id, language, ids).persisted,
        resume_spec(job_id, run_id).wf(),
        resume_spec(job_id, run_id).persisted,
{
}


/// `e` records the failure of file `id`.
pub open spec fn fails_file(e: EffectView, id: Seq<char>) -> bool {
    e matches EffectView::UpdateFile { run_file_id, state, .. } && run_file_id == id && state
        == FileState::Failed
}

/// Row `i` (with id `id`) gets an output to download, or is failed.
pub open spec fn settled_by(plan: (Seq<EffectView>, Seq<(int, Seq<char>)>), i: int, id: Seq<char>) -> bool {
    ||| exists|k: int| 0 <= k < plan.1.len() && #[trigger] plan.1[k] == (i, plan.1[k].1)
    ||| exists|k: int| 0 <= k < plan.0.len() && fails_file(#[trigger] plan.0[k], id)
}

proof fn lemma_plan_extends(rows: Seq<RunFileRow>, ds: Seq<JobDetail>)
    requires
        rows.len() > 0,
    ensures
        ({
            let (fx, dl) = plan_spec(rows, ds);
            let (fx0, dl0) = plan_spec(rows.drop_last(), ds);
            &&& fx0.len() <= fx.len()
            &&& forall|k: int| 0 <= k < fx0.len() ==> #[trigger] fx[k] == fx0[k]
            &&& dl0.len() <= dl.len()
            &&& forall|k: int| 0 <= k < dl0.len() ==> #[trigger] dl[k] == dl0[k]
        }),
{
}

/// Finalizing a completed job leaves no file in flight: every file that was
/// still active gets an output to download or is failed.
pub proof fn finalize_settles_active_files(rows: Seq<RunFileRow>, ds: Seq<JobDetail>, i: int)
    requires
        0 <= i < rows.len(),
        active_state(rows[i].state@),
    ensures
        settled_by(plan_spec(rows, ds), i, rows[i].id@),
    decreases rows.len(),
{
    let (fx, dl) = plan_spec(rows, ds);
    let (fx0, dl0) = plan_spec(rows.drop_last(), ds);
    lemma_plan_extends(rows, ds);
    if i < rows.len() - 1 {
        finalize_settles_active_files(rows.drop_last(), ds, i);
        assert(rows.drop_last()[i] == rows[i]);
        if exists|k: int| 0 <= k < dl0.len() && #[trigger] dl0[k] == (i, dl0[k].1) {
            let k = choose|k: int| 0 <= k < dl0.len() && #[trigger] dl0[k] == (i, dl0[k].1);
            assert(dl[k] == dl0[k]);
        } else {
            let k = choose|k: int| 0 <= k < fx0.len() && fails_file(#[trigger] fx0[k], rows[i].id@);
            assert(fx[k] == fx0[k]);
        }
    } else {
        let r = rows.last();
        match detail_for(ds, r.upload_name@) {
            Some(k) => {
                let d = ds[k];
                if d.state@ == "Success"@ && d.outputs@.len() > 0 {
                    assert(dl[dl0.len() as int] == (i, dl[dl0.len() as int].1));
                } else {
                    assert(fails_file(fx[fx0.len() as int], r.id@));
                }
            },
            None => {
                assert(fails_file(fx[fx0.len() as int], r.id@));
            },
        }
    }
}


// ---------------------------------------------------------------------------
// Laws of job statuses and of finalizing
// ---------------------------------------------------------------------------

/// The message with which a failed job fails its files.
pub open spec fn failure_message(st: JobStatus) -> Seq<char> {
    match st.error_message {
        Some(m) => m@,
        None => "job failed"@,
    }
}

/// A job that Sarvam reports failed, in whatever case it spells the state, is
/// failed: its state is stored as `failed` with Sarvam's message (or "job
/// failed"), and its files are read afresh to be marked failed with it.
pub proof fn failed_status_fails_the_job(t: TaskView, st: JobStatus)
    requires
        t.phase is AwaitStatus || t.phase is ResumeStatus,
        crate::text::lowercase_spec(st.job_state@) == "failed"@,
    ensures
        ({
            let (n, fx, rq) = spec_step(t, EventView::Status(Ok(st)));
            &&& fx == seq![
                EffectView::EmitJob {
                    job_id: t.job_id,
                    job_state: st.job_state@,
                    counts: Some(counts_of(st)),
                },
                EffectView::UpdateJob {
                    job_id: t.job_id,
                    job_state: "failed"@,
                    error: Some(failure_message(st)),
                },
            ]
            &&& rq == RequestView::LoadJobRows { job_id: t.job_id }
            &&& n.phase is MarkActive
            &&& n.mark_state == FileState::Failed
            &&& n.mark_error == Some(failure_message(st))
        }),
{
    reveal_strlit("failed");
    reveal_strlit("completed");
    assert("failed"@[0] != "completed"@[0]);
}

/// How Sarvam spells a job state does not matter: two statuses that differ
/// only in the state's letter case lead to the same next state, the same
/// request and the same effects, except that the progress announcement
/// repeats the state as reported.
pub proof fn status_case_does_not_matter(t: TaskView, st1: JobStatus, st2: JobStatus)
    requires
        t.phase is AwaitStatus || t.phase is ResumeStatus,
        crate::text::lowercase_spec(st1.job_state@) == crate::text::lowercase_spec(st2.job_state@),
        st2 == (JobStatus { job_state: st2.job_state, ..st1 }),
    ensures
        ({
            let (n1, fx1, rq1) = spec_step(t, EventView::Status(Ok(st1)));
            let (n2, fx2, rq2) = spec_step(t, EventView::Status(Ok(st2)));
            &&& n1 == n2
            &&& rq1 == rq2
            &&& fx1.len() == fx2.len()
            &&& fx1.skip(1) == fx2.skip(1)
        }),
{
    let (n1, fx1, rq1) = spec_step(t, EventView::Status(Ok(st1)));
    let (n2, fx2, rq2) = spec_step(t, EventView::Status(Ok(st2)));
    assert(fx1.skip(1) =~= fx2.skip(1));
}

proof fn lemma_mark_spec(rows: Seq<RunFileRow>, st: FileState, err: Option<Seq<char>>)
    ensures
        ({
            &&& forall|i: int|
                0 <= i < rows.len() && active_state(#[trigger] rows[i].state@) ==> mark_spec(rows, st, err).contains(
                    EffectView::UpdateFile { run_file_id: rows[i].id@, state: st, error: err },
                )
            &&& forall|k: int|
                0 <= k < mark_spec(rows, st, err).len() ==> exists|i: int|
                    0 <= i < rows.len() && active_state(rows[i].state@) && #[trigger] mark_spec(rows, st, err)[k]
                        == EffectView::UpdateFile { run_file_id: rows[i].id@, state: st, error: err }
        }),
    decreases rows.len(),
{
    if rows.len() > 0 {
        let pre = rows.drop_last();
        lemma_mark_spec(pre, st, err);
        let fx0 = mark_spec(pre, st, err);
        let fx = mark_spec(rows, st, err);
        assert forall|i: int|
            0 <= i < rows.len() && active_state(#[trigger] rows[i].state@) implies fx.contains(
                EffectView::UpdateFile { run_file_id: rows[i].id@, state: st, error: err },
            ) by {
            if i < rows.len() - 1 {
                assert(pre[i] == rows[i]);
                let e = EffectView::UpdateFile { run_file_id: rows[i].id@, state: st, error: err };
                assert(fx0.contains(e));
                let j = choose|j: int| 0 <= j < fx0.len() && fx0[j] == e;
                assert(fx[j] == e);
            } else {
                assert(fx[fx.len() - 1] == EffectView::UpdateFile {
                    run_file_id: rows[i].id@,
                    state: st,
                    error: err,
                });
            }
        }
        assert forall|k: int| 0 <= k < fx.len() implies exists|i: int|
            0 <= i < rows.len() && active_state(rows[i].state@) && #[trigger] fx[k]
                == EffectView::UpdateFile { run_file_id: rows[i].id@, state: st, error: err } by {
            if k < fx0.len() {
                assert(fx[k] == fx0[k]);
                let i = choose|i: int|
                    0 <= i < pre.len() && active_state(pre[i].state@) && #[trigger] fx0[k]
                        == EffectView::UpdateFile { run_file_id: pre[i].id@, state: st, error: err };
                assert(pre[i] == rows[i]);
            } else {
                assert(fx[k] == EffectView::UpdateFile {
                    run_file_id: rows[rows.len() - 1].id@,
                    state: st,
                    error: err,
                });
            }
        }
    }
}

/// Marking a job's files (after it failed, timed out or was cancelled) moves
/// every file still in flight to the new state with the job's message, touches
/// no other file, then announces the run's state and ends the task.
pub proof fn marking_moves_every_active_file(t: TaskView, rows: Seq<RunFileRow>)
    requires
        t.phase is MarkActive,
    ensures
        ({
            let (n, fx, rq) = spec_step(t, EventView::JobRows(rows));
            &&& rq is Finish
            &&& fx.len() > 0 && fx.last() == EffectView::EmitRunState
            &&& forall|i: int|
                0 <= i < rows.len() && active_state(#[trigger] rows[i].state@) ==> fx.contains(
                    EffectView::UpdateFile {
                        run_file_id: rows[i].id@,
                        state: t.mark_state,
                        error: t.mark_error,
                    },
                )
            &&& forall|k: int|
                0 <= k < fx.len() - 1 ==> exists|i: int|
                    0 <= i < rows.len() && active_state(rows[i].state@) && #[trigger] fx[k]
                        == EffectView::UpdateFile {
                        run_file_id: rows[i].id@,
                        state: t.mark_state,
                        error: t.mark_error,
                    }
        }),
{
    let m = mark_spec(rows, t.mark_state, t.mark_error);
    lemma_mark_spec(rows, t.mark_state, t.mark_error);
    let fx = m.push(EffectView::EmitRunState);
    assert forall|i: int|
        0 <= i < rows.len() && active_state(#[trigger] rows[i].state@) implies fx.contains(
            EffectView::UpdateFile { run_file_id: rows[i].id@, state: t.mark_state, error: t.mark_error },
        ) by {
        let e = EffectView::UpdateFile {
            run_file_id: rows[i].id@,
            state: t.mark_state,
            error: t.mark_error,
        };
        assert(m.contains(e));
        let j = choose|j: int| 0 <= j < m.len() && m[j] == e;
        assert(fx[j] == e);
    }
    assert forall|k: int| 0 <= k < fx.len() - 1 implies exists|i: int|
        0 <= i < rows.len() && active_state(rows[i].state@) && #[trigger] fx[k]
            == EffectView::UpdateFile {
            run_file_id: rows[i].id@,
            state: t.mark_state,
            error: t.mark_error,
        } by {
        assert(fx[k] == m[k]);
    }
}

/// Effect list `fx` settles file `id`: marks it done or failed.
pub open spec fn settles(fx: Seq<EffectView>, id: Seq<char>) -> bool {
    exists|j: int|
        0 <= j < fx.len() && (fails_file(#[trigger] fx[j], id) || fx[j] == EffectView::UpdateFile {
            run_file_id: id,
            state: FileState::Done,
            error: None,
        })
}

proof fn lemma_next_download_settles(t: TaskView, fx: Seq<EffectView>)
    requires
        downloads_in_range(t),
    ensures
        ({
            let (n, fx2, rq) = next_download_spec(t, fx);
            &&& fx.len() <= fx2.len()
            &&& forall|j: int| 0 <= j < fx.len() ==> #[trigger] fx2[j] == fx[j]
            &&& rq is Finish ==> forall|k: int|
                t.cursor <= k < t.downloads.len() ==> settles(fx2, #[trigger] t.rows[t.downloads[k].0].id@)
            &&& rq is Finish ==> fx2.len() >= 2 && fx2[fx2.len() - 2] == EffectView::UpdateJob {
                job_id: t.job_id,
                job_state: "completed"@,
                error: None,
            }
        }),
    decreases t.downloads.len() - t.cursor,
{
    if download_in_range(t) {
        let (ri, out) = t.downloads[t.cursor as int];
        let row = t.rows[ri];
        let fx1 = fx.push(
            EffectView::UpdateFile { run_file_id: row.id@, state: FileState::Downloading, error: None },
        );
        if url_for(t.download_links, out) is None {
            let t1 = TaskView { cursor: t.cursor + 1, ..t };
            let fx1b = fx1.push(fail_update(row.id@, "no download URL"@));
            lemma_next_download_settles(t1, fx1b);
            let (n, fx2, rq) = next_download_spec(t1, fx1b);
            assert(fx2[fx1.len() as int] == fx1b[fx1.len() as int]);
            assert(fails_file(fx2[fx1.len() as int], row.id@));
            assert(settles(fx2, row.id@));
        }
    }
}

/// Finalizing settles every planned download before it marks the job
/// completed: whenever a download-phase step ends the task, every planned
/// download from the current one on (from the first, when the links arrive)
/// has been marked done or failed, and a job that ends completed says so last
/// but one, before the run's state is announced.
pub proof fn finalize_settles_every_download(t: TaskView, e: EventView)
    requires
        t.wf(),
        (t.phase is AwaitDownloadLinks && e is DownloadLinks) || (t.phase is AwaitDownload
            && e is Downloaded) || (t.phase is AwaitWrite && e is Written),
    ensures
        ({
            let (n, fx, rq) = spec_step(t, e);
            let first: int = if t.phase is AwaitDownloadLinks {
                0
            } else {
                t.cursor as int
            };
            rq is Finish ==> forall|k: int|
                first <= k < t.downloads.len() ==> settles(fx, #[trigger] t.rows[t.downloads[k].0].id@)
        }),
{
    match (t.phase, e) {
        (Phase::AwaitDownloadLinks, EventView::DownloadLinks(r)) => {
            match r {
                Ok(links) => {
                    lemma_next_download_settles(TaskView { download_links: links, cursor: 0, ..t }, seq![]);
                },
                Err(msg) => {
                    let (n, fx, rq) = spec_step(t, e);
                    let f = |d: (int, Seq<char>)| fail_update(t.rows[d.0].id@, "download links failed: "@ + msg);
                    let m = t.downloads.map_values(f);
                    assert forall|k: int| 0 <= k < t.downloads.len() implies settles(
                        fx,
                        #[trigger] t.rows[t.downloads[k].0].id@,
                    ) by {
                        assert(fx[k] == m[k]);
                        assert(fails_file(fx[k], t.rows[t.downloads[k].0].id@));
                    }
                },
            }
        },
        (Phase::AwaitDownload, EventView::Downloaded(r)) => {
            let row = t.rows[t.downloads[t.cursor as int].0];
            match r {
                Err(msg) => {
                    let t1 = TaskView { cursor: t.cursor + 1, ..t };
                    let fx0 = seq![fail_update(row.id@, "download failed: "@ + msg)];
                    lemma_next_download_settles(t1, fx0);
                    let (n, fx, rq) = next_download_spec(t1, fx0);
                    assert(fx[0] == fx0[0]);
                    assert(fails_file(fx[0], row.id@));
                },
                Ok(_) => {},
            }
        },
        (Phase::AwaitWrite, EventView::Written(r)) => {
            let row = t.rows[t.downloads[t.cursor as int].0];
            let t1 = TaskView { cursor: t.cursor + 1, ..t };
            match r {
                Err(msg) => {
                    let fx0 = seq![fail_update(row.id@, "write failed: "@ + msg)];
                    lemma_next_download_settles(t1, fx0);
                    let (n, fx, rq) = next_download_spec(t1, fx0);
                    assert(fx[0] == fx0[0]);
                    assert(fails_file(fx[0], row.id@));
                },
                Ok(path) => {
                    let fx0 = seq![
                        EffectView::SetTranscript { run_file_id: row.id@, path: path },
                        EffectView::UpdateFile {
                            run_file_id: row.id@,
                            state: FileState::Done,
                            error: None,
                        },
                    ];
                    lemma_next_download_settles(t1, fx0);
                    let (n, fx, rq) = next_download_spec(t1, fx0);
                    assert(fx[1] == fx0[1]);
                },
            }
        },
        _ => {},
    }
}

} // verus!
