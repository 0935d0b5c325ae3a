//! The Sarvam batch speech-to-text protocol: wire records, the calls of the
//! job flow (initialise -> upload -> start -> poll status -> download), which
//! of them carry the API key, and the retry schedule.
//!
//! The `api-subscription-key` header goes ONLY to api.sarvam.ai, never to the
//! presigned storage URLs.

use vstd::prelude::*;
use crate::text::{ascii_lowercase, ascii_lowercase_spec, concat2, concat3, str_eq, owned};

verus! {

pub const BASE: &'static str = "https://api.sarvam.ai";

pub const MAX_ATTEMPTS: u32 = 5;

pub const BASE_DELAY_SECS: u64 = 2;

// ---------------------------------------------------------------------------
// Wire records
// ---------------------------------------------------------------------------

/// Parameters of a transcription job.
#[derive(Clone, Debug)]
pub struct JobParameters {
    pub language_code: Option<String>,
    pub model: String,
    pub mode: Option<String>,
    pub with_diarization: bool,
    pub with_timestamps: bool,
    pub num_speakers: Option<i64>,
}

/// Answer to the job creation call.
#[derive(Clone, Debug)]
pub struct InitResponse {
    pub job_id: String,
}

/// A presigned storage URL.
#[derive(Clone, Debug)]
pub struct SignedUrl {
    pub file_url: String,
}

/// Presigned upload URLs by file name.
#[derive(Clone, Debug)]
pub struct UploadResponse {
    pub upload_urls: Vec<(String, SignedUrl)>,
}

/// Presigned download URLs by file name.
#[derive(Clone, Debug)]
pub struct DownloadResponse {
    pub download_urls: Vec<(String, SignedUrl)>,
}

/// A file named in a job detail.
#[derive(Clone, Debug)]
pub struct FileRef {
    pub file_name: String,
}

/// The outcome of one input file of a job.
#[derive(Clone, Debug)]
pub struct JobDetail {
    pub inputs: Vec<FileRef>,
    pub outputs: Vec<FileRef>,
    pub state: String,
    pub error_message: Option<String>,
}

/// Status of a job as the status and start calls report it.
#[derive(Clone, Debug)]
pub struct JobStatus {
    pub job_state: String,
    pub total_files: Option<i64>,
    pub successful_files_count: Option<i64>,
    pub failed_files_count: Option<i64>,
    pub error_message: Option<String>,
    pub job_details: Option<Vec<JobDetail>>,
}

// ---------------------------------------------------------------------------
// Looking up presigned URLs by file name
// ---------------------------------------------------------------------------

/// The keys of a URL table, as character sequences.
pub open spec fn url_keys(entries: Seq<(String, SignedUrl)>) -> Seq<Seq<char>> {
    entries.map_values(|e: (String, SignedUrl)| e.0@)
}

/// Index of the first entry whose key is `name`, if any.
pub open spec fn first_index_of(keys: Seq<Seq<char>>, name: Seq<char>) -> Option<int>
    decreases keys.len(),
{
    if keys.len() == 0 {
        None
    } else if keys[0] == name {
        Some(0)
    } else {
        match first_index_of(keys.drop_first(), name) {
            Some(i) => Some(i + 1),
            None => None,
        }
    }
}

pub proof fn lemma_first_index_of(keys: Seq<Seq<char>>, name: Seq<char>)
    ensures
        first_index_of(keys, name) matches Some(i) ==> 0 <= i < keys.len() && keys[i] == name
            && forall|j: int| 0 <= j < i ==> keys[j] != name,
        first_index_of(keys, name) is None ==> forall|j: int|
            0 <= j < keys.len() ==> keys[j] != name,
    decreases keys.len(),
{
    if keys.len() > 0 {
        lemma_first_index_of(keys.drop_first(), name);
        if keys[0] != name {
            assert forall|j: int| 0 < j < keys.len() implies keys[j] == keys.drop_first()[j - 1] by {
            }
        }
    }
}

/// The URL stored under `name`: that of the first entry with this key.
pub open spec fn url_for(entries: Seq<(String, SignedUrl)>, name: Seq<char>) -> Option<Seq<char>> {
    match first_index_of(url_keys(entries), name) {
        Some(i) => Some(entries[i].1.file_url@),
        None => None,
    }
}

/// Looks up the URL stored under `name`.
pub fn lookup_url(entries: &Vec<(String, SignedUrl)>, name: &str) -> (r: Option<String>)
    ensures
        r matches Some(u) ==> url_for(entries@, name@) == Some(u@),
        r is None ==> url_for(entries@, name@) is None,
{
    let ghost keys = url_keys(entries@);
    proof {
        lemma_first_index_of(keys, name@);
    }
    let mut i: usize = 0;
    while i < entries.len()
        invariant
            i <= entries.len(),
            keys == url_keys(entries@),
            forall|j: int| 0 <= j < i ==> keys[j] != name@,
        decreases entries.len() - i,
    {
        if str_eq(entries[i].0.as_str(), name) {
            proof {
                lemma_first_index_of(keys, name@);
                if first_index_of(keys, name@) is None {
                    assert(keys[i as int] == name@);
                }
                let k = first_index_of(keys, name@)->Some_0;
                if k > i {
                    assert(keys[i as int] == name@);
                }
            }
            return Some(entries[i].1.file_url.clone());
        }
        i = i + 1;
    }
    proof {
        lemma_first_index_of(keys, name@);
        if first_index_of(keys, name@) is Some {
            let k = first_index_of(keys, name@)->Some_0;
            assert(keys[k] == name@);
        }
    }
    None
}

impl UploadResponse {
    /// The presigned upload URL for a file name.
    pub fn url_for(&self, name: &str) -> (r: Option<String>)
        ensures
            r matches Some(u) ==> url_for(self.upload_urls@, name@) == Some(u@),
            r is None ==> url_for(self.upload_urls@, name@) is None,
    {
        lookup_url(&self.upload_urls, name)
    }
}

impl DownloadResponse {
    /// The presigned download URL for a file name.
    pub fn url_for(&self, name: &str) -> (r: Option<String>)
        ensures
            r matches Some(u) ==> url_for(self.download_urls@, name@) == Some(u@),
            r is None ==> url_for(self.download_urls@, name@) is None,
    {
        lookup_url(&self.download_urls, name)
    }
}

// ---------------------------------------------------------------------------
// Content types
// ---------------------------------------------------------------------------

/// The content type for an extension that is already in lower case.
pub open spec fn content_type_of_lower(ext: Seq<char>) -> Seq<char> {
    if ext == "mp3"@ {
        "audio/mpeg"@
    } else if ext == "wav"@ {
        "audio/wav"@
    } else if ext == "m4a"@ || ext == "aac"@ {
        "audio/aac"@
    } else if ext == "flac"@ {
        "audio/flac"@
    } else if ext == "ogg"@ || ext == "opus"@ {
        "audio/ogg"@
    } else if ext == "webm"@ {
        "audio/webm"@
    } else {
        "application/octet-stream"@
    }
}

/// The content type for a file extension, ignoring ASCII case.
pub open spec fn content_type_spec(ext: Seq<char>) -> Seq<char> {
    content_type_of_lower(ascii_lowercase_spec(ext))
}

/// Best-effort content type from a file extension (storage mostly ignores this).
pub fn content_type_for(ext: &str) -> (ct: &'static str)
    ensures
        ct@ == content_type_spec(ext@),
{
    let lower = ascii_lowercase(ext);
    let e = lower.as_str();
    if str_eq(e, "mp3") {
        "audio/mpeg"
    } else if str_eq(e, "wav") {
        "audio/wav"
    } else if str_eq(e, "m4a") || str_eq(e, "aac") {
        "audio/aac"
    } else if str_eq(e, "flac") {
        "audio/flac"
    } else if str_eq(e, "ogg") || str_eq(e, "opus") {
        "audio/ogg"
    } else if str_eq(e, "webm") {
        "audio/webm"
    } else {
        "application/octet-stream"
    }
}

/// The content type does not depend on the case of the extension's letters.
pub proof fn content_type_ignores_case(ext: Seq<char>)
    ensures
        content_type_spec(ascii_lowercase_spec(ext)) == content_type_spec(ext),
{
    crate::text::lemma_ascii_lowercase_idempotent(ext);
}

// ---------------------------------------------------------------------------
// Calls of the job flow
// ---------------------------------------------------------------------------

/// One call of the job flow.
pub enum SarvamCall {
    /// Create a job (billable).
    Initialise,
    /// Ask for presigned upload URLs.
    UploadLinks,
    /// Put a file to its presigned upload URL.
    UploadPut { url: String },
    /// Start a job.
    Start { job_id: String },
    /// Poll a job's status.
    Status { job_id: String },
    /// Ask for presigned download URLs.
    DownloadLinks,
    /// Get an output file from its presigned download URL.
    DownloadGet { url: String },
}

pub open spec fn job_path() -> Seq<char> {
    "/speech-to-text/job/v1"@
}

/// The URL that a call goes to.
pub open spec fn call_url(c: SarvamCall) -> Seq<char> {
    match c {
        SarvamCall::Initialise => BASE@ + job_path(),
        SarvamCall::UploadLinks => BASE@ + job_path() + "/upload-files"@,
        SarvamCall::UploadPut { url } => url@,
        SarvamCall::Start { job_id } => BASE@ + job_path() + "/"@ + job_id@ + "/start"@,
        SarvamCall::Status { job_id } => BASE@ + job_path() + "/"@ + job_id@ + "/status"@,
        SarvamCall::DownloadLinks => BASE@ + job_path() + "/download-files"@,
        SarvamCall::DownloadGet { url } => url@,
    }
}

/// Whether a call carries the `api-subscription-key` header.
pub open spec fn call_sends_key(c: SarvamCall) -> bool {
    !(c is UploadPut || c is DownloadGet)
}

/// The name of a call in error messages.
pub open spec fn call_label(c: SarvamCall) -> Seq<char> {
    match c {
        SarvamCall::Initialise => "initialise"@,
        SarvamCall::UploadLinks => "upload-links"@,
        SarvamCall::UploadPut { .. } => "upload-put"@,
        SarvamCall::Start { .. } => "start"@,
        SarvamCall::Status { .. } => "status"@,
        SarvamCall::DownloadLinks => "download-links"@,
        SarvamCall::DownloadGet { .. } => "download-get"@,
    }
}

impl SarvamCall {
    /// The URL that the call goes to.
    pub fn url(&self) -> (u: String)
        ensures
            u@ == call_url(*self),
    {
        match self {
            SarvamCall::Initialise => concat2(BASE, "/speech-to-text/job/v1"),
            SarvamCall::UploadLinks => concat3(BASE, "/speech-to-text/job/v1", "/upload-files"),
            SarvamCall::UploadPut { url } => owned(url.as_str()),
            SarvamCall::Start { job_id } => {
                let mut u = concat3(BASE, "/speech-to-text/job/v1", "/");
                u.append(job_id.as_str());
                u.append("/start");
                u
            },
            SarvamCall::Status { job_id } => {
                let mut u = concat3(BASE, "/speech-to-text/job/v1", "/");
                u.append(job_id.as_str());
                u.append("/status");
                u
            },
            SarvamCall::DownloadLinks => concat3(BASE, "/speech-to-text/job/v1", "/download-files"),
            SarvamCall::DownloadGet { url } => owned(url.as_str()),
        }
    }

    /// Whether the call carries the API key: only the calls to the Sarvam API do.
    pub fn sends_api_key(&self) -> (b: bool)
        ensures
            b == call_sends_key(*self),
    {
        match self {
            SarvamCall::UploadPut { .. } => false,
            SarvamCall::DownloadGet { .. } => false,
            _ => true,
        }
    }

    /// The name of the call in error messages.
    pub fn label(&self) -> (l: &'static str)
        ensures
            l@ == call_label(*self),
    {
        match self {
            SarvamCall::Initialise => "initialise",
            SarvamCall::UploadLinks => "upload-links",
            SarvamCall::UploadPut { .. } => "upload-put",
            SarvamCall::Start { .. } => "start",
            SarvamCall::Status { .. } => "status",
            SarvamCall::DownloadLinks => "download-links",
            SarvamCall::DownloadGet { .. } => "download-get",
        }
    }
}

/// The API key is sent only to the Sarvam API: every call that carries it goes
/// to a URL under `BASE`, and the presigned transfers never carry it.
pub proof fn api_key_only_to_sarvam(c: SarvamCall)
    ensures
        call_sends_key(c) ==> call_url(c).take(BASE@.len() as int) == BASE@,
        (c is UploadPut || c is DownloadGet) ==> !call_sends_key(c),
{
    let b = BASE@;
    match c {
        SarvamCall::Initialise => {
            assert((b + job_path()).take(b.len() as int) =~= b);
        },
        SarvamCall::UploadLinks => {
            assert((b + job_path() + "/upload-files"@).take(b.len() as int) =~= b);
        },
        SarvamCall::Start { job_id } => {
            assert((b + job_path() + "/"@ + job_id@ + "/start"@).take(b.len() as int) =~= b);
        },
        SarvamCall::Status { job_id } => {
            assert((b + job_path() + "/"@ + job_id@ + "/status"@).take(b.len() as int) =~= b);
        },
        SarvamCall::DownloadLinks => {
            assert((b + job_path() + "/download-files"@).take(b.len() as int) =~= b);
        },
        _ => {},
    }
}

// ---------------------------------------------------------------------------
// Retry schedule: 5 attempts, waiting 2s, 4s, 8s, 16s between them
// ---------------------------------------------------------------------------

/// Seconds to wait after the failure of attempt `attempt` (counting from 1).
pub open spec fn backoff_secs(attempt: nat) -> nat
    decreases attempt,
{
    if attempt <= 1 {
        BASE_DELAY_SECS as nat
    } else {
        2 * backoff_secs((attempt - 1) as nat)
    }
}

/// Where a call stands in its retry schedule.
pub struct RetryState {
    pub attempt: u32,
    pub delay_secs: u64,
}

impl RetryState {
    pub open spec fn wf(self) -> bool {
        &&& 1 <= self.attempt <= MAX_ATTEMPTS
        &&& self.delay_secs == backoff_secs(self.attempt as nat)
    }

    /// Before the first attempt.
    pub fn first() -> (s: RetryState)
        ensures
            s.wf(),
            s.attempt == 1,
    {
        RetryState { attempt: 1, delay_secs: BASE_DELAY_SECS }
    }

    /// After the current attempt failed: how long to wait and the state of the
    /// next attempt, or `None` once the last attempt has failed.
    pub fn after_failure(&self) -> (r: Option<(u64, RetryState)>)
        requires
            self.wf(),
        ensures
            self.attempt == MAX_ATTEMPTS <==> r is None,
            r matches Some((wait, next)) ==> wait == self.delay_secs && next.attempt
                == self.attempt + 1 && next.wf(),
    {
        if self.attempt >= MAX_ATTEMPTS {
            None
        } else {
            assert(self.delay_secs <= 16) by {
                reveal_with_fuel(backoff_secs, 5);
            }
            Some((self.delay_secs, RetryState { attempt: self.attempt + 1, delay_secs: self.delay_secs * 2 }))
        }
    }
}

/// The retry schedule waits 2, 4, 8 and 16 seconds, and gives up after the
/// fifth attempt.
pub proof fn retry_schedule()
    ensures
        backoff_secs(1) == 2,
        backoff_secs(2) == 4,
        backoff_secs(3) == 8,
        backoff_secs(4) == 16,
        forall|k: nat| 1 <= k ==> #[trigger] backoff_secs(k + 1) == 2 * backoff_secs(k),
{
    reveal_with_fuel(backoff_secs, 5);
}

/// The message of a call that failed on every attempt.
pub fn exhausted_message(what: &str) -> (m: String)
    ensures
        m@ == what@ + " failed after 5 attempts"@,
{
    concat2(what, " failed after 5 attempts")
}

} // verus!
