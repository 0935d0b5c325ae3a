# stt_app

A desktop app for batch speech-to-text with Sarvam: import audio files, run
them through Sarvam's batch jobs in groups by language, follow each file's
progress, and export transcripts as speaker-labelled, timestamped documents.

## Layout

- `src/` — the verified library (Verus). It holds the app's decisions and data:
  - `runner` — the job engine as a state machine: `JobTask::step` takes the
    outcome of the last request and returns the next state, the effects to
    carry out and the next request. Its contract is an exact model
    (`spec_step`); the laws (`job_stored_before_upload`,
    `finalize_settles_active_files`, `starting_tasks`) say that a job is stored
    before anything is uploaded, that a stored job is never created again, and
    that finalizing leaves no file in flight.
  - `db` — the records the app stores, and a run's aggregate state as a
    function of its files' states (with its laws).
  - `commands` — settings (and their read-back law), planning new and retried
    runs, grouping files by language into jobs of at most 20, version
    comparison and the update check.
  - `sarvam` — the wire records, the calls of the job flow (which URL, whether
    the API key is sent), content types, and the retry schedule.
  - `naming`, `hashing`, `text` — ids, upload and stored file names, content
    hashes and the string functions the rest is built on.
  - `docx` — what a transcript's document says, and building it with `docx-rs`.
  - `state`, `error` — cancellation tokens per run, where the API key comes
    from, and the error type of the commands.
- `tests/` — tests of the library.
- `app/` — the Tauri program around the library: SQLite, HTTP, the keychain,
  files, events and the async loop that runs each `JobTask`.
