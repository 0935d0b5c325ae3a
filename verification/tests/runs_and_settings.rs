use stt_app::commands::{
    api_key_to_store, group_by_language, is_newer, job_chunks, parse_ver, retry_failed_plan,
    settings_from, settings_writes, start_run_plan, update_available, FileSel, RetryInput,
    SettingWrite, SettingsInput, StartRunInput, StoredPrefs,
};
use stt_app::db::{aggregate_state, tally_states, AggregateState, RunFileDto, RunSummaryDto};
use stt_app::error::err;
use std::collections::HashMap;

fn states(v: &[&str]) -> Vec<String> {
    v.iter().map(|s| s.to_string()).collect()
}

#[test]
fn aggregate_of_empty_run_is_queued() {
    assert_eq!(aggregate_state(&states(&[])), AggregateState::Queued);
    assert_eq!(AggregateState::Queued.as_str(), "queued");
}

#[test]
fn aggregate_completed_only_when_all_done() {
    assert_eq!(aggregate_state(&states(&["done", "done"])), AggregateState::Completed);
    assert_eq!(aggregate_state(&states(&["done", "failed"])), AggregateState::Partial);
    assert_eq!(AggregateState::Completed.as_str(), "completed");
}

#[test]
fn aggregate_running_while_any_file_in_flight() {
    assert_eq!(aggregate_state(&states(&["uploading", "done"])), AggregateState::Running);
    assert_eq!(aggregate_state(&states(&["queued"])), AggregateState::Running);
    // An unknown state counts as in flight.
    assert_eq!(aggregate_state(&states(&["weird", "failed"])), AggregateState::Running);
    assert_eq!(AggregateState::Running.as_str(), "running");
}

#[test]
fn aggregate_failed_cancelled_and_partial() {
    assert_eq!(aggregate_state(&states(&["failed", "failed"])), AggregateState::Failed);
    assert_eq!(aggregate_state(&states(&["cancelled"])), AggregateState::Cancelled);
    assert_eq!(aggregate_state(&states(&["failed", "cancelled"])), AggregateState::Partial);
    assert_eq!(AggregateState::Partial.as_str(), "partial");
    assert_eq!(AggregateState::Failed.as_str(), "failed");
    assert_eq!(AggregateState::Cancelled.as_str(), "cancelled");
}

#[test]
fn aggregate_ignores_file_order() {
    let a = states(&["done", "failed", "processing", "cancelled"]);
    let b = states(&["processing", "cancelled", "done", "failed"]);
    assert_eq!(aggregate_state(&a), aggregate_state(&b));
    let t = tally_states(&a);
    assert_eq!((t.total, t.done, t.failed, t.cancelled, t.active), (4, 1, 1, 1, 1));
}

#[test]
fn err_carries_message() {
    let r: Result<(), _> = err("no transcript available for this file");
    assert_eq!(r.err().unwrap().message(), "no transcript available for this file");
}

#[test]
fn versions_parse_by_component() {
    assert_eq!(parse_ver("1.10.2"), vec![1, 10, 2]);
    assert_eq!(parse_ver("1.2-beta.3x"), vec![1, 2, 3]);
    assert_eq!(parse_ver("v1"), vec![0]);
    assert_eq!(parse_ver(""), vec![0]);
    assert_eq!(parse_ver("99999999999999999999.1"), vec![0, 1]);
}

#[test]
fn newer_versions_compare_numerically() {
    assert!(is_newer("1.10.0", "1.9.9"));
    assert!(is_newer("1.0.1", "1.0"));
    assert!(!is_newer("1.0", "1.0.0"));
    assert!(!is_newer("0.9", "1.0"));
    assert!(!is_newer("1.2.3", "1.2.3"));
}

#[test]
fn newer_is_a_strict_order_on_examples() {
    let vs = ["0.1", "0.1.1", "0.2", "1.0", "1.0.0", "2"];
    for a in vs {
        assert!(!is_newer(a, a));
        for b in vs {
            assert!(!(is_newer(a, b) && is_newer(b, a)));
            for c in vs {
                if is_newer(a, b) && is_newer(b, c) {
                    assert!(is_newer(a, c));
                }
            }
        }
    }
}

#[test]
fn update_reported_only_for_newer_release() {
    let u = update_available(Some("v1.2.0".into()), Some("https://x/r".into()), "1.1.0").unwrap();
    assert_eq!(u.version, "1.2.0");
    assert_eq!(u.current, "1.1.0");
    assert_eq!(u.url, "https://x/r");
    assert!(update_available(Some("v1.0.0".into()), None, "1.0.0").is_none());
    assert!(update_available(None, None, "0.1.0").is_none());
    assert!(update_available(Some("vvv".into()), None, "0.1.0").is_none());
    let d = update_available(Some("2".into()), None, "1").unwrap();
    assert_eq!(d.url, "https://github.com/richikchanda1999/stt-app/releases");
}

fn no_prefs() -> StoredPrefs {
    StoredPrefs {
        default_language: None,
        model: None,
        mode: None,
        with_diarization: None,
        with_timestamps: None,
        num_speakers: None,
    }
}

#[test]
fn settings_defaults_when_nothing_stored() {
    let s = settings_from(false, no_prefs());
    assert!(!s.has_api_key);
    assert_eq!(s.default_language, "unknown");
    assert_eq!(s.model, "saaras:v3");
    assert_eq!(s.mode.as_deref(), Some("transcribe"));
    assert!(s.with_diarization);
    assert!(s.with_timestamps);
    assert_eq!(s.num_speakers, None);
}

#[test]
fn settings_flags_and_speakers_parse() {
    let mut p = no_prefs();
    p.with_diarization = Some("0".into());
    p.with_timestamps = Some("yes".into());
    p.num_speakers = Some("3".into());
    let s = settings_from(true, p);
    assert!(s.has_api_key);
    assert!(!s.with_diarization);
    assert!(!s.with_timestamps);
    assert_eq!(s.num_speakers, Some(3));
    let mut q = no_prefs();
    q.num_speakers = Some("three".into());
    assert_eq!(settings_from(true, q).num_speakers, None);
}

fn apply(store: &mut HashMap<String, String>, writes: Vec<SettingWrite>) {
    for w in writes {
        match w {
            SettingWrite::Put { key, value } => {
                store.insert(key.to_string(), value);
            }
            SettingWrite::Delete { key } => {
                store.remove(key);
            }
        }
    }
}

fn read(store: &HashMap<String, String>) -> StoredPrefs {
    StoredPrefs {
        default_language: store.get("default_language").cloned(),
        model: store.get("model").cloned(),
        mode: store.get("mode").cloned(),
        with_diarization: store.get("with_diarization").cloned(),
        with_timestamps: store.get("with_timestamps").cloned(),
        num_speakers: store.get("num_speakers").cloned(),
    }
}

#[test]
fn saved_settings_read_back() {
    let mut store = HashMap::new();
    store.insert("num_speakers".to_string(), "9".to_string());
    let input = SettingsInput {
        api_key: None,
        default_language: "hi-IN".into(),
        model: "saarika:v2".into(),
        mode: None,
        with_diarization: false,
        with_timestamps: true,
        num_speakers: Some(-4),
    };
    apply(&mut store, settings_writes(&input));
    let s = settings_from(false, read(&store));
    assert_eq!(s.default_language, "hi-IN");
    assert_eq!(s.model, "saarika:v2");
    assert_eq!(s.mode.as_deref(), Some("transcribe"));
    assert!(!s.with_diarization);
    assert!(s.with_timestamps);
    assert_eq!(s.num_speakers, Some(-4));
    let input2 = SettingsInput { num_speakers: None, mode: Some("translate".into()), ..input };
    apply(&mut store, settings_writes(&input2));
    let s2 = settings_from(false, read(&store));
    assert_eq!(s2.num_speakers, None);
    assert_eq!(s2.mode.as_deref(), Some("translate"));
    assert!(!store.contains_key("num_speakers"));
}

#[test]
fn api_key_is_trimmed_and_blank_ignored() {
    assert_eq!(api_key_to_store(&Some("  sk-1 \n".into())).as_deref(), Some("sk-1"));
    assert_eq!(api_key_to_store(&Some(" \t ".into())), None);
    assert_eq!(api_key_to_store(&None), None);
}

fn start_input(files: Vec<FileSel>) -> StartRunInput {
    StartRunInput {
        files,
        default_language: "en-IN".into(),
        model: "saaras:v3".into(),
        mode: Some("transcribe".into()),
        with_diarization: true,
        with_timestamps: false,
        num_speakers: Some(2),
    }
}

#[test]
fn start_run_needs_files() {
    let r = start_run_plan(start_input(vec![]));
    assert_eq!(r.err().unwrap().message(), "no files selected");
}

#[test]
fn start_run_uses_default_language() {
    let files = vec![
        FileSel { asset_id: "a1".into(), language: None },
        FileSel { asset_id: "a2".into(), language: Some("ta-IN".into()) },
    ];
    let (p, fs) = start_run_plan(start_input(files)).ok().unwrap();
    assert_eq!(p.default_language, "en-IN");
    assert_eq!(p.model, "saaras:v3");
    assert_eq!(p.mode.as_deref(), Some("transcribe"));
    assert!(p.with_diarization && !p.with_timestamps);
    assert_eq!(p.num_speakers, Some(2));
    assert!(p.parent_run_id.is_none());
    assert_eq!(
        fs,
        vec![("a1".to_string(), "en-IN".to_string()), ("a2".to_string(), "ta-IN".to_string())]
    );
}

fn summary() -> RunSummaryDto {
    RunSummaryDto {
        id: "run-1".into(),
        created_at: "2024-01-01T00:00:00Z".into(),
        model: "saaras:v3".into(),
        mode: Some("transcribe".into()),
        default_language: "en-IN".into(),
        with_diarization: true,
        with_timestamps: true,
        num_speakers: None,
        aggregate_state: "partial".into(),
        parent_run_id: None,
        total: 3,
        done: 1,
        failed: 2,
    }
}

fn file(asset: &str, lang: &str, state: &str) -> RunFileDto {
    RunFileDto {
        id: format!("rf-{asset}"),
        asset_id: asset.into(),
        original_name: format!("{asset}.mp3"),
        job_id: None,
        effective_language: lang.into(),
        state: state.into(),
        error: None,
        has_transcript: false,
        docx_path: None,
    }
}

fn no_overrides() -> RetryInput {
    RetryInput {
        language: None,
        model: None,
        mode: None,
        with_diarization: None,
        with_timestamps: None,
        num_speakers: None,
    }
}

#[test]
fn retry_needs_failed_files() {
    let files = vec![file("a", "en-IN", "done"), file("b", "en-IN", "cancelled")];
    let r = retry_failed_plan("run-1", &summary(), &files, &no_overrides());
    assert_eq!(r.err().unwrap().message(), "no failed files to retry");
}

#[test]
fn retry_takes_failed_files_and_inherits_parameters() {
    let files = vec![
        file("a", "en-IN", "failed"),
        file("b", "hi-IN", "done"),
        file("c", "hi-IN", "failed"),
    ];
    let (p, fs) = retry_failed_plan("run-1", &summary(), &files, &no_overrides()).ok().unwrap();
    assert_eq!(p.parent_run_id.as_deref(), Some("run-1"));
    assert_eq!(p.model, "saaras:v3");
    assert_eq!(p.default_language, "en-IN");
    assert_eq!(p.mode.as_deref(), Some("transcribe"));
    assert_eq!(
        fs,
        vec![("a".to_string(), "en-IN".to_string()), ("c".to_string(), "hi-IN".to_string())]
    );
}

#[test]
fn retry_overrides_apply_to_every_file() {
    let files = vec![file("a", "en-IN", "failed"), file("c", "hi-IN", "failed")];
    let o = RetryInput {
        language: Some("ta-IN".into()),
        model: Some("saarika:v2".into()),
        mode: Some("translate".into()),
        with_diarization: Some(false),
        with_timestamps: Some(false),
        num_speakers: Some(5),
    };
    let (p, fs) = retry_failed_plan("run-1", &summary(), &files, &o).ok().unwrap();
    assert_eq!(p.default_language, "ta-IN");
    assert_eq!(p.model, "saarika:v2");
    assert_eq!(p.mode.as_deref(), Some("translate"));
    assert!(!p.with_diarization && !p.with_timestamps);
    assert_eq!(p.num_speakers, Some(5));
    assert!(fs.iter().all(|(_, l)| l == "ta-IN"));
}

#[test]
fn groups_sorted_by_language_with_files_in_order() {
    let files = vec![
        ("r1".to_string(), "hi-IN".to_string()),
        ("r2".to_string(), "en-IN".to_string()),
        ("r3".to_string(), "hi-IN".to_string()),
        ("r4".to_string(), "bn-IN".to_string()),
    ];
    let g = group_by_language(&files);
    assert_eq!(
        g,
        vec![
            ("bn-IN".to_string(), vec!["r4".to_string()]),
            ("en-IN".to_string(), vec!["r2".to_string()]),
            ("hi-IN".to_string(), vec!["r1".to_string(), "r3".to_string()]),
        ]
    );
    assert!(group_by_language(&vec![]).is_empty());
}

#[test]
fn jobs_hold_at_most_twenty_files() {
    let ids: Vec<String> = (0..45).map(|i| format!("id{i}")).collect();
    let chunks = job_chunks(&ids);
    assert_eq!(chunks.iter().map(|c| c.len()).collect::<Vec<_>>(), vec![20, 20, 5]);
    assert_eq!(chunks.concat(), ids);
    assert_eq!(job_chunks(&ids[..20].to_vec()).len(), 1);
    assert!(job_chunks(&vec![]).is_empty());
}

#[test]
fn jobs_partition_the_files() {
    for n in [0usize, 1, 19, 20, 21, 40, 41, 100] {
        let ids: Vec<String> = (0..n).map(|i| format!("rf{i}")).collect();
        let chunks = job_chunks(&ids);
        assert!(chunks.iter().all(|c| !c.is_empty() && c.len() <= 20));
        assert_eq!(chunks.concat(), ids);
        assert_eq!(chunks.len(), (n + 19) / 20);
    }
}
