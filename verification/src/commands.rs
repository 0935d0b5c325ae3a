//! The decisions of the frontend's commands: settings, starting and retrying
//! runs, grouping a run's files into jobs, and the update check.

use vstd::prelude::*;
use crate::db::{RunFileDto, RunParams, RunSummaryDto};
use crate::error::{err, AppError};
use crate::text::{
    chars_of, i64_to_decimal, leading_digits, leading_digits_of, lemma_leading_digits,
    lemma_parse_signed_decimal, owned, parse_i64, parse_i64_spec, parse_u64_digits,
    parse_u64_digits_spec, pieces_view, signed_decimal, split_chars, split_spec, str_eq,
    string_from_chars, trim, trim_spec, lex_lt, lex_less, lemma_lex_irreflexive,
    lemma_lex_trichotomy, lemma_lex_transitive,
};

verus! {

// ---------------------------------------------------------------------------
// Version comparison
// ---------------------------------------------------------------------------

/// One dot-separated component: its leading ASCII digits as a `u64`, or 0 when
/// there are none or they do not fit.
pub open spec fn ver_component(seg: Seq<char>) -> u64 {
    match parse_u64_digits_spec(leading_digits(seg)) {
        Some(v) => v,
        None => 0,
    }
}

/// The numeric components of a version string such as `1.10.2`.
pub open spec fn parse_ver_spec(s: Seq<char>) -> Seq<u64> {
    split_spec(s, '.').map_values(|seg: Seq<char>| ver_component(seg))
}

/// Component `i` of a version, 0 past its end.
pub open spec fn ver_at(v: Seq<u64>, i: int) -> u64 {
    if 0 <= i < v.len() {
        v[i]
    } else {
        0
    }
}

/// `a` is a later version than `b`: at the first component where they differ
/// (missing components count as 0), `a`'s is larger.
pub open spec fn newer_seq(a: Seq<u64>, b: Seq<u64>) -> bool {
    exists|i: int|
        0 <= i && (forall|j: int| 0 <= j < i ==> #[trigger] ver_at(a, j) == ver_at(b, j)) && ver_at(
            a,
            i,
        ) > ver_at(b, i)
}

pub open spec fn is_newer_spec(candidate: Seq<char>, current: Seq<char>) -> bool {
    newer_seq(parse_ver_spec(candidate), parse_ver_spec(current))
}

/// The numeric components of a version string.
pub fn parse_ver(s: &str) -> (v: Vec<u64>)
    ensures
        v@ == parse_ver_spec(s@),
{
    let cs = chars_of(s);
    let parts = split_chars(&cs, '.');
    let ghost segs = split_spec(s@, '.');
    let mut v: Vec<u64> = Vec::new();
    let mut i: usize = 0;
    while i < parts.len()
        invariant
            i <= parts.len(),
            pieces_view(parts@) == segs,
            segs == split_spec(s@, '.'),
            v@ == segs.take(i as int).map_values(|seg: Seq<char>| ver_component(seg)),
        decreases parts.len() - i,
    {
        let digits = leading_digits_of(&parts[i]);
        assert(parts@[i as int]@ == segs[i as int]);
        proof {
            lemma_leading_digits(parts@[i as int]@);
        }
        let c = match parse_u64_digits(&digits) {
            Some(x) => x,
            None => 0,
        };
        v.push(c);
        assert(segs.take(i + 1).map_values(|seg: Seq<char>| ver_component(seg)) =~= segs.take(
            i as int,
        ).map_values(|seg: Seq<char>| ver_component(seg)).push(ver_component(segs[i as int])));
        i = i + 1;
    }
    assert(segs.take(parts.len() as int) =~= segs);
    v
}

/// Whether `candidate` is a later version than `current`.
pub fn is_newer(candidate: &str, current: &str) -> (r: bool)
    ensures
        r == is_newer_spec(candidate@, current@),
{
    let a = parse_ver(candidate);
    let b = parse_ver(current);
    let n = if a.len() > b.len() {
        a.len()
    } else {
        b.len()
    };
    let mut i: usize = 0;
    while i < n
        invariant
            i <= n,
            n == if a@.len() > b@.len() {
                a@.len()
            } else {
                b@.len()
            },
            forall|j: int| 0 <= j < i ==> #[trigger] ver_at(a@, j) == ver_at(b@, j),
            a@ == parse_ver_spec(candidate@),
            b@ == parse_ver_spec(current@),
        decreases n - i,
    {
        let x = if i < a.len() {
            a[i]
        } else {
            0
        };
        let y = if i < b.len() {
            b[i]
        } else {
            0
        };
        assert(x == ver_at(a@, i as int));
        assert(y == ver_at(b@, i as int));
        if x != y {
            proof {
                if x > y {
                    let w = i as int;
                    assert(0 <= w && (forall|j: int| 0 <= j < w ==> #[trigger] ver_at(a@, j) == ver_at(b@, j))
                        && ver_at(a@, w) > ver_at(b@, w));
                    assert(newer_seq(a@, b@));
                }
                if x < y {
                    assert forall|k: int|
                        0 <= k && (forall|j: int|
                            0 <= j < k ==> #[trigger] ver_at(a@, j) == ver_at(b@, j)) implies !(
                    ver_at(a@, k) > ver_at(b@, k)) by {
                        if k > i {
                            assert(ver_at(a@, i as int) == ver_at(b@, i as int));
                        }
                    }
                }
            }
            return x > y;
        }
        i = i + 1;
    }
    proof {
        assert forall|k: int|
            0 <= k && (forall|j: int| 0 <= j < k ==> #[trigger] ver_at(a@, j) == ver_at(b@, j))
            implies !(ver_at(a@, k) > ver_at(b@, k)) by {
            if k < n {
                assert(ver_at(a@, k) == ver_at(b@, k));
            }
        }
    }
    false
}

/// No version is later than itself.
pub proof fn newer_irreflexive(a: Seq<u64>)
    ensures
        !newer_seq(a, a),
{
}

/// Of two versions, at most one is later than the other.
pub proof fn newer_asymmetric(a: Seq<u64>, b: Seq<u64>)
    ensures
        !(newer_seq(a, b) && newer_seq(b, a)),
{
    if newer_seq(a, b) && newer_seq(b, a) {
        let i = choose|i: int|
            0 <= i && (forall|j: int| 0 <= j < i ==> #[trigger] ver_at(a, j) == ver_at(b, j))
                && ver_at(a, i) > ver_at(b, i);
        let k = choose|k: int|
            0 <= k && (forall|j: int| 0 <= j < k ==> #[trigger] ver_at(b, j) == ver_at(a, j))
                && ver_at(b, k) > ver_at(a, k);
        if i < k {
            assert(ver_at(b, i) == ver_at(a, i));
        } else if k < i {
            assert(ver_at(a, k) == ver_at(b, k));
        }
    }
}

/// Being later is transitive.
pub proof fn newer_transitive(a: Seq<u64>, b: Seq<u64>, c: Seq<u64>)
    requires
        newer_seq(a, b),
        newer_seq(b, c),
    ensures
        newer_seq(a, c),
{
    let i = choose|i: int|
        0 <= i && (forall|j: int| 0 <= j < i ==> #[trigger] ver_at(a, j) == ver_at(b, j))
            && ver_at(a, i) > ver_at(b, i);
    let k = choose|k: int|
        0 <= k && (forall|j: int| 0 <= j < k ==> #[trigger] ver_at(b, j) == ver_at(c, j))
            && ver_at(b, k) > ver_at(c, k);
    let m = if i < k {
        i
    } else {
        k
    };
    assert forall|j: int| 0 <= j < m implies #[trigger] ver_at(a, j) == ver_at(c, j) by {
        assert(ver_at(a, j) == ver_at(b, j));
        assert(ver_at(b, j) == ver_at(c, j));
    }
    if i < k {
        assert(ver_at(b, i) == ver_at(c, i));
    } else if k < i {
        assert(ver_at(a, k) == ver_at(b, k));
    }
    assert(ver_at(a, m) > ver_at(c, m));
}

// ---------------------------------------------------------------------------
// Update check
// ---------------------------------------------------------------------------

pub const RELEASES_REPO: &'static str = "richikchanda1999/stt-app";

pub const RELEASES_PAGE: &'static str = "https://github.com/richikchanda1999/stt-app/releases";

/// A newer release than the running one.
pub struct UpdateInfo {
    pub version: String,
    pub current: String,
    pub url: String,
}

/// `str::trim_start_matches('v')`: without its leading `v`s.
pub open spec fn strip_v(s: Seq<char>) -> Seq<char>
    decreases s.len(),
{
    if s.len() > 0 && s[0] == 'v' {
        strip_v(s.drop_first())
    } else {
        s
    }
}

fn strip_leading_v(s: &str) -> (r: String)
    ensures
        r@ == strip_v(s@),
{
    let cs = chars_of(s);
    let mut i: usize = 0;
    assert(s@.skip(0) =~= s@);
    while i < cs.len() && cs[i] == 'v'
        invariant
            i <= cs.len(),
            cs@ == s@,
            strip_v(s@) == strip_v(s@.skip(i as int)),
        decreases cs.len() - i,
    {
        assert(s@.skip(i as int).drop_first() =~= s@.skip(i + 1));
        i = i + 1;
    }
    let mut out: Vec<char> = Vec::new();
    let mut j: usize = i;
    while j < cs.len()
        invariant
            i <= j <= cs.len(),
            cs@ == s@,
            out@ == s@.subrange(i as int, j as int),
        decreases cs.len() - j,
    {
        out.push(cs[j]);
        assert(s@.subrange(i as int, j + 1) =~= s@.subrange(i as int, j as int).push(cs@[j as int]));
        j = j + 1;
    }
    assert(s@.subrange(i as int, cs.len() as int) =~= s@.skip(i as int));
    string_from_chars(&out)
}

/// The latest release's version, from its tag with leading `v`s removed.
pub open spec fn latest_version(tag_name: Option<String>) -> Seq<char> {
    match tag_name {
        Some(t) => strip_v(t@),
        None => strip_v(seq![]),
    }
}

/// Decides whether the latest release (its tag and page, as the releases API
/// reports them) is newer than the running version.
pub fn update_available(tag_name: Option<String>, html_url: Option<String>, current: &str) -> (r:
    Option<UpdateInfo>)
    ensures
        r is Some <==> (latest_version(tag_name).len() > 0 && is_newer_spec(
            latest_version(tag_name),
            current@,
        )),
        r matches Some(u) ==> u.version@ == latest_version(tag_name) && u.current@ == current@
            && u.url@ == match html_url {
            Some(h) => h@,
            None => RELEASES_PAGE@,
        },
{
    let tag = match tag_name {
        Some(t) => t,
        None => String::new(),
    };
    let latest = strip_leading_v(tag.as_str());
    let url = match html_url {
        Some(h) => h,
        None => owned(RELEASES_PAGE),
    };
    if !latest.as_str().is_empty() && is_newer(latest.as_str(), current) {
        Some(UpdateInfo { version: latest, current: owned(current), url })
    } else {
        None
    }
}

// ---------------------------------------------------------------------------
// Settings
// ---------------------------------------------------------------------------

/// Settings as the frontend shows them.
pub struct SettingsDto {
    pub has_api_key: bool,
    pub default_language: String,
    pub model: String,
    pub mode: Option<String>,
    pub with_diarization: bool,
    pub with_timestamps: bool,
    pub num_speakers: Option<i64>,
}

/// Settings as the frontend submits them.
pub struct SettingsInput {
    pub api_key: Option<String>,
    pub default_language: String,
    pub model: String,
    pub mode: Option<String>,
    pub with_diarization: bool,
    pub with_timestamps: bool,
    pub num_speakers: Option<i64>,
}

/// The values stored under the settings keys (`None` where nothing is
/// stored).
pub struct StoredPrefs {
    pub default_language: Option<String>,
    pub model: Option<String>,
    pub mode: Option<String>,
    pub with_diarization: Option<String>,
    pub with_timestamps: Option<String>,
    pub num_speakers: Option<String>,
}

pub const KEY_DEFAULT_LANGUAGE: &'static str = "default_language";

pub const KEY_MODEL: &'static str = "model";

pub const KEY_MODE: &'static str = "mode";

pub const KEY_WITH_DIARIZATION: &'static str = "with_diarization";

pub const KEY_WITH_TIMESTAMPS: &'static str = "with_timestamps";

pub const KEY_NUM_SPEAKERS: &'static str = "num_speakers";

pub open spec fn pref_or(o: Option<String>, d: Seq<char>) -> Seq<char> {
    match o {
        Some(s) => s@,
        None => d,
    }
}

pub open spec fn speakers_of(o: Option<String>) -> Option<i64> {
    match o {
        Some(s) => parse_i64_spec(s@),
        None => None,
    }
}

/// The stored value or a default.
fn pref_or_default(o: Option<String>, d: &str) -> (r: String)
    ensures
        r@ == pref_or(o, d@),
{
    match o {
        Some(s) => s,
        None => owned(d),
    }
}

/// The settings shown to the frontend, from what is stored: defaults for what
/// is missing, flags stored as `"1"`, and the speaker count parsed as an
/// integer (dropped when it does not parse).
pub fn settings_from(has_api_key: bool, prefs: StoredPrefs) -> (s: SettingsDto)
    ensures
        s.has_api_key == has_api_key,
        s.default_language@ == pref_or(prefs.default_language, "unknown"@),
        s.model@ == pref_or(prefs.model, "saaras:v3"@),
        s.mode matches Some(m) && m@ == pref_or(prefs.mode, "transcribe"@),
        s.with_diarization == (pref_or(prefs.with_diarization, "1"@) == "1"@),
        s.with_timestamps == (pref_or(prefs.with_timestamps, "1"@) == "1"@),
        s.num_speakers == speakers_of(prefs.num_speakers),
{
    let num = match &prefs.num_speakers {
        Some(n) => parse_i64(n.as_str()),
        None => None,
    };
    let dia = pref_or_default(prefs.with_diarization, "1");
    let ts = pref_or_default(prefs.with_timestamps, "1");
    SettingsDto {
        has_api_key,
        default_language: pref_or_default(prefs.default_language, "unknown"),
        model: pref_or_default(prefs.model, "saaras:v3"),
        mode: Some(pref_or_default(prefs.mode, "transcribe")),
        with_diarization: str_eq(dia.as_str(), "1"),
        with_timestamps: str_eq(ts.as_str(), "1"),
        num_speakers: num,
    }
}

/// One write to the settings table.
pub enum SettingWrite {
    Put { key: &'static str, value: String },
    Delete { key: &'static str },
}

pub enum SettingWriteView {
    Put { key: Seq<char>, value: Seq<char> },
    Delete { key: Seq<char> },
}

impl View for SettingWrite {
    type V = SettingWriteView;

    open spec fn view(&self) -> SettingWriteView {
        match self {
            SettingWrite::Put { key, value } => SettingWriteView::Put { key: key@, value: value@ },
            SettingWrite::Delete { key } => SettingWriteView::Delete { key: key@ },
        }
    }
}

pub open spec fn flag_text(b: bool) -> Seq<char> {
    if b {
        "1"@
    } else {
        "0"@
    }
}

/// The writes that saving settings makes, in order.
pub open spec fn settings_writes_spec(input: SettingsInput) -> Seq<SettingWriteView> {
    seq![
        SettingWriteView::Put { key: KEY_DEFAULT_LANGUAGE@, value: input.default_language@ },
        SettingWriteView::Put { key: KEY_MODEL@, value: input.model@ },
        SettingWriteView::Put { key: KEY_MODE@, value: pref_or(input.mode, "transcribe"@) },
        SettingWriteView::Put { key: KEY_WITH_DIARIZATION@, value: flag_text(input.with_diarization) },
        SettingWriteView::Put { key: KEY_WITH_TIMESTAMPS@, value: flag_text(input.with_timestamps) },
        match input.num_speakers {
            Some(n) => SettingWriteView::Put { key: KEY_NUM_SPEAKERS@, value: signed_decimal(n as int) },
            None => SettingWriteView::Delete { key: KEY_NUM_SPEAKERS@ },
        },
    ]
}

fn flag(b: bool) -> (s: String)
    ensures
        s@ == flag_text(b),
{
    if b {
        owned("1")
    } else {
        owned("0")
    }
}

/// The writes that saving settings makes: every field under its key, the
/// mode defaulting to `transcribe`, flags as `"1"`/`"0"`, and the speaker
/// count as a decimal integer (its key deleted when there is none).
pub fn settings_writes(input: &SettingsInput) -> (w: Vec<SettingWrite>)
    ensures
        w@.map_values(|x: SettingWrite| x@) == settings_writes_spec(*input),
{
    let mut w: Vec<SettingWrite> = Vec::new();
    w.push(SettingWrite::Put { key: KEY_DEFAULT_LANGUAGE, value: input.default_language.clone() });
    w.push(SettingWrite::Put { key: KEY_MODEL, value: input.model.clone() });
    let mode = match &input.mode {
        Some(m) => m.clone(),
        None => owned("transcribe"),
    };
    w.push(SettingWrite::Put { key: KEY_MODE, value: mode });
    w.push(SettingWrite::Put { key: KEY_WITH_DIARIZATION, value: flag(input.with_diarization) });
    w.push(SettingWrite::Put { key: KEY_WITH_TIMESTAMPS, value: flag(input.with_timestamps) });
    match input.num_speakers {
        Some(n) => w.push(SettingWrite::Put { key: KEY_NUM_SPEAKERS, value: i64_to_decimal(n) }),
        None => w.push(SettingWrite::Delete { key: KEY_NUM_SPEAKERS }),
    }
    assert(w@.map_values(|x: SettingWrite| x@) =~= settings_writes_spec(*input));
    w
}

/// The API key to store: the submitted key without surrounding white space,
/// unless that leaves nothing.
pub fn api_key_to_store(api_key: &Option<String>) -> (r: Option<String>)
    ensures
        r matches Some(k) ==> api_key matches Some(a) && k@ == trim_spec(a@) && k@.len() > 0,
        r is None ==> (api_key is None || trim_spec(api_key->0@).len() == 0),
{
    match api_key {
        Some(k) => {
            let t = trim(k.as_str());
            if t.as_str().is_empty() {
                None
            } else {
                Some(t)
            }
        },
        None => None,
    }
}

/// A settings table: key to value.
pub open spec fn apply_writes(store: Map<Seq<char>, Seq<char>>, w: Seq<SettingWriteView>) -> Map<
    Seq<char>,
    Seq<char>,
>
    decreases w.len(),
{
    if w.len() == 0 {
        store
    } else {
        let s1 = apply_writes(store, w.drop_last());
        match w.last() {
            SettingWriteView::Put { key, value } => s1.insert(key, value),
            SettingWriteView::Delete { key } => s1.remove(key),
        }
    }
}

pub open spec fn stored(store: Map<Seq<char>, Seq<char>>, key: Seq<char>) -> Option<Seq<char>> {
    if store.dom().contains(key) {
        Some(store[key])
    } else {
        None
    }
}

pub open spec fn or_seq(o: Option<Seq<char>>, d: Seq<char>) -> Seq<char> {
    match o {
        Some(s) => s,
        None => d,
    }
}

proof fn lemma_setting_keys_distinct()
    ensures
        KEY_DEFAULT_LANGUAGE@ != KEY_MODEL@,
        KEY_DEFAULT_LANGUAGE@ != KEY_MODE@,
        KEY_DEFAULT_LANGUAGE@ != KEY_WITH_DIARIZATION@,
        KEY_DEFAULT_LANGUAGE@ != KEY_WITH_TIMESTAMPS@,
        KEY_DEFAULT_LANGUAGE@ != KEY_NUM_SPEAKERS@,
        KEY_MODEL@ != KEY_MODE@,
        KEY_MODEL@ != KEY_WITH_DIARIZATION@,
        KEY_MODEL@ != KEY_WITH_TIMESTAMPS@,
        KEY_MODEL@ != KEY_NUM_SPEAKERS@,
        KEY_MODE@ != KEY_WITH_DIARIZATION@,
        KEY_MODE@ != KEY_WITH_TIMESTAMPS@,
        KEY_MODE@ != KEY_NUM_SPEAKERS@,
        KEY_WITH_DIARIZATION@ != KEY_WITH_TIMESTAMPS@,
        KEY_WITH_DIARIZATION@ != KEY_NUM_SPEAKERS@,
        KEY_WITH_TIMESTAMPS@ != KEY_NUM_SPEAKERS@,
        "1"@ != "0"@,
{
    reveal_strlit("default_language");
    reveal_strlit("model");
    reveal_strlit("mode");
    reveal_strlit("with_diarization");
    reveal_strlit("with_timestamps");
    reveal_strlit("num_speakers");
    reveal_strlit("1");
    reveal_strlit("0");
    assert(KEY_DEFAULT_LANGUAGE@.len() != KEY_MODEL@.len());
    assert(KEY_DEFAULT_LANGUAGE@.len() != KEY_MODE@.len());
    assert(KEY_DEFAULT_LANGUAGE@[0] != KEY_WITH_DIARIZATION@[0]);
    assert(KEY_DEFAULT_LANGUAGE@[0] != KEY_WITH_TIMESTAMPS@[0]);
    assert(KEY_DEFAULT_LANGUAGE@[0] != KEY_NUM_SPEAKERS@[0]);
    assert(KEY_MODEL@.len() != KEY_MODE@.len());
    assert(KEY_MODEL@[0] != KEY_WITH_DIARIZATION@[0]);
    assert(KEY_MODEL@[0] != KEY_WITH_TIMESTAMPS@[0]);
    assert(KEY_MODEL@[0] != KEY_NUM_SPEAKERS@[0]);
    assert(KEY_MODE@[0] != KEY_WITH_DIARIZATION@[0]);
    assert(KEY_MODE@[0] != KEY_WITH_TIMESTAMPS@[0]);
    assert(KEY_MODE@[0] != KEY_NUM_SPEAKERS@[0]);
    assert(KEY_WITH_DIARIZATION@[5] != KEY_WITH_TIMESTAMPS@[5]);
    assert(KEY_WITH_DIARIZATION@[0] != KEY_NUM_SPEAKERS@[0]);
    assert(KEY_WITH_TIMESTAMPS@[0] != KEY_NUM_SPEAKERS@[0]);
    assert("1"@[0] != "0"@[0]);
}

/// Settings read back after they were saved are the settings that were saved,
/// whatever the table held before: the mode reads back as `transcribe` when
/// none was given, and the speaker count reads back as written.
pub proof fn settings_read_back(store: Map<Seq<char>, Seq<char>>, input: SettingsInput)
    ensures
        ({
            let s = apply_writes(store, settings_writes_spec(input));
            &&& or_seq(stored(s, KEY_DEFAULT_LANGUAGE@), "unknown"@) == input.default_language@
            &&& or_seq(stored(s, KEY_MODEL@), "saaras:v3"@) == input.model@
            &&& or_seq(stored(s, KEY_MODE@), "transcribe"@) == pref_or(input.mode, "transcribe"@)
            &&& (or_seq(stored(s, KEY_WITH_DIARIZATION@), "1"@) == "1"@) == input.with_diarization
            &&& (or_seq(stored(s, KEY_WITH_TIMESTAMPS@), "1"@) == "1"@) == input.with_timestamps
            &&& match stored(s, KEY_NUM_SPEAKERS@) {
                Some(v) => parse_i64_spec(v),
                None => None,
            } == input.num_speakers
        }),
{
    lemma_setting_keys_distinct();
    let w = settings_writes_spec(input);
    let s0 = store;
    let s1 = apply_writes(store, w.take(1));
    assert(w.take(1).drop_last() =~= w.take(0));
    assert(w.take(0) =~= Seq::<SettingWriteView>::empty());
    let s2 = apply_writes(store, w.take(2));
    assert(w.take(2).drop_last() =~= w.take(1));
    let s3 = apply_writes(store, w.take(3));
    assert(w.take(3).drop_last() =~= w.take(2));
    let s4 = apply_writes(store, w.take(4));
    assert(w.take(4).drop_last() =~= w.take(3));
    let s5 = apply_writes(store, w.take(5));
    assert(w.take(5).drop_last() =~= w.take(4));
    assert(w.drop_last() =~= w.take(5));
    let s = apply_writes(store, w);
    if let Some(n) = input.num_speakers {
        lemma_parse_signed_decimal(n);
    }
}

// ---------------------------------------------------------------------------
// Starting and retrying runs
// ---------------------------------------------------------------------------

/// A file chosen for a run, with an optional language of its own.
pub struct FileSel {
    pub asset_id: String,
    pub language: Option<String>,
}

/// What the frontend submits to start a run.
pub struct StartRunInput {
    pub files: Vec<FileSel>,
    pub default_language: String,
    pub model: String,
    pub mode: Option<String>,
    pub with_diarization: bool,
    pub with_timestamps: bool,
    pub num_speakers: Option<i64>,
}

/// What the frontend may override when retrying a run's failed files.
pub struct RetryInput {
    pub language: Option<String>,
    pub model: Option<String>,
    pub mode: Option<String>,
    pub with_diarization: Option<bool>,
    pub with_timestamps: Option<bool>,
    pub num_speakers: Option<i64>,
}

pub open spec fn opt_str(o: Option<String>) -> Option<Seq<char>> {
    match o {
        Some(s) => Some(s@),
        None => None,
    }
}

/// A file of a run and the language it is transcribed in.
pub open spec fn pair_view(p: (String, String)) -> (Seq<char>, Seq<char>) {
    (p.0@, p.1@)
}

pub open spec fn pairs_view(v: Seq<(String, String)>) -> Seq<(Seq<char>, Seq<char>)> {
    v.map_values(|p: (String, String)| pair_view(p))
}

/// The files of a new run: each selected asset with its own language, or the
/// run's default language.
pub open spec fn start_files_spec(files: Seq<FileSel>, default_language: Seq<char>) -> Seq<
    (Seq<char>, Seq<char>),
> {
    files.map_values(|f: FileSel| (f.asset_id@, pref_or(f.language, default_language)))
}

/// The parameters and files of a new run; refused when no file is selected.
pub fn start_run_plan(input: StartRunInput) -> (r: Result<(RunParams, Vec<(String, String)>), AppError>)
    ensures
        input.files@.len() == 0 <==> r is Err,
        r matches Err(e) ==> e.0@ == "no files selected"@,
        r matches Ok((p, files)) ==> {
            &&& p.default_language@ == input.default_language@
            &&& p.model@ == input.model@
            &&& opt_str(p.mode) == opt_str(input.mode)
            &&& p.with_diarization == input.with_diarization
            &&& p.with_timestamps == input.with_timestamps
            &&& p.num_speakers == input.num_speakers
            &&& p.parent_run_id is None
            &&& pairs_view(files@) == start_files_spec(input.files@, input.default_language@)
        },
{
    if input.files.len() == 0 {
        return err("no files selected");
    }
    let ghost sel = input.files@;
    let ghost dl = input.default_language@;
    let mut files: Vec<(String, String)> = Vec::new();
    let mut i: usize = 0;
    while i < input.files.len()
        invariant
            i <= input.files.len(),
            sel == input.files@,
            dl == input.default_language@,
            pairs_view(files@) == start_files_spec(sel.take(i as int), dl),
        decreases input.files.len() - i,
    {
        let f = &input.files[i];
        let lang = match &f.language {
            Some(l) => l.clone(),
            None => input.default_language.clone(),
        };
        let ghost before = files@;
        files.push((f.asset_id.clone(), lang));
        assert(pairs_view(files@) =~= pairs_view(before).push((f.asset_id@, lang@)));
        assert(start_files_spec(sel.take(i + 1), dl) =~= start_files_spec(sel.take(i as int), dl).push(
            (sel[i as int].asset_id@, pref_or(sel[i as int].language, dl)),
        ));
        i = i + 1;
    }
    assert(sel.take(input.files.len() as int) =~= sel);
    let params = RunParams {
        default_language: input.default_language,
        model: input.model,
        mode: input.mode,
        with_diarization: input.with_diarization,
        with_timestamps: input.with_timestamps,
        num_speakers: input.num_speakers,
        parent_run_id: None,
    };
    Ok((params, files))
}

/// The failed files of a run, with the override language when one is given.
pub open spec fn retry_files_spec(files: Seq<RunFileDto>, language: Option<String>) -> Seq<
    (Seq<char>, Seq<char>),
>
    decreases files.len(),
{
    if files.len() == 0 {
        seq![]
    } else {
        let prev = retry_files_spec(files.drop_last(), language);
        let f = files.last();
        if f.state@ == "failed"@ {
            prev.push((f.asset_id@, pref_or(language, f.effective_language@)))
        } else {
            prev
        }
    }
}

/// What a retried file is run with: its asset, and the override language or
/// its own.
pub open spec fn retried_as(f: RunFileDto, language: Option<String>) -> (Seq<char>, Seq<char>) {
    (f.asset_id@, pref_or(language, f.effective_language@))
}

/// Everything in `r` is a failed file of `files`, retried.
pub open spec fn comes_from_failed(
    files: Seq<RunFileDto>,
    language: Option<String>,
    r: Seq<(Seq<char>, Seq<char>)>,
) -> bool {
    forall|k: int|
        0 <= k < r.len() ==> exists|i: int|
            0 <= i < files.len() && files[i].state@ == "failed"@ && #[trigger] r[k] == retried_as(
                files[i],
                language,
            )
}

/// A retry takes exactly the failed files, whatever else is recorded of them:
/// every failed file is retried, in order, and everything retried is a failed
/// file.
pub proof fn retry_takes_exactly_the_failed_files(files: Seq<RunFileDto>, language: Option<String>)
    ensures
        forall|i: int|
            0 <= i < files.len() && (#[trigger] files[i]).state@ == "failed"@ ==> retry_files_spec(
                files,
                language,
            ).contains(retried_as(files[i], language)),
        comes_from_failed(files, language, retry_files_spec(files, language)),
        retry_files_spec(files, language).len() <= files.len(),
    decreases files.len(),
{
    if files.len() > 0 {
        let pre = files.drop_last();
        retry_takes_exactly_the_failed_files(pre, language);
        let r0 = retry_files_spec(pre, language);
        let r = retry_files_spec(files, language);
        let f = files.last();
        assert(f == files[files.len() - 1]);
        if "failed"@ == f.state@ {
            assert(r == r0.push(retried_as(f, language)));
        } else {
            assert(r == r0);
        }
        assert(r.len() <= files.len());
        assert forall|i: int|
            0 <= i < files.len() && (#[trigger] files[i]).state@ == "failed"@ implies r.contains(
                retried_as(files[i], language),
            ) by {
            if i < files.len() - 1 {
                assert(pre[i] == files[i]);
                assert(r0.contains(retried_as(pre[i], language)));
                let j = choose|j: int| 0 <= j < r0.len() && r0[j] == retried_as(pre[i], language);
                assert(r[j] == r0[j]);
            } else {
                assert(r[r.len() - 1] == retried_as(f, language));
            }
        }
        assert forall|k: int| 0 <= k < r.len() implies exists|i: int|
            0 <= i < files.len() && files[i].state@ == "failed"@ && #[trigger] r[k]
                == retried_as(files[i], language) by {
            if k < r0.len() {
                assert(r[k] == r0[k]);
                let i = choose|i: int|
                    0 <= i < pre.len() && pre[i].state@ == "failed"@ && #[trigger] r0[k]
                        == retried_as(pre[i], language);
                assert(pre[i] == files[i]);
            } else {
                assert(r[k] == retried_as(f, language));
                assert(files[files.len() - 1] == f);
            }
        }
        assert(comes_from_failed(files, language, r));
    } else {
        assert(retry_files_spec(files, language).len() == 0);
    }
}

/// Only a file's asset, language and state decide whether and how it is
/// retried: two lists of files that agree on these give the same retry.
pub proof fn retry_ignores_other_fields(a: Seq<RunFileDto>, b: Seq<RunFileDto>, language: Option<String>)
    requires
        a.len() == b.len(),
        forall|i: int|
            0 <= i < a.len() ==> (#[trigger] a[i]).asset_id@ == b[i].asset_id@ && a[i].effective_language@
                == b[i].effective_language@ && a[i].state@ == b[i].state@,
    ensures
        retry_files_spec(a, language) == retry_files_spec(b, language),
    decreases a.len(),
{
    if a.len() > 0 {
        let pa = a.drop_last();
        let pb = b.drop_last();
        assert forall|i: int| 0 <= i < pa.len() implies (#[trigger] pa[i]).asset_id@ == pb[i].asset_id@
            && pa[i].effective_language@ == pb[i].effective_language@ && pa[i].state@ == pb[i].state@ by {
            assert(pa[i] == a[i]);
            assert(pb[i] == b[i]);
        }
        retry_ignores_other_fields(pa, pb, language);
        assert(a.last() == a[a.len() - 1]);
        assert(b.last() == b[b.len() - 1]);
    }
}

fn clone_opt_string(o: &Option<String>) -> (r: Option<String>)
    ensures
        opt_str(r) == opt_str(*o),
{
    match o {
        Some(s) => Some(s.clone()),
        None => None,
    }
}

/// The parameters and files of a run that retries the failed files of run
/// `run_id`: overrides win over the source run's parameters, and the new run
/// records its parent. Refused when the source run has no failed file.
pub fn retry_failed_plan(run_id: &str, orig: &RunSummaryDto, files: &Vec<RunFileDto>, overrides: &RetryInput) -> (r: Result<
    (RunParams, Vec<(String, String)>),
    AppError,
>)
    ensures
        retry_files_spec(files@, overrides.language).len() == 0 <==> r is Err,
        r matches Err(e) ==> e.0@ == "no failed files to retry"@,
        r matches Ok((p, fs)) ==> {
            &&& p.default_language@ == pref_or(overrides.language, orig.default_language@)
            &&& p.model@ == pref_or(overrides.model, orig.model@)
            &&& opt_str(p.mode) == match overrides.mode {
                Some(m) => Some(m@),
                None => opt_str(orig.mode),
            }
            &&& p.with_diarization == match overrides.with_diarization {
                Some(b) => b,
                None => orig.with_diarization,
            }
            &&& p.with_timestamps == match overrides.with_timestamps {
                Some(b) => b,
                None => orig.with_timestamps,
            }
            &&& p.num_speakers == match overrides.num_speakers {
                Some(n) => Some(n),
                None => orig.num_speakers,
            }
            &&& p.parent_run_id matches Some(parent) && parent@ == run_id@
            &&& pairs_view(fs@) == retry_files_spec(files@, overrides.language)
        },
{
    let mut out: Vec<(String, String)> = Vec::new();
    let mut i: usize = 0;
    assert(pairs_view(out@) =~= retry_files_spec(files@.take(0), overrides.language));
    while i < files.len()
        invariant
            i <= files.len(),
            pairs_view(out@) == retry_files_spec(files@.take(i as int), overrides.language),
        decreases files.len() - i,
    {
        let f = &files[i];
        assert(files@.take(i + 1).drop_last() =~= files@.take(i as int));
        if str_eq(f.state.as_str(), "failed") {
            let lang = match &overrides.language {
                Some(l) => l.clone(),
                None => f.effective_language.clone(),
            };
            let ghost before = out@;
            out.push((f.asset_id.clone(), lang));
            assert(pairs_view(out@) =~= pairs_view(before).push((f.asset_id@, lang@)));
        }
        i = i + 1;
    }
    assert(files@.take(files.len() as int) =~= files@);
    if out.len() == 0 {
        return err("no failed files to retry");
    }
    let params = RunParams {
        default_language: match &overrides.language {
            Some(l) => l.clone(),
            None => orig.default_language.clone(),
        },
        model: match &overrides.model {
            Some(m) => m.clone(),
            None => orig.model.clone(),
        },
        mode: match &overrides.mode {
            Some(m) => Some(m.clone()),
            None => clone_opt_string(&orig.mode),
        },
        with_diarization: match overrides.with_diarization {
            Some(b) => b,
            None => orig.with_diarization,
        },
        with_timestamps: match overrides.with_timestamps {
            Some(b) => b,
            None => orig.with_timestamps,
        },
        num_speakers: match overrides.num_speakers {
            Some(n) => Some(n),
            None => orig.num_speakers,
        },
        parent_run_id: Some(owned(run_id)),
    };
    Ok((params, out))
}

} // verus!

verus! {

// ---------------------------------------------------------------------------
// Grouping a run's files into jobs
// ---------------------------------------------------------------------------

pub const MAX_FILES_PER_JOB: usize = 20;

/// The run files of `entries` (run file id, language) that have language
/// `lang`, in order.
pub open spec fn ids_for(entries: Seq<(Seq<char>, Seq<char>)>, lang: Seq<char>) -> Seq<Seq<char>>
    decreases entries.len(),
{
    if entries.len() == 0 {
        seq![]
    } else {
        let p = ids_for(entries.drop_last(), lang);
        if entries.last().1 == lang {
            p.push(entries.last().0)
        } else {
            p
        }
    }
}

pub type GroupView = (Seq<char>, Seq<Seq<char>>);

pub open spec fn group_view(g: (String, Vec<String>)) -> GroupView {
    (g.0@, g.1@.map_values(|s: String| s@))
}

pub open spec fn groups_view(v: Seq<(String, Vec<String>)>) -> Seq<GroupView> {
    v.map_values(|g: (String, Vec<String>)| group_view(g))
}

/// Groups by language, as a map ordered by language keeps them: languages in
/// increasing order, each once, exactly the languages of the entries, each
/// with its files in order.
pub open spec fn grouped_by_language(g: Seq<GroupView>, entries: Seq<(Seq<char>, Seq<char>)>) -> bool {
    &&& forall|i: int, j: int| 0 <= i < j < g.len() ==> lex_lt(#[trigger] g[i].0, #[trigger] g[j].0)
    &&& forall|i: int| 0 <= i < g.len() ==> #[trigger] g[i].1 == ids_for(entries, g[i].0)
    &&& forall|i: int| 0 <= i < g.len() ==> lang_used(entries, #[trigger] g[i].0)
    &&& forall|k: int| 0 <= k < entries.len() ==> has_group(g, #[trigger] entries[k].1)
}

/// Some entry has language `l`.
pub open spec fn lang_used(entries: Seq<(Seq<char>, Seq<char>)>, l: Seq<char>) -> bool {
    exists|k: int| 0 <= k < entries.len() && #[trigger] entries[k].1 == l
}

/// Some group has language `l`.
pub open spec fn has_group(g: Seq<GroupView>, l: Seq<char>) -> bool {
    exists|i: int| 0 <= i < g.len() && #[trigger] g[i].0 == l
}

fn lex_less_str(a: &str, b: &str) -> (r: bool)
    ensures
        r == lex_lt(a@, b@),
{
    let x = chars_of(a);
    let y = chars_of(b);
    lex_less(&x, &y)
}

proof fn lemma_ids_for_absent(entries: Seq<(Seq<char>, Seq<char>)>, lang: Seq<char>)
    requires
        forall|k: int| 0 <= k < entries.len() ==> #[trigger] entries[k].1 != lang,
    ensures
        ids_for(entries, lang) == Seq::<Seq<char>>::empty(),
    decreases entries.len(),
{
    if entries.len() > 0 {
        lemma_ids_for_absent(entries.drop_last(), lang);
    }
}

/// Groups the files of a run (run file id, language) by language, languages
/// in increasing order.
pub fn group_by_language(files: &Vec<(String, String)>) -> (g: Vec<(String, Vec<String>)>)
    ensures
        grouped_by_language(groups_view(g@), pairs_view(files@)),
{
    let ghost entries = pairs_view(files@);
    let mut groups: Vec<(String, Vec<String>)> = Vec::new();
    let mut i: usize = 0;
    assert(groups_view(groups@) =~= Seq::<GroupView>::empty());
    while i < files.len()
        invariant
            i <= files.len(),
            entries == pairs_view(files@),
            grouped_by_language(groups_view(groups@), entries.take(i as int)),
        decreases files.len() - i,
    {
        let ghost gv = groups_view(groups@);
        let ghost pre = entries.take(i as int);
        let ghost post = entries.take(i + 1);
        let ghost lang = files@[i as int].1@;
        let ghost id = files@[i as int].0@;
        assert(post.drop_last() =~= pre);
        assert(post.last() == (id, lang));
        assert forall|l: Seq<char>| l != lang implies ids_for(post, l) == ids_for(pre, l) by {}
        assert(ids_for(post, lang) == ids_for(pre, lang).push(id));
        let language = files[i].1.as_str();
        let mut p: usize = 0;
        while p < groups.len() && lex_less_str(groups[p].0.as_str(), language)
            invariant
                p <= groups.len(),
                gv == groups_view(groups@),
                lang == language@,
                forall|q: int| 0 <= q < p ==> lex_lt(#[trigger] gv[q].0, lang),
            decreases groups.len() - p,
        {
            p = p + 1;
        }
        // Every group from p on has a language that is not before `lang`.
        proof {
            if p < groups.len() {
                assert(!lex_lt(gv[p as int].0, lang));
                assert forall|q: int| p <= q < gv.len() implies !lex_lt(#[trigger] gv[q].0, lang) by {
                    if q > p {
                        assert(lex_lt(gv[p as int].0, gv[q].0));
                        lemma_lex_trichotomy(gv[p as int].0, lang);
                        if lex_lt(gv[q].0, lang) {
                            lemma_lex_transitive(gv[p as int].0, gv[q].0, lang);
                        }
                    }
                }
            }
        }
        if p < groups.len() && str_eq(groups[p].0.as_str(), language) {
            let mut g = groups.remove(p);
            let ghost old_ids = g.1@;
            g.1.push(files[i].0.clone());
            assert(g.1@.map_values(|s: String| s@) =~= old_ids.map_values(|s: String| s@).push(id));
            groups.insert(p, g);
            proof {
                let nv = groups_view(groups@);
                assert(nv =~= gv.update(p as int, (lang, gv[p as int].1.push(id))));
                assert forall|q: int| 0 <= q < nv.len() implies lang_used(post, #[trigger] nv[q].0) by {
                    assert(nv[q].0 == gv[q].0);
                    assert(lang_used(pre, gv[q].0));
                    let k = choose|k: int| 0 <= k < pre.len() && #[trigger] pre[k].1 == gv[q].0;
                    assert(post[k] == pre[k]);
                }
                assert forall|k: int| 0 <= k < post.len() implies has_group(nv, #[trigger] post[k].1) by {
                    if k < pre.len() {
                        assert(pre[k] == post[k]);
                        assert(has_group(gv, pre[k].1));
                        let q = choose|q: int| 0 <= q < gv.len() && #[trigger] gv[q].0 == pre[k].1;
                        assert(nv[q].0 == gv[q].0);
                    } else {
                        assert(nv[p as int].0 == lang);
                    }
                }
            }
        } else {
            let mut ids: Vec<String> = Vec::new();
            ids.push(files[i].0.clone());
            let g = (files[i].1.clone(), ids);
            assert(group_view(g) =~= (lang, seq![id]));
            groups.insert(p, g);
            proof {
                let nv = groups_view(groups@);
                assert(nv =~= gv.insert(p as int, (lang, seq![id])));
                // `lang` is new: no group had it, so no earlier file had it.
                assert forall|q: int| 0 <= q < gv.len() implies #[trigger] gv[q].0 != lang by {
                    if q < p {
                        lemma_lex_irreflexive(lang);
                    } else if q > p {
                        assert(lex_lt(gv[p as int].0, gv[q].0));
                        lemma_lex_trichotomy(gv[p as int].0, lang);
                        if gv[q].0 == lang {
                            lemma_lex_trichotomy(gv[p as int].0, gv[q].0);
                        }
                    }
                }
                assert forall|k: int| 0 <= k < pre.len() implies #[trigger] pre[k].1 != lang by {
                    assert(has_group(gv, pre[k].1));
                    let q = choose|q: int| 0 <= q < gv.len() && #[trigger] gv[q].0 == pre[k].1;
                }
                lemma_ids_for_absent(pre, lang);
                assert(ids_for(post, lang) =~= seq![id]);
                assert forall|a: int, b: int| 0 <= a < b < nv.len() implies lex_lt(
                    #[trigger] nv[a].0,
                    #[trigger] nv[b].0,
                ) by {
                    if a < p && b == p {
                    } else if a < p && b > p {
                        assert(nv[b] == gv[b - 1]);
                        if b - 1 == p as int {
                            lemma_lex_trichotomy(gv[p as int].0, lang);
                        } else {
                            assert(lex_lt(gv[p as int].0, gv[b - 1].0));
                            lemma_lex_trichotomy(gv[p as int].0, lang);
                            if lex_lt(lang, gv[p as int].0) {
                                lemma_lex_transitive(lang, gv[p as int].0, gv[b - 1].0);
                            }
                        }
                        lemma_lex_trichotomy(lang, gv[b - 1].0);
                        lemma_lex_transitive(gv[a].0, lang, gv[b - 1].0);
                    } else if a == p && b > p {
                        assert(nv[b] == gv[b - 1]);
                        if b - 1 == p as int {
                            lemma_lex_trichotomy(gv[p as int].0, lang);
                        } else {
                            assert(lex_lt(gv[p as int].0, gv[b - 1].0));
                            lemma_lex_trichotomy(gv[p as int].0, lang);
                            if lex_lt(lang, gv[p as int].0) {
                                lemma_lex_transitive(lang, gv[p as int].0, gv[b - 1].0);
                            }
                        }
                        lemma_lex_trichotomy(lang, gv[b - 1].0);
                    } else if a > p {
                        assert(nv[a] == gv[a - 1]);
                        assert(nv[b] == gv[b - 1]);
                    } else {
                        assert(nv[a] == gv[a]);
                        assert(nv[b] == gv[b]);
                    }
                }
                assert forall|q: int| 0 <= q < nv.len() implies lang_used(post, #[trigger] nv[q].0) by {
                    if q == p {
                        assert(post[i as int].1 == lang);
                    } else {
                        let q0 = if q < p {
                            q
                        } else {
                            q - 1
                        };
                        assert(nv[q].0 == gv[q0].0);
                        assert(lang_used(pre, gv[q0].0));
                        let k = choose|k: int| 0 <= k < pre.len() && #[trigger] pre[k].1 == gv[q0].0;
                        assert(post[k] == pre[k]);
                    }
                }
                assert forall|k: int| 0 <= k < post.len() implies has_group(nv, #[trigger] post[k].1) by {
                    if k < pre.len() {
                        assert(pre[k] == post[k]);
                        assert(has_group(gv, pre[k].1));
                        let q = choose|q: int| 0 <= q < gv.len() && #[trigger] gv[q].0 == pre[k].1;
                        if q < p {
                            assert(nv[q].0 == gv[q].0);
                        } else {
                            assert(nv[q + 1].0 == gv[q].0);
                        }
                    } else {
                        assert(nv[p as int].0 == lang);
                    }
                }
                assert forall|q: int| 0 <= q < nv.len() implies #[trigger] nv[q].1 == ids_for(post, nv[q].0) by {
                    if q < p {
                        assert(nv[q] == gv[q]);
                    } else if q > p {
                        assert(nv[q] == gv[q - 1]);
                    }
                }
            }
        }
        i = i + 1;
    }
    assert(entries.take(files.len() as int) =~= entries);
    groups
}

/// `slice::chunks(n)`: consecutive pieces of `n`, the last one shorter.
pub open spec fn chunks_spec(s: Seq<Seq<char>>, n: nat) -> Seq<Seq<Seq<char>>>
    decreases s.len(),
{
    if s.len() == 0 || n == 0 {
        seq![]
    } else if s.len() <= n {
        seq![s]
    } else {
        seq![s.take(n as int)] + chunks_spec(s.skip(n as int), n)
    }
}

/// Splitting into jobs loses, repeats and reorders nothing: the jobs one after
/// the other are the files, and every job has between 1 and 20 of them.
pub proof fn job_chunks_partition(s: Seq<Seq<char>>)
    ensures
        chunks_spec(s, MAX_FILES_PER_JOB as nat).flatten() == s,
        forall|i: int|
            0 <= i < chunks_spec(s, MAX_FILES_PER_JOB as nat).len() ==> 0 < #[trigger] chunks_spec(
                s,
                MAX_FILES_PER_JOB as nat,
            )[i].len() <= MAX_FILES_PER_JOB,
    decreases s.len(),
{
    let c = chunks_spec(s, 20);
    if s.len() == 0 {
        assert(c =~= Seq::<Seq<Seq<char>>>::empty());
    } else if s.len() <= 20 {
        assert(c =~= seq![s]);
        assert(c.drop_first() =~= Seq::<Seq<Seq<char>>>::empty());
        assert(c.drop_first().flatten() =~= Seq::<Seq<char>>::empty());
        assert(c.flatten() == c.first() + c.drop_first().flatten());
        assert(s + Seq::<Seq<char>>::empty() =~= s);
    } else {
        job_chunks_partition(s.skip(20));
        let rest = chunks_spec(s.skip(20), 20);
        assert(c =~= seq![s.take(20)] + rest);
        assert(c.first() == s.take(20));
        assert(c.drop_first() =~= rest);
        assert(s.take(20) + s.skip(20) =~= s);
        assert forall|i: int| 0 <= i < c.len() implies 0 < #[trigger] c[i].len() <= 20 by {
            if i > 0 {
                assert(c[i] == rest[i - 1]);
            }
        }
    }
}

/// Splits the files of one language into jobs of at most 20 files.
pub fn job_chunks(ids: &Vec<String>) -> (r: Vec<Vec<String>>)
    ensures
        r@.map_values(|c: Vec<String>| c@.map_values(|s: String| s@)) == chunks_spec(
            ids@.map_values(|s: String| s@),
            MAX_FILES_PER_JOB as nat,
        ),
{
    let ghost all = ids@.map_values(|s: String| s@);
    let mut r: Vec<Vec<String>> = Vec::new();
    let mut start: usize = 0;
    let n = MAX_FILES_PER_JOB;
    assert(all.skip(0) =~= all);
    assert(r@.map_values(|c: Vec<String>| c@.map_values(|s: String| s@)) =~= Seq::<Seq<Seq<char>>>::empty());
    while start < ids.len()
        invariant
            start <= ids.len(),
            n == 20,
            all == ids@.map_values(|s: String| s@),
            chunks_spec(all, 20) == r@.map_values(|c: Vec<String>| c@.map_values(|s: String| s@))
                + chunks_spec(all.skip(start as int), 20),
        decreases ids.len() - start,
    {
        let end = if ids.len() - start > n {
            start + n
        } else {
            ids.len()
        };
        let mut c: Vec<String> = Vec::new();
        let mut k: usize = start;
        while k < end
            invariant
                start <= k <= end <= ids.len(),
                all == ids@.map_values(|s: String| s@),
                c@.map_values(|s: String| s@) == all.subrange(start as int, k as int),
            decreases end - k,
        {
            let ghost before = c@;
            c.push(ids[k].clone());
            assert(c@.map_values(|s: String| s@) =~= before.map_values(|s: String| s@).push(all[k as int]));
            assert(all.subrange(start as int, k + 1) =~= all.subrange(start as int, k as int).push(all[k as int]));
            k = k + 1;
        }
        let ghost rest = all.skip(start as int);
        let ghost before_r = r@;
        r.push(c);
        proof {
            assert(r@.map_values(|c: Vec<String>| c@.map_values(|s: String| s@)) =~= before_r.map_values(
                |c: Vec<String>| c@.map_values(|s: String| s@),
            ).push(all.subrange(start as int, end as int)));
            if rest.len() <= 20 {
                assert(rest =~= all.subrange(start as int, end as int));
                assert(all.skip(end as int) =~= Seq::<Seq<char>>::empty());
                assert(chunks_spec(all.skip(end as int), 20) =~= Seq::<Seq<Seq<char>>>::empty());
            } else {
                assert(rest.take(20) =~= all.subrange(start as int, end as int));
                assert(rest.skip(20) =~= all.skip(end as int));
            }
            assert(chunks_spec(rest, 20) =~= seq![all.subrange(start as int, end as int)] + chunks_spec(
                all.skip(end as int),
                20,
            ));
        }
        start = end;
    }
    assert(all.skip(ids.len() as int) =~= Seq::<Seq<char>>::empty());
    assert(chunks_spec(all.skip(ids.len() as int), 20) =~= Seq::<Seq<Seq<char>>>::empty());
    r
}

} // verus!
