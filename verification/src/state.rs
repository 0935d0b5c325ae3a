//! Application state that is not I/O: the cancellation tokens of each run's
//! in-flight jobs, the on-disk layout, and where the API key comes from.

use vstd::prelude::*;
use tokio_util::sync::CancellationToken;
use crate::sarvam::first_index_of;
use crate::commands::{apply_writes, opt_str, stored, SettingWrite, SettingWriteView};
use crate::text::{owned, str_eq};

verus! {

pub const KEYRING_SERVICE: &'static str = "com.richikchanda1999.sarvam-stt-app";

pub const KEYRING_USER: &'static str = "sarvam_api_key";

/// Where the app keeps its files.
pub struct AppPaths {
    pub audio_dir: std::path::PathBuf,
    pub json_dir: std::path::PathBuf,
    pub docx_dir: std::path::PathBuf,
    pub db_path: std::path::PathBuf,
    pub logs_dir: std::path::PathBuf,
}

#[verifier::external_type_specification]
#[verifier::external_body]
pub struct ExPathBuf(std::path::PathBuf);

#[verifier::external_type_specification]
#[verifier::external_body]
pub struct ExCancellationToken(CancellationToken);

/// `CancellationToken::new`: a token that is not cancelled.
#[verifier::external_body]
fn token_new() -> CancellationToken {
    CancellationToken::new()
}

/// `CancellationToken::clone`: a handle to the same token (cancelling either
/// cancels both; not stated, since a token's state is shared and changes).
#[verifier::external_body]
fn token_clone(t: &CancellationToken) -> CancellationToken {
    t.clone()
}

/// `CancellationToken::cancel`: cancels the token and every handle to it.
#[verifier::external_body]
fn token_cancel(t: &CancellationToken) {
    t.cancel()
}

/// The cancellation tokens of each run's in-flight job tasks.
pub struct RunTokens {
    entries: Vec<(String, Vec<CancellationToken>)>,
}

pub open spec fn token_keys(v: Seq<(Seq<char>, nat)>) -> Seq<Seq<char>> {
    v.map_values(|e: (Seq<char>, nat)| e.0)
}

/// No run occurs twice.
pub open spec fn distinct_keys(v: Seq<(Seq<char>, nat)>) -> bool {
    forall|i: int, j: int| 0 <= i < j < v.len() ==> #[trigger] v[i].0 != #[trigger] v[j].0
}

/// The number of tokens registered for a run.
pub open spec fn token_count(v: Seq<(Seq<char>, nat)>, run_id: Seq<char>) -> nat {
    match first_index_of(token_keys(v), run_id) {
        Some(i) => v[i].1,
        None => 0,
    }
}

impl View for RunTokens {
    type V = Seq<(Seq<char>, nat)>;

    /// Each run with the number of its tokens, in order of first registration.
    closed spec fn view(&self) -> Seq<(Seq<char>, nat)> {
        self.entries@.map_values(|e: (String, Vec<CancellationToken>)| (e.0@, e.1@.len()))
    }
}

impl RunTokens {
    /// Each run has one entry.
    #[verifier::type_invariant]
    spec fn runs_distinct(self) -> bool {
        distinct_keys(self@)
    }

    /// No run has tokens.
    pub fn new() -> (r: RunTokens)
        ensures
            r@ == Seq::<(Seq<char>, nat)>::empty(),
            distinct_keys(r@),
    {
        let r = RunTokens { entries: Vec::new() };
        assert(r@ =~= Seq::<(Seq<char>, nat)>::empty());
        r
    }

    fn find(&self, run_id: &str) -> (r: Option<usize>)
        ensures
            r matches Some(i) ==> first_index_of(token_keys(self@), run_id@) == Some(i as int)
                && i < self@.len(),
            r is None ==> first_index_of(token_keys(self@), run_id@) is None,
    {
        let ghost keys = token_keys(self@);
        proof {
            crate::sarvam::lemma_first_index_of(keys, run_id@);
        }
        let mut i: usize = 0;
        while i < self.entries.len()
            invariant
                i <= self.entries.len(),
                keys == token_keys(self@),
                keys.len() == self.entries@.len(),
                forall|j: int| 0 <= j < i ==> keys[j] != run_id@,
            decreases self.entries.len() - i,
        {
            assert(keys[i as int] == self.entries@[i as int].0@);
            if str_eq(self.entries[i].0.as_str(), run_id) {
                proof {
                    crate::sarvam::lemma_first_index_of(keys, run_id@);
                    if first_index_of(keys, run_id@) is None {
                        assert(keys[i as int] == run_id@);
                    }
                    let k = first_index_of(keys, run_id@)->Some_0;
                    if k > i {
                        assert(keys[i as int] == run_id@);
                    }
                }
                return Some(i);
            }
            i = i + 1;
        }
        proof {
            crate::sarvam::lemma_first_index_of(keys, run_id@);
            if first_index_of(keys, run_id@) is Some {
                let k = first_index_of(keys, run_id@)->Some_0;
                assert(keys[k] == run_id@);
            }
        }
        None
    }

    /// Registers a new token for a run and hands it out: the run's count goes
    /// up by one, every other run's stays.
    pub fn register_token(&mut self, run_id: &str) -> (t: CancellationToken)
        ensures
            final(self)@ == match first_index_of(token_keys(old(self)@), run_id@) {
                Some(i) => old(self)@.update(i, (run_id@, old(self)@[i].1 + 1)),
                None => old(self)@.push((run_id@, 1)),
            },
            distinct_keys(final(self)@),
    {
        proof {
            use_type_invariant(&*self);
        }
        let token = token_new();
        let handle = token_clone(&token);
        let found = self.find(run_id);
        let ghost before = self@;
        let mut entries: Vec<(String, Vec<CancellationToken>)> = Vec::new();
        std::mem::swap(&mut entries, &mut self.entries);
        let ghost view_of = |es: Seq<(String, Vec<CancellationToken>)>|
            es.map_values(|e: (String, Vec<CancellationToken>)| (e.0@, e.1@.len()));
        assert(view_of(entries@) == before);
        proof {
            crate::sarvam::lemma_first_index_of(token_keys(before), run_id@);
        }
        match found {
            Some(i) => {
                assert(token_keys(before)[i as int] == entries@[i as int].0@);
                let mut e = entries.remove(i);
                assert(e.0@ == run_id@);
                e.1.push(token);
                entries.insert(i, e);
                assert(view_of(entries@) =~= before.update(i as int, (run_id@, before[i as int].1 + 1)));
            },
            None => {
                let mut v: Vec<CancellationToken> = Vec::new();
                v.push(token);
                entries.push((run_id.to_owned(), v));
                assert(view_of(entries@) =~= before.push((run_id@, 1)));
                assert forall|k: int| 0 <= k < before.len() implies before[k].0 != run_id@ by {
                    assert(token_keys(before)[k] == before[k].0);
                }
            },
        }
        self.entries = entries;
        handle
    }

    /// Cancels every token registered for a run.
    pub fn cancel_run(&self, run_id: &str) {
        match self.find(run_id) {
            Some(i) => {
                let tokens = &self.entries[i].1;
                let mut k: usize = 0;
                while k < tokens.len()
                    decreases tokens.len() - k,
                {
                    token_cancel(&tokens[k]);
                    k = k + 1;
                }
            },
            None => {},
        }
    }

    /// How many tokens a run has.
    pub fn tokens_for(&self, run_id: &str) -> (n: usize)
        ensures
            n == token_count(self@, run_id@),
    {
        match self.find(run_id) {
            Some(i) => self.entries[i].1.len(),
            None => 0,
        }
    }
}

/// A password read from the OS keychain is used only when it is not empty.
pub fn keychain_key(password: Option<String>) -> (r: Option<String>)
    ensures
        r matches Some(k) ==> password == Some(k) && k@.len() > 0,
        r is None ==> (password is None || password->0@.len() == 0),
{
    match password {
        Some(p) => {
            if p.as_str().is_empty() {
                None
            } else {
                Some(p)
            }
        },
        None => None,
    }
}

/// The API key in use, given what the keychain and the settings table hold.
pub open spec fn api_key_spec(keychain: Option<Seq<char>>, stored: Option<Seq<char>>) -> Option<Seq<char>> {
    match keychain {
        Some(k) => if k.len() > 0 {
            Some(k)
        } else {
            stored
        },
        None => stored,
    }
}

/// What storing `key` writes to the settings table.
pub open spec fn fallback_write_spec(keychain_stored: bool, key: Seq<char>) -> SettingWriteView {
    if keychain_stored {
        SettingWriteView::Delete { key: KEY_API_KEY@ }
    } else {
        SettingWriteView::Put { key: KEY_API_KEY@, value: key }
    }
}

/// The API key in use: the keychain's password when there is a non-empty one,
/// else the key stored in the settings table.
pub fn api_key_from(keychain: Option<String>, stored: Option<String>) -> (r: Option<String>)
    ensures
        opt_str(r) == api_key_spec(opt_str(keychain), opt_str(stored)),
        (keychain matches Some(k) && k@.len() > 0) ==> r == keychain,
        !(keychain matches Some(k) && k@.len() > 0) ==> r == stored,
{
    match keychain_key(keychain) {
        Some(k) => Some(k),
        None => stored,
    }
}

/// The settings key under which the API key is kept when the keychain is not
/// available.
pub const KEY_API_KEY: &'static str = "api_key";

/// What storing the API key does to the settings table: once the keychain
/// took the key, the fallback copy is deleted; otherwise the key is kept there.
pub fn api_key_fallback_write(keychain_stored: bool, key: &str) -> (w: SettingWrite)
    ensures
        w@ == fallback_write_spec(keychain_stored, key@),
        keychain_stored ==> w@ == (SettingWriteView::Delete { key: KEY_API_KEY@ }),
        !keychain_stored ==> w@ == (SettingWriteView::Put { key: KEY_API_KEY@, value: key@ }),
{
    if keychain_stored {
        SettingWrite::Delete { key: KEY_API_KEY }
    } else {
        SettingWrite::Put { key: KEY_API_KEY, value: owned(key) }
    }
}

/// Storing a non-empty API key and then reading the key in use gives it back.
/// When the keychain took the key (and gives it back), the settings table keeps
/// no copy; when the keychain refused it (and gives nothing back), the settings
/// table holds it.
pub proof fn api_key_read_back(
    settings: Map<Seq<char>, Seq<char>>,
    key: Seq<char>,
    keychain_took: bool,
    keychain_after: Option<Seq<char>>,
)
    requires
        key.len() > 0,
        keychain_took ==> keychain_after == Some(key),
        !keychain_took ==> (keychain_after is None || keychain_after == Some(Seq::<char>::empty())),
    ensures
        ({
            let s = apply_writes(settings, seq![fallback_write_spec(keychain_took, key)]);
            &&& api_key_spec(keychain_after, stored(s, KEY_API_KEY@)) == Some(key)
            &&& keychain_took ==> stored(s, KEY_API_KEY@) is None
            &&& !keychain_took ==> stored(s, KEY_API_KEY@) == Some(key)
        }),
{
    let w = seq![fallback_write_spec(keychain_took, key)];
    assert(w.drop_last() =~= Seq::<SettingWriteView>::empty());
    assert(apply_writes(settings, w.drop_last()) == settings);
}

/// Registering a token for a run gives it one more and leaves the others.
pub proof fn register_adds_one(v: Seq<(Seq<char>, nat)>, run_id: Seq<char>, other: Seq<char>)
    ensures
        ({
            let after = match first_index_of(token_keys(v), run_id) {
                Some(i) => v.update(i, (run_id, v[i].1 + 1)),
                None => v.push((run_id, 1)),
            };
            &&& token_count(after, run_id) == token_count(v, run_id) + 1
            &&& other != run_id ==> token_count(after, other) == token_count(v, other)
        }),
{
    crate::sarvam::lemma_first_index_of(token_keys(v), run_id);
    crate::sarvam::lemma_first_index_of(token_keys(v), other);
    let after = match first_index_of(token_keys(v), run_id) {
        Some(i) => v.update(i, (run_id, v[i].1 + 1)),
        None => v.push((run_id, 1)),
    };
    crate::sarvam::lemma_first_index_of(token_keys(after), run_id);
    crate::sarvam::lemma_first_index_of(token_keys(after), other);
    let ka = token_keys(after);
    let kv = token_keys(v);
    match first_index_of(kv, run_id) {
        Some(i) => {
            assert(ka =~= kv);
        },
        None => {
            assert(ka =~= kv.push(run_id));
            assert(ka[kv.len() as int] == run_id);
            if first_index_of(ka, run_id) is Some {
                let j = first_index_of(ka, run_id)->Some_0;
                if j < kv.len() {
                    assert(ka[j] == kv[j]);
                }
            }
            if other != run_id {
                match first_index_of(kv, other) {
                    Some(j) => {
                        assert(ka[j] == other);
                        let j2 = first_index_of(ka, other)->Some_0;
                        if j2 < j {
                            assert(ka[j2] == kv[j2]);
                        }
                    },
                    None => {
                        if first_index_of(ka, other) is Some {
                            let j2 = first_index_of(ka, other)->Some_0;
                            if j2 < kv.len() {
                                assert(ka[j2] == kv[j2]);
                            }
                        }
                    },
                }
            }
        },
    }
}

} // verus!
