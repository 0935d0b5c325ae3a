//! Identifiers and file names: fresh ids, upload names that are unique within
//! a job, stored asset names, and the hex form of content hashes.

use vstd::prelude::*;
use vstd::utf8::*;
use vstd::string::StringSliceAdditionalSpecFns;
use crate::db::AssetDto;
use crate::text::{chars_of, push_char, str_eq};

verus! {

// ---------------------------------------------------------------------------
// Fresh ids
// ---------------------------------------------------------------------------

pub open spec fn is_lower_hex_digit(c: char) -> bool {
    ('0' <= c && c <= '9') || ('a' <= c && c <= 'f')
}

/// The hyphenated form of a UUID: 36 characters, hyphens at 8, 13, 18, 23 and
/// lower-case hex digits elsewhere.
pub open spec fn is_hyphenated_uuid(s: Seq<char>) -> bool {
    &&& s.len() == 36
    &&& forall|i: int|
        0 <= i < 36 ==> if i == 8 || i == 13 || i == 18 || i == 23 {
            #[trigger] s[i] == '-'
        } else {
            is_lower_hex_digit(s[i])
        }
}

/// `uuid::Uuid::new_v4().to_string()`: a random version-4 UUID in its
/// hyphenated lower-case form (as `Uuid`'s `Display` documents). Which one
/// comes out is chance and is not stated.
#[verifier::external_body]
pub(crate) fn new_id() -> (s: String)
    ensures
        is_hyphenated_uuid(s@),
{
    uuid::Uuid::new_v4().to_string()
}

// ---------------------------------------------------------------------------
// Upload names
// ---------------------------------------------------------------------------

/// What `char::is_alphanumeric` answers for a character: whether it has the
/// Unicode `Alphabetic` property or a numeric general category. The tables
/// are Unicode's and are not restated here.
pub uninterp spec fn is_alphanumeric_spec(c: char) -> bool;

/// `char::is_alphanumeric`. Among ASCII characters, exactly the letters and
/// digits are alphanumeric, as its documentation (alphabetic or numeric) gives.
#[verifier::external_body]
pub(crate) fn char_is_alphanumeric(c: char) -> (b: bool)
    ensures
        b == is_alphanumeric_spec(c),
        (c as u32) < 128 ==> (b <==> is_ascii_alphanumeric(c)),
{
    c.is_alphanumeric()
}

/// ASCII letters and digits.
pub open spec fn is_ascii_alphanumeric(c: char) -> bool {
    ('a' <= c && c <= 'z') || ('A' <= c && c <= 'Z') || ('0' <= c && c <= '9')
}

/// Whether a character is alphanumeric: among ASCII characters exactly the
/// letters and digits, elsewhere as Unicode's tables say.
pub open spec fn alphanumeric(c: char) -> bool {
    if (c as u32) < 128 {
        is_ascii_alphanumeric(c)
    } else {
        is_alphanumeric_spec(c)
    }
}

/// A character kept in an upload name; every other one becomes `_`.
pub open spec fn upload_safe(c: char) -> char {
    if alphanumeric(c) || c == '.' || c == '-' || c == '_' {
        c
    } else {
        '_'
    }
}

pub open spec fn sanitize_spec(s: Seq<char>) -> Seq<char> {
    s.map_values(|c: char| upload_safe(c))
}

/// The characters of the first 8 bytes of an id.
pub open spec fn id_prefix(id: Seq<char>) -> Seq<char> {
    decode_utf8(encode_utf8(id).subrange(0, 8))
}

/// The upload name of a run file: the first 8 bytes of its id, `_`, and its
/// original name with every character that is not alphanumeric, `.`, `-` or
/// `_` replaced by `_`.
pub open spec fn upload_name_spec(rf_id: Seq<char>, original_name: Seq<char>) -> Seq<char> {
    id_prefix(rf_id) + seq!['_'] + sanitize_spec(original_name)
}

/// Sanitize and prefix a file name so that upload names are unique within a
/// job. The id must have a character boundary at byte 8 (slicing there
/// panics otherwise).
pub fn upload_name_for(rf_id: &str, original_name: &str) -> (r: String)
    requires
        is_char_boundary(rf_id.spec_bytes(), 8),
    ensures
        r@ == upload_name_spec(rf_id@, original_name@),
{
    let (head, _) = rf_id.split_at(8);
    proof {
        encode_utf8_decode_utf8(head@);
    }
    let mut out = head.to_owned();
    push_char(&mut out, '_');
    let cs = chars_of(original_name);
    let ghost base = out@;
    let mut i: usize = 0;
    while i < cs.len()
        invariant
            i <= cs.len(),
            cs@ == original_name@,
            out@ == base + sanitize_spec(original_name@.take(i as int)),
        decreases cs.len() - i,
    {
        let c = cs[i];
        let kept = if char_is_alphanumeric(c) || c == '.' || c == '-' || c == '_' {
            c
        } else {
            '_'
        };
        push_char(&mut out, kept);
        assert(sanitize_spec(original_name@.take(i + 1)) =~= sanitize_spec(
            original_name@.take(i as int),
        ).push(kept));
        i = i + 1;
    }
    assert(original_name@.take(cs.len() as int) =~= original_name@);
    out
}

pub proof fn lemma_encode_concat(a: Seq<char>, b: Seq<char>)
    ensures
        encode_utf8(a + b) == encode_utf8(a) + encode_utf8(b),
    decreases a.len(),
{
    if a.len() == 0 {
        assert(a + b =~= b);
        assert(encode_utf8(a) =~= Seq::<u8>::empty());
        assert(Seq::<u8>::empty() + encode_utf8(b) =~= encode_utf8(b));
    } else {
        lemma_encode_concat(a.drop_first(), b);
        assert((a + b).drop_first() =~= a.drop_first() + b);
        assert((a + b)[0] == a[0]);
        assert(encode_scalar(a[0] as u32) + (encode_utf8(a.drop_first()) + encode_utf8(b))
            =~= (encode_scalar(a[0] as u32) + encode_utf8(a.drop_first())) + encode_utf8(b));
    }
}

/// Run files whose ids differ in their first 8 bytes get different upload
/// names, whatever their original names.
pub proof fn upload_names_distinct(id1: Seq<char>, id2: Seq<char>, name1: Seq<char>, name2: Seq<char>)
    requires
        is_char_boundary(encode_utf8(id1), 8),
        is_char_boundary(encode_utf8(id2), 8),
        encode_utf8(id1).subrange(0, 8) != encode_utf8(id2).subrange(0, 8),
    ensures
        upload_name_spec(id1, name1) != upload_name_spec(id2, name2),
{
    broadcast use encode_utf8_valid_utf8, valid_utf8_split, decode_utf8_encode_utf8;

    let b1 = encode_utf8(id1);
    let b2 = encode_utf8(id2);
    let p1 = b1.subrange(0, 8);
    let p2 = b2.subrange(0, 8);
    assert(valid_utf8(b1));
    assert(valid_utf8(b2));
    assert(valid_utf8(p1));
    assert(valid_utf8(p2));
    assert(encode_utf8(id_prefix(id1)) == p1);
    assert(encode_utf8(id_prefix(id2)) == p2);
    let rest1 = seq!['_'] + sanitize_spec(name1);
    let rest2 = seq!['_'] + sanitize_spec(name2);
    assert(upload_name_spec(id1, name1) == id_prefix(id1) + rest1);
    assert(upload_name_spec(id2, name2) == id_prefix(id2) + rest2);
    lemma_encode_concat(id_prefix(id1), rest1);
    lemma_encode_concat(id_prefix(id2), rest2);
    if upload_name_spec(id1, name1) == upload_name_spec(id2, name2) {
        let e = encode_utf8(upload_name_spec(id1, name1));
        assert(e.subrange(0, 8) =~= p1);
        assert(e.subrange(0, 8) =~= p2);
    }
}

/// A fresh id has a character boundary at byte 8, so its upload names can be
/// made.
pub proof fn lemma_uuid_boundary(s: Seq<char>)
    requires
        is_hyphenated_uuid(s),
    ensures
        is_char_boundary(encode_utf8(s), 8),
{
    broadcast use encode_utf8_valid_utf8, is_ascii_chars_encode_utf8,
        is_char_boundary_iff_not_is_continuation_byte;

    assert forall|i: int| 0 <= i < s.len() implies '\0' <= #[trigger] s[i] <= '\u{7f}' by {
        if !(i == 8 || i == 13 || i == 18 || i == 23) {
            assert(is_lower_hex_digit(s[i]));
        }
    }
    assert(is_ascii_chars(s));
    let b = encode_utf8(s);
    assert(b.len() == 36);
    assert(b[8] == s[8] as u8);
    assert(s[8] == '-');
    assert(!is_continuation_byte(b[8]));
}

/// A new run file: a fresh id and the upload name made from it.
pub fn new_run_file_names(original_name: &str) -> (r: (String, String))
    ensures
        is_hyphenated_uuid(r.0@),
        r.1@ == upload_name_spec(r.0@, original_name@),
{
    let id = new_id();
    proof {
        lemma_uuid_boundary(id@);
    }
    let name = upload_name_for(id.as_str(), original_name);
    (id, name)
}

// ---------------------------------------------------------------------------
// Stored assets
// ---------------------------------------------------------------------------

/// The stored file name of an asset: its content hash, with the extension when
/// there is one. Assets are content-addressed.
pub open spec fn asset_file_name_spec(sha: Seq<char>, ext: Seq<char>) -> Seq<char> {
    if ext.len() == 0 {
        sha
    } else {
        sha + "."@ + ext
    }
}

pub fn asset_file_name(sha: &str, ext: &str) -> (r: String)
    ensures
        r@ == asset_file_name_spec(sha@, ext@),
{
    if ext.is_empty() {
        sha.to_owned()
    } else {
        crate::text::concat3(sha, ".", ext)
    }
}

/// The name and extension an imported file is recorded with: its file name,
/// `audio` when the path has none, and its extension, empty when it has none.
pub fn import_names(file_name: Option<String>, extension: Option<String>) -> (r: (String, String))
    ensures
        r.0@ == match file_name {
            Some(n) => n@,
            None => "audio"@,
        },
        r.1@ == match extension {
            Some(e) => e@,
            None => Seq::<char>::empty(),
        },
{
    let name = match file_name {
        Some(n) => n,
        None => crate::text::owned("audio"),
    };
    let ext = match extension {
        Some(e) => e,
        None => String::new(),
    };
    (name, ext)
}

/// What importing a file does once its content hash is known.
pub enum ImportStep {
    /// An asset with the same content exists: it is returned as it is.
    Reuse(AssetDto),
    /// The content is new: the file is copied into the audio directory under
    /// this name and recorded as a new asset.
    Store { stored_name: String },
}

/// Imports are deduplicated by content: an existing asset with the file's hash
/// is reused; otherwise the file is stored under its hash and extension.
pub fn import_step(existing: Option<AssetDto>, sha: &str, ext: &str) -> (r: ImportStep)
    ensures
        existing matches Some(a) ==> r == ImportStep::Reuse(a),
        existing is None ==> (r matches ImportStep::Store { stored_name } && stored_name@
            == asset_file_name_spec(sha@, ext@)),
{
    match existing {
        Some(a) => ImportStep::Reuse(a),
        None => ImportStep::Store { stored_name: asset_file_name(sha, ext) },
    }
}

/// Assets with different content hashes (of the same length, as hex digests
/// are) are stored under different names, whatever their extensions.
pub proof fn asset_names_distinct(sha1: Seq<char>, ext1: Seq<char>, sha2: Seq<char>, ext2: Seq<char>)
    requires
        sha1.len() == sha2.len(),
        sha1 != sha2,
    ensures
        asset_file_name_spec(sha1, ext1) != asset_file_name_spec(sha2, ext2),
{
    let n1 = asset_file_name_spec(sha1, ext1);
    let n2 = asset_file_name_spec(sha2, ext2);
    assert(n1.take(sha1.len() as int) =~= sha1);
    assert(n2.take(sha2.len() as int) =~= sha2);
}

/// The lower-case hex digit of a value below 16.
pub open spec fn hex_digit(v: nat) -> char {
    if v < 10 {
        ((v + 48) as u32) as char
    } else {
        ((v + 87) as u32) as char
    }
}

/// Bytes in lower-case hex, two digits each, as `format!("{:x}", digest)`.
pub open spec fn hex_spec(bytes: Seq<u8>) -> Seq<char>
    decreases bytes.len(),
{
    if bytes.len() == 0 {
        seq![]
    } else {
        hex_spec(bytes.drop_last()) + seq![
            hex_digit((bytes.last() / 16) as nat),
            hex_digit((bytes.last() % 16) as nat),
        ]
    }
}

fn hex_char(v: u8) -> (c: char)
    requires
        v < 16,
    ensures
        c == hex_digit(v as nat),
{
    if v < 10 {
        crate::text::char_from_ascii(v + 48)
    } else {
        crate::text::char_from_ascii(v + 87)
    }
}

/// The lower-case hex form of a byte string.
pub fn hex_lower(bytes: &Vec<u8>) -> (s: String)
    ensures
        s@ == hex_spec(bytes@),
{
    let mut s = String::new();
    let mut i: usize = 0;
    while i < bytes.len()
        invariant
            i <= bytes.len(),
            s@ == hex_spec(bytes@.take(i as int)),
        decreases bytes.len() - i,
    {
        let b = bytes[i];
        push_char(&mut s, hex_char(b / 16));
        push_char(&mut s, hex_char(b % 16));
        assert(bytes@.take(i + 1).drop_last() =~= bytes@.take(i as int));
        assert(hex_spec(bytes@.take(i + 1)) =~= hex_spec(bytes@.take(i as int)) + seq![
            hex_digit((b / 16) as nat),
            hex_digit((b % 16) as nat),
        ]);
        i = i + 1;
    }
    assert(bytes@.take(bytes.len() as int) =~= bytes@);
    s
}

} // verus!

verus! {

// ---------------------------------------------------------------------------
// Exported document names
// ---------------------------------------------------------------------------

/// Index of the last `.` in `s`, if any.
pub open spec fn last_dot(s: Seq<char>) -> Option<int>
    decreases s.len(),
{
    if s.len() == 0 {
        None
    } else if s.last() == '.' {
        Some(s.len() - 1)
    } else {
        last_dot(s.drop_last())
    }
}

/// `Path::file_stem` of a file name (one path component): the name without
/// its last extension; a name that starts with its only dot, and `..`, are
/// kept whole.
pub open spec fn stem_spec(name: Seq<char>) -> Seq<char> {
    if name == ".."@ {
        name
    } else {
        match last_dot(name) {
            Some(k) => if k == 0 {
                name
            } else {
                name.take(k)
            },
            None => name,
        }
    }
}

/// The file name of a transcript exported as a document: its stem and `.docx`.
pub open spec fn docx_file_name_spec(original_name: Seq<char>) -> Seq<char> {
    stem_spec(original_name) + ".docx"@
}

pub fn docx_file_name(original_name: &str) -> (r: String)
    ensures
        r@ == docx_file_name_spec(original_name@),
{
    let cs = chars_of(original_name);
    let ghost s = original_name@;
    let mut k: usize = cs.len();
    assert(s.take(k as int) =~= s);
    while k > 0 && cs[k - 1] != '.'
        invariant
            k <= cs.len(),
            cs@ == s,
            last_dot(s) == last_dot(s.take(k as int)),
        decreases k,
    {
        assert(s.take(k as int).drop_last() =~= s.take(k - 1));
        k = k - 1;
    }
    proof {
        if k == 0 {
            assert(s.take(0) =~= Seq::<char>::empty());
        } else {
            assert(s.take(k as int).last() == cs@[k - 1]);
        }
    }
    let stem = if str_eq(original_name, "..") || k <= 1 {
        crate::text::owned(original_name)
    } else {
        let mut v: Vec<char> = Vec::new();
        let mut i: usize = 0;
        while i < k - 1
            invariant
                i <= k - 1,
                k <= cs.len(),
                cs@ == s,
                v@ == s.take(i as int),
            decreases k - 1 - i,
        {
            v.push(cs[i]);
            assert(s.take(i + 1) =~= s.take(i as int).push(cs@[i as int]));
            i = i + 1;
        }
        crate::text::string_from_chars(&v)
    };
    crate::text::concat2(stem.as_str(), ".docx")
}

} // verus!
