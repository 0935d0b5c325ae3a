//! Rendering a transcript into a speaker-labelled, timestamped document:
//! what the document says (verified), and building it with `docx-rs`.

use vstd::prelude::*;
use crate::error::AppError;
use crate::text::{
    concat2, concat3, decimal, digit_char, i64_to_decimal, lemma_split_nonempty, owned,
    pieces_view, push_char, signed_decimal, split_chars, split_spec, string_from_chars,
    chars_of, char_from_ascii, join_with, lemma_split_join,
};

verus! {

// ---------------------------------------------------------------------------
// Clock times
// ---------------------------------------------------------------------------

/// Integer division rounding toward zero, as Rust's `/` on integers does.
pub open spec fn trunc_div(a: int, b: int) -> int {
    if a >= 0 {
        a / b
    } else {
        -((-a) / b)
    }
}

/// The remainder that goes with `trunc_div`, as Rust's `%` on integers.
pub open spec fn trunc_rem(a: int, b: int) -> int {
    a - b * trunc_div(a, b)
}

/// `format!("{:02}", x)`: at least two characters, zero-padded.
pub open spec fn pad2(x: int) -> Seq<char> {
    if 0 <= x < 10 {
        seq!['0', digit_char(x as nat)]
    } else {
        signed_decimal(x)
    }
}

/// A whole number of seconds as `mm:ss`, or `hh:mm:ss` from one hour on.
pub open spec fn clock_spec(total: int) -> Seq<char> {
    let h = trunc_div(total, 3600);
    let rem = trunc_rem(total, 3600);
    let m = trunc_div(rem, 60);
    let s = trunc_rem(rem, 60);
    if h > 0 {
        pad2(h) + ":"@ + pad2(m) + ":"@ + pad2(s)
    } else {
        pad2(m) + ":"@ + pad2(s)
    }
}

fn pad2_text(x: i64) -> (s: String)
    ensures
        s@ == pad2(x as int),
{
    if 0 <= x && x < 10 {
        let mut s = String::new();
        push_char(&mut s, '0');
        push_char(&mut s, char_from_ascii((x as u8) + 48));
        assert(s@ =~= seq!['0', digit_char(x as nat)]);
        s
    } else {
        i64_to_decimal(x)
    }
}

/// `(trunc_div(a, b), trunc_rem(a, b))` for a positive divisor.
fn div_rem_trunc(a: i64, b: i64) -> (r: (i64, i64))
    requires
        b > 0,
    ensures
        r.0 == trunc_div(a as int, b as int),
        r.1 == trunc_rem(a as int, b as int),
{
    if a >= 0 {
        assert(a == b * (a / b) + a % b) by (nonlinear_arith)
            requires
                b > 0,
                a >= 0,
        ;
        (a / b, a % b)
    } else {
        let pa: i128 = -(a as i128);
        let q: i128 = pa / (b as i128);
        let rm: i128 = pa % (b as i128);
        assert(0 <= q <= pa);
        assert(pa == (b as i128) * q + rm) by (nonlinear_arith)
            requires
                q == pa / (b as i128),
                rm == pa % (b as i128),
                b > 0,
        ;
        assert((-(a as int)) / (b as int) == q as int);
        assert((b as int) * (-(q as int)) == -((b as int) * (q as int))) by (nonlinear_arith);
        ((-q) as i64, (-rm) as i64)
    }
}

/// A whole number of seconds as a clock time.
pub fn clock_text(total: i64) -> (s: String)
    ensures
        s@ == clock_spec(total as int),
{
    let (h, rem) = div_rem_trunc(total, 3600);
    let (m, sec) = div_rem_trunc(rem, 60);
    let mut out = if h > 0 {
        let hs = pad2_text(h);
        concat2(hs.as_str(), ":")
    } else {
        String::new()
    };
    let ms = pad2_text(m);
    let ss = pad2_text(sec);
    out.append(ms.as_str());
    out.append(":");
    out.append(ss.as_str());
    proof {
        if h > 0 {
            assert(out@ =~= pad2(h as int) + ":"@ + pad2(m as int) + ":"@ + pad2(sec as int));
        } else {
            assert(out@ =~= pad2(m as int) + ":"@ + pad2(sec as int));
        }
    }
    out
}

// ---------------------------------------------------------------------------
// The transcript and the document
// ---------------------------------------------------------------------------

/// One diarized entry of a transcript, its times in whole seconds.
pub struct TranscriptEntry {
    pub start_secs: i64,
    pub end_secs: i64,
    pub speaker: Option<String>,
    pub text: Option<String>,
}

/// What the document is made from: the detected language, the diarized
/// entries (when the transcript has a list of them), and the plain transcript.
pub struct TranscriptData {
    pub language_code: Option<String>,
    pub entries: Option<Vec<TranscriptEntry>>,
    pub transcript: Option<String>,
}

/// A run of text with its formatting (size in half-points).
pub struct DocRun {
    pub text: String,
    pub bold: bool,
    pub italic: bool,
    pub size: Option<usize>,
}

/// A paragraph: its runs in order.
pub struct DocParagraph {
    pub runs: Vec<DocRun>,
}

pub struct RunView {
    pub text: Seq<char>,
    pub bold: bool,
    pub italic: bool,
    pub size: Option<usize>,
}

pub open spec fn run_view(r: DocRun) -> RunView {
    RunView { text: r.text@, bold: r.bold, italic: r.italic, size: r.size }
}

pub open spec fn paragraph_view(p: DocParagraph) -> Seq<RunView> {
    p.runs@.map_values(|r: DocRun| run_view(r))
}

pub open spec fn document_view(d: Seq<DocParagraph>) -> Seq<Seq<RunView>> {
    d.map_values(|p: DocParagraph| paragraph_view(p))
}

pub open spec fn plain(t: Seq<char>) -> RunView {
    RunView { text: t, bold: false, italic: false, size: None }
}

pub open spec fn or_text(o: Option<String>, d: Seq<char>) -> Seq<char> {
    match o {
        Some(s) => s@,
        None => d,
    }
}

/// The metadata line under the heading.
pub open spec fn meta_spec(model: Seq<char>, generated_at: Seq<char>, language: Option<String>) -> Seq<
    char,
> {
    let base = "Model: "@ + model + " | Generated: "@ + generated_at;
    match language {
        Some(l) => base + " | Detected language: "@ + l@,
        None => base,
    }
}

/// The label in front of an entry's text.
pub open spec fn label_spec(e: TranscriptEntry) -> Seq<char> {
    "["@ + clock_spec(e.start_secs as int) + "-"@ + clock_spec(e.end_secs as int) + "] Speaker "@
        + or_text(e.speaker, "?"@) + ": "@
}

pub open spec fn entry_paragraph(e: TranscriptEntry) -> Seq<RunView> {
    seq![
        RunView { text: label_spec(e), bold: true, italic: false, size: None },
        plain(or_text(e.text, ""@)),
    ]
}

/// The body: one paragraph per diarized entry when there are entries, else
/// one per line of the plain transcript.
pub open spec fn body_spec(data: TranscriptData) -> Seq<Seq<RunView>> {
    if data.entries is Some && data.entries->0@.len() > 0 {
        data.entries->0@.map_values(|e: TranscriptEntry| entry_paragraph(e))
    } else {
        split_spec(or_text(data.transcript, "(empty transcript)"@), '\n').map_values(
            |l: Seq<char>| seq![plain(l)],
        )
    }
}

/// The document for a transcript: a bold heading with the source name, an
/// italic metadata line, an empty spacer paragraph, then the body.
pub open spec fn document_spec(
    data: TranscriptData,
    source_name: Seq<char>,
    model: Seq<char>,
    generated_at: Seq<char>,
) -> Seq<Seq<RunView>> {
    seq![
        seq![RunView { text: source_name, bold: true, italic: false, size: Some(32) }],
        seq![
            RunView {
                text: meta_spec(model, generated_at, data.language_code),
                bold: false,
                italic: true,
                size: Some(18),
            },
        ],
        seq![],
    ] + body_spec(data)
}

/// Without diarized entries (none, or an empty list), the body is the plain
/// transcript line by line: one plain run per paragraph, no line holding a line
/// feed, and the lines joined with line feeds give back the transcript; when
/// there is no transcript either, the body is "(empty transcript)".
pub proof fn plain_transcript_fills_the_body(
    data: TranscriptData,
    source_name: Seq<char>,
    model: Seq<char>,
    generated_at: Seq<char>,
)
    requires
        !(data.entries is Some && data.entries->0@.len() > 0),
    ensures
        ({
            let d = document_spec(data, source_name, model, generated_at);
            let body = d.skip(3);
            let t = match data.transcript {
                Some(x) => x@,
                None => "(empty transcript)"@,
            };
            &&& body.len() >= 1
            &&& forall|i: int|
                0 <= i < body.len() ==> (#[trigger] body[i]).len() == 1 && !body[i][0].bold
                    && !body[i][0].italic && body[i][0].size is None && !body[i][0].text.contains('\n')
            &&& join_with(body.map_values(|p: Seq<RunView>| p[0].text), '\n') == t
        }),
{
    let d = document_spec(data, source_name, model, generated_at);
    let t = or_text(data.transcript, "(empty transcript)"@);
    let pieces = split_spec(t, '\n');
    lemma_split_join(t, '\n');
    lemma_split_nonempty(t, '\n');
    let body = d.skip(3);
    assert(body =~= body_spec(data));
    assert(body.map_values(|p: Seq<RunView>| p[0].text) =~= pieces);
}

fn one_run(text: String, bold: bool, italic: bool, size: Option<usize>) -> (p: DocParagraph)
    ensures
        paragraph_view(p) == seq![RunView { text: text@, bold, italic, size }],
{
    let mut runs: Vec<DocRun> = Vec::new();
    runs.push(DocRun { text, bold, italic, size });
    let p = DocParagraph { runs };
    assert(paragraph_view(p) =~= seq![RunView { text: p.runs@[0].text@, bold, italic, size }]);
    p
}

fn push_paragraph(doc: &mut Vec<DocParagraph>, p: DocParagraph)
    ensures
        document_view(final(doc)@) == document_view(old(doc)@).push(paragraph_view(p)),
{
    let ghost before = doc@;
    doc.push(p);
    assert(document_view(doc@) =~= document_view(before).push(paragraph_view(p)));
}

fn entry_label(e: &TranscriptEntry) -> (s: String)
    ensures
        s@ == label_spec(*e),
{
    let start = clock_text(e.start_secs);
    let end = clock_text(e.end_secs);
    let mut s = concat2("[", start.as_str());
    s.append("-");
    s.append(end.as_str());
    s.append("] Speaker ");
    match &e.speaker {
        Some(sp) => s.append(sp.as_str()),
        None => s.append("?"),
    }
    s.append(": ");
    s
}

/// What the document for a transcript says, paragraph by paragraph.
pub fn transcript_paragraphs(
    data: &TranscriptData,
    source_name: &str,
    model: &str,
    generated_at: &str,
) -> (doc: Vec<DocParagraph>)
    ensures
        document_view(doc@) == document_spec(*data, source_name@, model@, generated_at@),
{
    let mut doc: Vec<DocParagraph> = Vec::new();
    push_paragraph(&mut doc, one_run(owned(source_name), true, false, Some(32)));
    let mut meta = concat2("Model: ", model);
    meta.append(" | Generated: ");
    meta.append(generated_at);
    match &data.language_code {
        Some(l) => {
            meta.append(" | Detected language: ");
            meta.append(l.as_str());
        },
        None => {},
    }
    push_paragraph(&mut doc, one_run(meta, false, true, Some(18)));
    let spacer = DocParagraph { runs: Vec::new() };
    assert(paragraph_view(spacer) =~= Seq::<RunView>::empty());
    push_paragraph(&mut doc, spacer);
    let ghost head = document_view(doc@);
    let use_entries = match &data.entries {
        Some(es) => es.len() > 0,
        None => false,
    };
    if use_entries {
        let es = data.entries.as_ref().unwrap();
        let ghost f = |e: TranscriptEntry| entry_paragraph(e);
        let mut i: usize = 0;
        while i < es.len()
            invariant
                i <= es.len(),
                f == (|e: TranscriptEntry| entry_paragraph(e)),
                document_view(doc@) == head + es@.take(i as int).map_values(f),
            decreases es.len() - i,
        {
            let e = &es[i];
            let label = entry_label(e);
            let text = match &e.text {
                Some(t) => t.clone(),
                None => owned(""),
            };
            let mut runs: Vec<DocRun> = Vec::new();
            runs.push(DocRun { text: label, bold: true, italic: false, size: None });
            runs.push(DocRun { text, bold: false, italic: false, size: None });
            let p = DocParagraph { runs };
            assert(paragraph_view(p) =~= entry_paragraph(*e));
            push_paragraph(&mut doc, p);
            assert(es@.take(i + 1).map_values(f) =~= es@.take(i as int).map_values(f).push(f(es@[i as int])));
            i = i + 1;
        }
        assert(es@.take(es.len() as int) =~= es@);
    } else {
        let t = match &data.transcript {
            Some(t) => t.clone(),
            None => owned("(empty transcript)"),
        };
        let cs = chars_of(t.as_str());
        let lines = split_chars(&cs, '\n');
        let ghost pieces = split_spec(t@, '\n');
        let ghost g = |l: Seq<char>| seq![plain(l)];
        let mut i: usize = 0;
        while i < lines.len()
            invariant
                i <= lines.len(),
                pieces_view(lines@) == pieces,
                g == (|l: Seq<char>| seq![plain(l)]),
                document_view(doc@) == head + pieces.take(i as int).map_values(g),
            decreases lines.len() - i,
        {
            let line = string_from_chars(&lines[i]);
            assert(line@ == pieces[i as int]);
            push_paragraph(&mut doc, one_run(line, false, false, None));
            assert(pieces.take(i + 1).map_values(g) =~= pieces.take(i as int).map_values(g).push(
                g(pieces[i as int]),
            ));
            i = i + 1;
        }
        assert(pieces.take(lines.len() as int) =~= pieces);
    }
    proof {
        assert(head =~= seq![
            seq![RunView { text: source_name@, bold: true, italic: false, size: Some(32) }],
            seq![
                RunView {
                    text: meta_spec(model@, generated_at@, data.language_code),
                    bold: false,
                    italic: true,
                    size: Some(18),
                },
            ],
            Seq::<RunView>::empty(),
        ]);
    }
    doc
}

} // verus!

verus! {

// ---------------------------------------------------------------------------
// Building the document with docx-rs
// ---------------------------------------------------------------------------

#[verifier::external_type_specification]
#[verifier::external_body]
pub struct ExDocx(docx_rs::Docx);

#[verifier::external_type_specification]
#[verifier::external_body]
pub struct ExParagraph(docx_rs::Paragraph);

#[verifier::external_type_specification]
#[verifier::external_body]
pub struct ExRun(docx_rs::Run);

/// A text without its line feeds and carriage returns.
pub open spec fn without_line_breaks(s: Seq<char>) -> Seq<char>
    decreases s.len(),
{
    if s.len() == 0 {
        s
    } else if s.last() == '\n' || s.last() == '\r' {
        without_line_breaks(s.drop_last())
    } else {
        without_line_breaks(s.drop_last()).push(s.last())
    }
}

/// What a run shows: its text, whether it is bold, whether it is italic, and
/// its size in half-points.
pub open spec fn run_content_of(r: RunView) -> (Seq<char>, bool, bool, Option<usize>) {
    (without_line_breaks(r.text), r.bold, r.italic, r.size)
}

/// What a document shows, paragraph by paragraph and run by run. A run's text
/// loses its line feeds and carriage returns, as docx-rs drops them from the
/// text it is given.
pub open spec fn docx_content(d: Seq<Seq<RunView>>) -> Seq<Seq<(Seq<char>, bool, bool, Option<usize>)>> {
    d.map_values(|p: Seq<RunView>| p.map_values(|r: RunView| run_content_of(r)))
}

/// What a docx-rs run shows a reader: its text (all its text elements, in
/// order, as read back with XML entities decoded), its bold and italic flags,
/// and its size.
pub uninterp spec fn run_content(r: docx_rs::Run) -> (Seq<char>, bool, bool, Option<usize>);

/// The runs of a docx-rs paragraph, in order.
pub uninterp spec fn paragraph_runs(p: docx_rs::Paragraph) -> Seq<(Seq<char>, bool, bool, Option<usize>)>;

/// The paragraphs of a docx-rs document's body, in order.
pub uninterp spec fn docx_paragraphs(d: docx_rs::Docx) -> Seq<Seq<(Seq<char>, bool, bool, Option<usize>)>>;

/// `bytes` is a .docx archive whose body holds `paragraphs`, in order, as a
/// reader sees them (see `run_content`). The
/// archive also carries paragraph ids from docx-rs's process-wide counter, so
/// the bytes themselves are not a function of the content.
pub uninterp spec fn is_docx_archive_of(
    bytes: Seq<u8>,
    paragraphs: Seq<Seq<(Seq<char>, bool, bool, Option<usize>)>>,
) -> bool;

/// `docx_rs::Docx::new`: a document with no paragraphs.
#[verifier::external_body]
fn docx_new() -> (d: docx_rs::Docx)
    ensures
        docx_paragraphs(d) == Seq::<Seq<(Seq<char>, bool, bool, Option<usize>)>>::empty(),
{
    docx_rs::Docx::new()
}

/// `docx_rs::Docx::add_paragraph`: the document with `p` appended to its body.
#[verifier::external_body]
fn docx_add_paragraph(d: docx_rs::Docx, p: docx_rs::Paragraph) -> (r: docx_rs::Docx)
    ensures
        docx_paragraphs(r) == docx_paragraphs(d).push(paragraph_runs(p)),
{
    d.add_paragraph(p)
}

/// `docx_rs::Paragraph::new`: a paragraph with no runs (and an id taken from
/// docx-rs's process-wide counter).
#[verifier::external_body]
fn paragraph_new() -> (p: docx_rs::Paragraph)
    ensures
        paragraph_runs(p) == Seq::<(Seq<char>, bool, bool, Option<usize>)>::empty(),
{
    docx_rs::Paragraph::new()
}

/// `docx_rs::Paragraph::add_run`: the paragraph with `r` appended.
#[verifier::external_body]
fn paragraph_add_run(p: docx_rs::Paragraph, r: docx_rs::Run) -> (q: docx_rs::Paragraph)
    ensures
        paragraph_runs(q) == paragraph_runs(p).push(run_content(r)),
{
    p.add_run(r)
}

/// `docx_rs::Run::new`: a run with no text, neither bold nor italic, and no size.
#[verifier::external_body]
fn run_new() -> (r: docx_rs::Run)
    ensures
        run_content(r) == (Seq::<char>::empty(), false, false, None::<usize>),
{
    docx_rs::Run::new()
}

/// `docx_rs::Run::add_text`: the run with a text element appended. docx-rs
/// removes the line feeds, and its XML escaping removes the carriage returns;
/// the other characters it stores as they are or as entities (`&`, `<`, `>`,
/// `"`, `'`), which a reader decodes back to themselves.
#[verifier::external_body]
fn run_add_text(r: docx_rs::Run, text: &str) -> (q: docx_rs::Run)
    ensures
        run_content(q) == (run_content(r).0 + without_line_breaks(text@), run_content(r).1, run_content(r).2, run_content(r).3),
{
    r.add_text(text)
}

/// `docx_rs::Run::bold`: the run set bold, otherwise unchanged.
#[verifier::external_body]
fn run_bold(r: docx_rs::Run) -> (q: docx_rs::Run)
    ensures
        run_content(q) == (run_content(r).0, true, run_content(r).2, run_content(r).3),
{
    r.bold()
}

/// `docx_rs::Run::italic`: the run set italic, otherwise unchanged.
#[verifier::external_body]
fn run_italic(r: docx_rs::Run) -> (q: docx_rs::Run)
    ensures
        run_content(q) == (run_content(r).0, run_content(r).1, true, run_content(r).3),
{
    r.italic()
}

/// `docx_rs::Run::size`: the run with font size `size` in half-points,
/// otherwise unchanged.
#[verifier::external_body]
fn run_size(r: docx_rs::Run, size: usize) -> (q: docx_rs::Run)
    ensures
        run_content(q) == (run_content(r).0, run_content(r).1, run_content(r).2, Some(size)),
{
    r.size(size)
}

/// `docx_rs::Docx::build` then `docx_rs::XMLDocx::pack` into memory: on
/// success, a .docx archive of the document's paragraphs; otherwise the archive
/// writer's error message. Which bytes come out is not stated: they carry ids
/// from docx-rs's process-wide paragraph counter.
#[verifier::external_body]
fn docx_pack(d: docx_rs::Docx) -> (r: Result<Vec<u8>, String>)
    ensures
        r matches Ok(b) ==> is_docx_archive_of(b@, docx_paragraphs(d)),
{
    let mut buf = std::io::Cursor::new(Vec::new());
    match d.build().pack(&mut buf) {
        Ok(()) => Ok(buf.into_inner()),
        Err(e) => Err(e.to_string()),
    }
}

/// A docx-rs run for one run of the document.
fn build_run(r: &DocRun) -> (q: docx_rs::Run)
    ensures
        run_content(q) == run_content_of(run_view(*r)),
{
    let mut run = run_add_text(run_new(), r.text.as_str());
    assert(Seq::<char>::empty() + without_line_breaks(r.text@) =~= without_line_breaks(r.text@));
    if r.bold {
        run = run_bold(run);
    }
    if r.italic {
        run = run_italic(run);
    }
    match r.size {
        Some(n) => {
            run = run_size(run, n);
        },
        None => {},
    }
    run
}

/// A docx-rs paragraph for one paragraph of the document.
fn build_paragraph(p: &DocParagraph) -> (q: docx_rs::Paragraph)
    ensures
        paragraph_runs(q) == paragraph_view(*p).map_values(|r: RunView| run_content_of(r)),
{
    let ghost target = paragraph_view(*p).map_values(|r: RunView| run_content_of(r));
    let mut para = paragraph_new();
    let mut k: usize = 0;
    while k < p.runs.len()
        invariant
            k <= p.runs.len(),
            target == paragraph_view(*p).map_values(|r: RunView| run_content_of(r)),
            paragraph_runs(para) == target.take(k as int),
        decreases p.runs.len() - k,
    {
        let run = build_run(&p.runs[k]);
        para = paragraph_add_run(para, run);
        assert(target.take(k + 1) =~= target.take(k as int).push(target[k as int]));
        k = k + 1;
    }
    assert(target.take(p.runs.len() as int) =~= target);
    para
}

/// The docx-rs document for the given paragraphs.
fn build_docx(paragraphs: &Vec<DocParagraph>) -> (d: docx_rs::Docx)
    ensures
        docx_paragraphs(d) == docx_content(document_view(paragraphs@)),
{
    let ghost target = docx_content(document_view(paragraphs@));
    let mut doc = docx_new();
    let mut i: usize = 0;
    while i < paragraphs.len()
        invariant
            i <= paragraphs.len(),
            target == docx_content(document_view(paragraphs@)),
            docx_paragraphs(doc) == target.take(i as int),
        decreases paragraphs.len() - i,
    {
        let para = build_paragraph(&paragraphs[i]);
        doc = docx_add_paragraph(doc, para);
        assert(target.take(i + 1) =~= target.take(i as int).push(target[i as int]));
        i = i + 1;
    }
    assert(target.take(paragraphs.len() as int) =~= target);
    doc
}

/// Builds the .docx archive for the given paragraphs, run by run: each run's
/// text, then bold, italic and size as the run asks. On success the archive
/// holds exactly these paragraphs; the only failure is packing.
pub fn render_docx(paragraphs: &Vec<DocParagraph>) -> (r: Result<Vec<u8>, AppError>)
    ensures
        r matches Ok(b) ==> is_docx_archive_of(b@, docx_content(document_view(paragraphs@))),
        r matches Err(e) ==> e.0@ == "packing docx"@,
{
    let doc = build_docx(paragraphs);
    match docx_pack(doc) {
        Ok(bytes) => Ok(bytes),
        Err(_) => Err(AppError(owned("packing docx"))),
    }
}

/// The .docx archive of a transcript: the document that
/// `transcript_paragraphs` describes, built and packed.
pub fn transcript_docx(
    data: &TranscriptData,
    source_name: &str,
    model: &str,
    generated_at: &str,
) -> (r: Result<Vec<u8>, AppError>)
    ensures
        r matches Ok(b) ==> is_docx_archive_of(
            b@,
            docx_content(document_spec(*data, source_name@, model@, generated_at@)),
        ),
        r matches Err(e) ==> e.0@ == "packing docx"@,
{
    let paragraphs = transcript_paragraphs(data, source_name, model, generated_at);
    render_docx(&paragraphs)
}

} // verus!
