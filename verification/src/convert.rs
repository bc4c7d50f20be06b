//! Conversion of the exported report into per-object plain text: the
//! UTF-16LE export is decoded, split into per-object HTML documents, and
//! each document's text rendering is cut down to the report body.

use vstd::prelude::*;
use vstd::string::StrSliceExecFns;
use vstd::string::StringExecFns;
use crate::gpo::spec_is_border;
use crate::text::{
    lines_of, replace_str, seq_contains, seq_ends_with, seq_starts_with, spec_lines, spec_replace,
    spec_trim, str_contains, str_ends_with, str_starts_with, trim,
};

verus! {

// ---------------------------------------------------------------------------
// Trusted boundary: decoding and HTML rendering.
// ---------------------------------------------------------------------------

/// What decoding a byte sequence as UTF-16LE yields.
pub uninterp spec fn utf16le_text_of(bytes: Seq<u8>) -> Seq<char>;

/// Relies on `encoding_rs::UTF_16LE.decode`: the decoded text, with BOM
/// removal and malformed sequences replaced, a function of the bytes
/// alone.
#[verifier::external_body]
fn decode_utf16le(bytes: &Vec<u8>) -> (r: String)
    ensures
        r@ == utf16le_text_of(bytes@),
{
    let (cow, _, _) = encoding_rs::UTF_16LE.decode(bytes.as_slice());
    cow.into_owned()
}

/// What rendering an HTML byte sequence as plain text of the given width
/// yields.
pub uninterp spec fn html_text_of(bytes: Seq<u8>, width: int) -> Seq<char>;

/// Relies on `html2text::from_read`: the plain-text rendering, wrapped
/// to the given width, a function of the bytes and the width alone;
/// `None` when the renderer reports an error.
#[verifier::external_body]
fn html_to_text(bytes: &Vec<u8>, width: usize) -> (r: Option<String>)
    ensures
        r matches Some(s) ==> s@ == html_text_of(bytes@, width as int),
{
    match html2text::from_read(bytes.as_slice(), width) {
        Ok(s) => Some(s),
        Err(_) => None,
    }
}

// ---------------------------------------------------------------------------
// Splitting the decoded export into per-object HTML documents.
// ---------------------------------------------------------------------------

/// One per-object HTML document cut out of the export: a sanitised
/// title, to become the file stem, and the document text.
#[derive(Debug, Clone)]
pub struct HtmlDocument {
    pub title: String,
    pub content: String,
}

#[verifier::ext_equal]
pub ghost struct HtmlDocumentV {
    pub title: Seq<char>,
    pub content: Seq<char>,
}

impl View for HtmlDocument {
    type V = HtmlDocumentV;

    open spec fn view(&self) -> HtmlDocumentV {
        HtmlDocumentV { title: self.title@, content: self.content@ }
    }
}

impl DeepView for HtmlDocument {
    type V = HtmlDocumentV;

    open spec fn deep_view(&self) -> HtmlDocumentV {
        self.view()
    }
}

/// The title text of a `<title>` line: trimmed, the tags removed, and
/// path separators replaced so it can serve as a file stem.
pub open spec fn sanitize_title(l: Seq<char>) -> Seq<char> {
    spec_replace(
        spec_replace(
            spec_replace(
                spec_replace(spec_trim(l), "<title>"@, Seq::empty()),
                "</title>"@,
                Seq::empty(),
            ),
            "/"@,
            "_"@,
        ),
        "\\"@,
        "_"@,
    )
}

/// The splitter's state between lines.
#[verifier::ext_equal]
pub ghost struct SplitState {
    pub title: Seq<char>,
    pub content: Seq<char>,
    pub count: int,
    pub docs: Seq<HtmlDocumentV>,
    pub failed: bool,
}

pub open spec fn split_init() -> SplitState {
    SplitState {
        title: Seq::empty(),
        content: Seq::empty(),
        count: 0,
        docs: Seq::empty(),
        failed: false,
    }
}

/// One line of the export: an opening `<html` resets the buffers, every
/// line joins the content, a closing `</html>` completes a document —
/// or fails the split when no title was seen — and a `<title>` line sets
/// the title.
pub open spec fn split_step(st: SplitState, l: Seq<char>) -> SplitState {
    if st.failed {
        st
    } else {
        let st1 = if seq_starts_with(l, "<html "@) {
            SplitState { title: Seq::empty(), content: Seq::empty(), count: st.count + 1, ..st }
        } else {
            st
        };
        let st2 = SplitState { content: st1.content + l + "\n"@, ..st1 };
        if seq_ends_with(l, "</html>"@) {
            if st2.title.len() == 0 || st2.content.len() == 0 {
                SplitState { failed: true, ..st2 }
            } else {
                SplitState {
                    docs: st2.docs.push(
                        HtmlDocumentV { title: st2.title, content: st2.content },
                    ),
                    ..st2
                }
            }
        } else if seq_starts_with(l, "<title>"@) && seq_contains(l, "</title>"@) {
            SplitState { title: sanitize_title(l), ..st2 }
        } else {
            st2
        }
    }
}

pub open spec fn split_fold(lines: Seq<Seq<char>>) -> SplitState
    decreases lines.len(),
{
    if lines.len() == 0 {
        split_init()
    } else {
        split_step(split_fold(lines.drop_last()), lines.last())
    }
}

/// Splits the decoded export into per-object documents. `None` when a
/// document closes before any title was seen; the count is the number
/// of document openings, for the summary line.
pub fn split_html_documents(content: &str) -> (r: Option<(Vec<HtmlDocument>, usize)>)
    ensures
        ({
            let st = split_fold(spec_lines(content@));
            match r {
                Some(p) => !st.failed && p.0.deep_view() == st.docs && p.1 as int == st.count,
                None => st.failed,
            }
        }),
{
    let lines = lines_of(content);
    let n = lines.len();
    let mut title_buf = String::new();
    let mut content_buf = String::new();
    let mut count_buf: usize = 0;
    let mut docs: Vec<HtmlDocument> = Vec::new();
    let mut i: usize = 0;
    proof {
        assert(lines.deep_view().take(0) =~= Seq::<Seq<char>>::empty());
        assert(docs.deep_view() =~= Seq::<HtmlDocumentV>::empty());
    }
    while i < n
        invariant
            n == lines.len(),
            lines.deep_view() == spec_lines(content@),
            i <= n,
            count_buf <= i,
            ({
                let st = split_fold(lines.deep_view().take(i as int));
                &&& !st.failed
                &&& st.title == title_buf@
                &&& st.content == content_buf@
                &&& st.count == count_buf as int
                &&& st.docs == docs.deep_view()
            }),
        decreases n - i,
    {
        let ghost st0 = split_fold(lines.deep_view().take(i as int));
        let line = lines[i].as_str();
        let ghost l = line@;
        proof {
            assert(l == lines.deep_view()[i as int]);
            reveal_strlit("<title>");
            reveal_strlit("</title>");
            reveal_strlit("/");
            reveal_strlit("\\");
            reveal_strlit("");
            assert(""@ =~= Seq::<char>::empty());
        }
        if str_starts_with(line, "<html ") {
            title_buf = String::new();
            content_buf = String::new();
            count_buf += 1;
        }
        content_buf.append(line);
        content_buf.append("\n");
        if str_ends_with(line, "</html>") {
            if title_buf.as_str().is_empty() || content_buf.as_str().is_empty() {
                proof {
                    let pre = lines.deep_view().take(i as int);
                    let post = lines.deep_view().take(i + 1);
                    assert(post.drop_last() =~= pre);
                    assert(post.last() == l);
                    assert(split_fold(post).failed);
                    assert(forall|k: int|
                        i + 1 <= k <= n ==> #[trigger] split_fold(
                            lines.deep_view().take(k),
                        ).failed) by {
                        assert forall|k: int|
                            i + 1 <= k <= n implies #[trigger] split_fold(
                            lines.deep_view().take(k),
                        ).failed by {
                            lemma_failed_sticky(lines.deep_view(), i + 1, k);
                        }
                    }
                    assert(lines.deep_view().take(n as int) =~= lines.deep_view());
                }
                return None;
            }
            let doc = HtmlDocument { title: title_buf.clone(), content: content_buf.clone() };
            docs.push(doc);
            proof {
                assert(docs.deep_view() =~= st0.docs.push(
                    HtmlDocumentV { title: title_buf@, content: content_buf@ },
                ));
            }
        } else if str_starts_with(line, "<title>") && str_contains(line, "</title>") {
            let trimmed = trim(line);
            let t1 = replace_str(trimmed, "<title>", "");
            let t2 = replace_str(t1.as_str(), "</title>", "");
            let t3 = replace_str(t2.as_str(), "/", "_");
            title_buf = replace_str(t3.as_str(), "\\", "_");
            proof {
                assert(title_buf@ == sanitize_title(l));
            }
        }
        proof {
            let pre = lines.deep_view().take(i as int);
            let post = lines.deep_view().take(i + 1);
            assert(post.drop_last() =~= pre);
            assert(post.last() == l);
            assert(split_fold(post) == split_step(st0, l));
        }
        i += 1;
    }
    proof {
        assert(lines.deep_view().take(n as int) =~= lines.deep_view());
    }
    Some((docs, count_buf))
}

/// Splits a UTF-16LE export, as the reporting tool writes it, into
/// per-object documents.
pub fn split_exported_report(bytes: &Vec<u8>) -> (r: Option<(Vec<HtmlDocument>, usize)>)
    ensures
        ({
            let st = split_fold(spec_lines(utf16le_text_of(bytes@)));
            match r {
                Some(p) => !st.failed && p.0.deep_view() == st.docs && p.1 as int == st.count,
                None => st.failed,
            }
        }),
{
    let content = decode_utf16le(bytes);
    split_html_documents(content.as_str())
}

/// Once the split has failed on a prefix, it stays failed on every
/// longer prefix.
proof fn lemma_failed_sticky(lines: Seq<Seq<char>>, j: int, k: int)
    requires
        0 <= j <= k <= lines.len(),
        split_fold(lines.take(j)).failed,
    ensures
        split_fold(lines.take(k)).failed,
    decreases k - j,
{
    if j < k {
        lemma_failed_sticky(lines, j, k - 1);
        let pre = lines.take(k - 1);
        let post = lines.take(k);
        assert(post.drop_last() =~= pre);
        assert(split_fold(post) == split_step(split_fold(pre), post.last()));
    }
}

// ---------------------------------------------------------------------------
// Cutting the text rendering down to the report body.
// ---------------------------------------------------------------------------

/// The rendering starts with style text the parser must not see;
/// output begins at the first border line, and that line is written
/// twice, as downstream readers of these reports expect.
pub open spec fn report_fold(lines: Seq<Seq<char>>, valid: bool) -> Seq<char>
    decreases lines.len(),
{
    if lines.len() == 0 {
        Seq::empty()
    } else {
        let l = lines[0];
        if !valid && spec_is_border(l) {
            l + "\n"@ + l + "\n"@ + report_fold(lines.skip(1), true)
        } else if valid {
            l + "\n"@ + report_fold(lines.skip(1), true)
        } else {
            report_fold(lines.skip(1), false)
        }
    }
}

/// Cuts a document's plain-text rendering down to the report body, one
/// line per output line.
pub fn extract_report_text(text: &str) -> (r: String)
    ensures
        r@ == report_fold(spec_lines(text@), false),
{
    let lines = lines_of(text);
    let n = lines.len();
    let mut out = String::new();
    let mut valid = false;
    let mut i: usize = 0;
    proof {
        assert(lines.deep_view().skip(0) =~= lines.deep_view());
        assert(out@ + report_fold(lines.deep_view(), false) =~= report_fold(
            lines.deep_view(),
            false,
        ));
    }
    while i < n
        invariant
            n == lines.len(),
            lines.deep_view() == spec_lines(text@),
            i <= n,
            report_fold(lines.deep_view(), false) == out@ + report_fold(
                lines.deep_view().skip(i as int),
                valid,
            ),
        decreases n - i,
    {
        proof {
            assert(lines.deep_view()[i as int] == lines@[i as int]@);
            assert(lines.deep_view().skip(i as int).skip(1) =~= lines.deep_view().skip(i + 1));
            assert(lines.deep_view().skip(i as int)[0] == lines.deep_view()[i as int]);
        }
        let line = lines[i].as_str();
        if !valid && str_contains(line, "\u{2500}\u{2500}\u{2500}\u{2500}") {
            valid = true;
            out.append(line);
            out.append("\n");
        }
        if valid {
            out.append(line);
            out.append("\n");
        }
        proof {
            assert(out@ + report_fold(lines.deep_view().skip(i + 1), valid) =~= report_fold(
                lines.deep_view(),
                false,
            ));
        }
        i += 1;
    }
    proof {
        assert(lines.deep_view().skip(n as int) =~= Seq::<Seq<char>>::empty());
        assert(out@ + report_fold(lines.deep_view().skip(n as int), valid) =~= out@);
    }
    out
}

/// The report body for one per-object HTML document: rendered at the
/// width the reports were written for, then cut down. `None` when the
/// renderer reports an error.
pub fn report_text_from_html(html: &Vec<u8>) -> (r: Option<String>)
    ensures
        r matches Some(s) ==> s@ == report_fold(
            spec_lines(html_text_of(html@, 300)),
            false,
        ),
{
    match html_to_text(html, 300) {
        Some(t) => Some(extract_report_text(t.as_str())),
        None => None,
    }
}

} // verus!
