//! Small helpers on inputs: telling URLs from paths, and turning arXiv
//! abstract links into links to the PDF.
use crate::text::{append_chars, chars_of, has_prefix, starts_with_chars, string_of};
use vstd::prelude::*;

verus! {

/// The input names a web resource: it starts with `http://` or `https://`.
pub open spec fn is_url_text(s: Seq<char>) -> bool {
    has_prefix(s, "http://"@) || has_prefix(s, "https://"@)
}

/// Whether the input is a URL rather than a file path.
pub fn is_url(s: &str) -> (r: bool)
    ensures
        r == is_url_text(s@),
{
    let c = chars_of(s);
    starts_with_chars(&c, &chars_of("http://")) || starts_with_chars(&c, &chars_of("https://"))
}

/// What a regular expression's first capture group matches in `text`, as the
/// `regex` crate finds it (leftmost-first); `None` when the pattern is
/// invalid, does not match, or the group does not take part.
pub uninterp spec fn regex_group1(pattern: Seq<char>, text: Seq<char>) -> Option<Seq<char>>;

/// The first capture group of `pattern` in `text` (`regex::Regex::new` and
/// `Regex::captures`). The result is named by `regex_group1`; nothing more is
/// stated of it.
#[verifier::external_body]
fn regex_first_capture(pattern: &str, text: &str) -> (r: Option<String>)
    ensures
        match r {
            Some(g) => regex_group1(pattern@, text@) == Some(g@),
            None => regex_group1(pattern@, text@) is None,
        },
{
    match regex::Regex::new(pattern) {
        Ok(re) => match re.captures(text) {
            Some(caps) => match caps.get(1) {
                Some(m) => Some(m.as_str().to_string()),
                None => None,
            },
            None => None,
        },
        Err(_) => None,
    }
}

/// The pattern of an arXiv abstract link; its group is the paper's path.
pub open spec fn arxiv_abs_pattern() -> Seq<char> {
    "^https?://arxiv\\.org/abs/([\\w\\.\\/]+)$"@
}

/// The link to the PDF for an arXiv paper path.
pub open spec fn arxiv_pdf_link(path: Seq<char>) -> Seq<char> {
    "https://arxiv.org/pdf/"@ + path + ".pdf"@
}

/// The normalised form of a URL, given what the arXiv pattern captured in
/// it: the PDF link for a captured paper path, the URL itself otherwise.
pub open spec fn normalized_url(url: Seq<char>, capture: Option<Seq<char>>) -> Seq<char> {
    match capture {
        Some(p) => arxiv_pdf_link(p),
        None => url,
    }
}

/// Builds the normalised URL from what the arXiv pattern captured.
pub fn arxiv_pdf_url(url: &str, capture: Option<String>) -> (r: String)
    ensures
        r@ == normalized_url(
            url@,
            match capture {
                Some(p) => Some(p@),
                None => None,
            },
        ),
{
    match capture {
        Some(path) => {
            let mut v = chars_of("https://arxiv.org/pdf/");
            append_chars(&mut v, &chars_of(path.as_str()));
            append_chars(&mut v, &chars_of(".pdf"));
            string_of(&v)
        },
        None => string_of(&chars_of(url)),
    }
}

/// Turns an arXiv abstract link (`http(s)://arxiv.org/abs/<path>`) into the
/// link to its PDF; any other URL is returned unchanged.
pub fn normalize_arxiv_url(url: &str) -> (r: String)
    ensures
        r@ == normalized_url(url@, regex_group1(arxiv_abs_pattern(), url@)),
{
    let capture = regex_first_capture("^https?://arxiv\\.org/abs/([\\w\\.\\/]+)$", url);
    arxiv_pdf_url(url, capture)
}

} // verus!
