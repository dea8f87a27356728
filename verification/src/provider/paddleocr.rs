//! The PaddleOCR service: its options, the messages it exchanges, what the
//! library decides on each poll of a job, and how the pages of the result are
//! put together into one Markdown text with flat image names.
use crate::text::{
    append_chars, chars_of, decimal, i32_to_decimal, join_chars, join_seqs, replace_all,
    replace_chars, signed_decimal, split_chars, split_on, str_lines, string_of, strip_cr, trim,
    trim_chars, trim_start, u64_to_decimal,
};
use vstd::prelude::*;

verus! {

/// The options of a PaddleOCR parse.
#[derive(Debug)]
pub struct PaddleOcrConfig {
    pub page_ranges: Option<Vec<(u32, u32)>>,
    pub use_doc_orientation_classify: Option<bool>,
    pub use_doc_unwarping: Option<bool>,
    pub use_layout_detection: Option<bool>,
    pub use_chart_recognition: Option<bool>,
    pub layout_nms: Option<bool>,
    pub layout_merge_bboxes_mode: Option<String>,
    pub show_formula_number: Option<bool>,
    pub restructure_pages: Option<bool>,
    pub prettify_markdown: Option<bool>,
}

impl Default for PaddleOcrConfig {
    /// The default options: all pages; no orientation, unwarping or chart
    /// recognition; layout detection with NMS and `union` merging; formula
    /// numbers, restructured pages and prettified Markdown.
    fn default() -> (r: PaddleOcrConfig)
        ensures
            r.page_ranges is None,
            r.use_doc_orientation_classify == Some(false),
            r.use_doc_unwarping == Some(false),
            r.use_layout_detection == Some(true),
            r.use_chart_recognition == Some(false),
            r.layout_nms == Some(true),
            r.layout_merge_bboxes_mode matches Some(m) && m@ == "union"@,
            r.show_formula_number == Some(true),
            r.restructure_pages == Some(true),
            r.prettify_markdown == Some(true),
    {
        PaddleOcrConfig {
            page_ranges: None,
            use_doc_orientation_classify: Some(false),
            use_doc_unwarping: Some(false),
            use_layout_detection: Some(true),
            use_chart_recognition: Some(false),
            layout_nms: Some(true),
            layout_merge_bboxes_mode: Some(string_of(&chars_of("union"))),
            show_formula_number: Some(true),
            restructure_pages: Some(true),
            prettify_markdown: Some(true),
        }
    }
}

/// The optional parameters sent with a job.
#[derive(Debug)]
pub struct OptionalPayload {
    pub use_doc_orientation_classify: Option<bool>,
    pub use_doc_unwarping: Option<bool>,
    pub use_layout_detection: Option<bool>,
    pub use_chart_recognition: Option<bool>,
    pub layout_nms: Option<bool>,
    pub layout_merge_bboxes_mode: Option<String>,
    pub show_formula_number: Option<bool>,
    pub restructure_pages: Option<bool>,
    pub prettify_markdown: Option<bool>,
}

impl Default for OptionalPayload {
    /// No orientation, unwarping, layout detection or chart recognition; the
    /// other parameters left to the service.
    fn default() -> (r: OptionalPayload)
        ensures
            r.use_doc_orientation_classify == Some(false),
            r.use_doc_unwarping == Some(false),
            r.use_layout_detection == Some(false),
            r.use_chart_recognition == Some(false),
            r.layout_nms is None,
            r.layout_merge_bboxes_mode is None,
            r.show_formula_number is None,
            r.restructure_pages is None,
            r.prettify_markdown is None,
    {
        OptionalPayload {
            use_doc_orientation_classify: Some(false),
            use_doc_unwarping: Some(false),
            use_layout_detection: Some(false),
            use_chart_recognition: Some(false),
            layout_nms: None,
            layout_merge_bboxes_mode: None,
            show_formula_number: None,
            restructure_pages: None,
            prettify_markdown: None,
        }
    }
}

/// The characters of an optional string.
pub open spec fn opt_chars(o: Option<String>) -> Option<Seq<char>> {
    match o {
        Some(s) => Some(s@),
        None => None,
    }
}

fn copy_opt(o: &Option<String>) -> (r: Option<String>)
    ensures
        opt_chars(r) == opt_chars(*o),
{
    match o {
        Some(s) => Some(string_of(&chars_of(s.as_str()))),
        None => None,
    }
}

/// The parameters of a job, taken from the configuration.
pub fn optional_payload(config: &PaddleOcrConfig) -> (r: OptionalPayload)
    ensures
        r.use_doc_orientation_classify == config.use_doc_orientation_classify,
        r.use_doc_unwarping == config.use_doc_unwarping,
        r.use_layout_detection == config.use_layout_detection,
        r.use_chart_recognition == config.use_chart_recognition,
        r.layout_nms == config.layout_nms,
        opt_chars(r.layout_merge_bboxes_mode) == opt_chars(config.layout_merge_bboxes_mode),
        r.show_formula_number == config.show_formula_number,
        r.restructure_pages == config.restructure_pages,
        r.prettify_markdown == config.prettify_markdown,
{
    OptionalPayload {
        use_doc_orientation_classify: config.use_doc_orientation_classify,
        use_doc_unwarping: config.use_doc_unwarping,
        use_layout_detection: config.use_layout_detection,
        use_chart_recognition: config.use_chart_recognition,
        layout_nms: config.layout_nms,
        layout_merge_bboxes_mode: copy_opt(&config.layout_merge_bboxes_mode),
        show_formula_number: config.show_formula_number,
        restructure_pages: config.restructure_pages,
        prettify_markdown: config.prettify_markdown,
    }
}

// ---------------------------------------------------------------------------
// Messages of the service
// ---------------------------------------------------------------------------

/// The answer to a job submission.
#[derive(Debug)]
pub struct JobSubmissionResponse {
    pub data: JobSubmissionData,
}

/// The submitted job.
#[derive(Debug)]
pub struct JobSubmissionData {
    pub job_id: String,
}

/// The answer to a poll of a job.
#[derive(Debug)]
pub struct JobStatusResponse {
    pub data: JobStatusData,
}

/// The state of a job: `pending`, `running`, `done` or `failed`.
#[derive(Debug)]
pub struct JobStatusData {
    pub state: String,
    pub error_msg: Option<String>,
    pub extract_progress: Option<ExtractProgress>,
    pub result_url: Option<ResultUrl>,
}

/// How many pages a job has and has done.
#[derive(Debug)]
pub struct ExtractProgress {
    pub total_pages: Option<i32>,
    pub extracted_pages: Option<i32>,
    pub start_time: Option<String>,
    pub end_time: Option<String>,
}

/// Where the result of a finished job lies.
#[derive(Debug)]
pub struct ResultUrl {
    pub json_url: String,
}

/// One line of the result.
#[derive(Debug)]
pub struct JsonlLine {
    pub result: JsonlResult,
}

/// The layouts of one line of the result.
#[derive(Debug)]
pub struct JsonlResult {
    pub layout_parsing_results: Vec<LayoutParsingResult>,
}

/// One parsed layout: its Markdown and the images the service drew.
#[derive(Debug)]
pub struct LayoutParsingResult {
    pub markdown: MarkdownData,
    /// Image name and URL, in the order in which the answer was read.
    pub output_images: Option<Vec<(String, String)>>,
}

/// The Markdown of a layout and the images it refers to.
#[derive(Debug)]
pub struct MarkdownData {
    pub text: String,
    /// Image path (as the text refers to it) and URL, in the order in which
    /// the answer was read.
    pub images: Vec<(String, String)>,
}

// ---------------------------------------------------------------------------
// Polling a job
// ---------------------------------------------------------------------------

/// Why a PaddleOCR job gives no result.
#[derive(Debug)]
pub enum PaddleOcrError {
    /// The job failed (the service's message, if any).
    JobFailed(Option<String>),
    /// The job is in a state the library does not know.
    UnknownState(String),
    /// The finished job names no result.
    NoResultUrl,
}

/// The message of a PaddleOCR error.
pub open spec fn paddle_error_text(e: PaddleOcrError) -> Seq<char> {
    match e {
        PaddleOcrError::JobFailed(m) => "Job failed: "@ + match m {
            Some(s) => s@,
            None => "Unknown error"@,
        },
        PaddleOcrError::UnknownState(s) => "Unknown job state: "@ + s@,
        PaddleOcrError::NoResultUrl => "No result URL found"@,
    }
}

impl PaddleOcrError {
    /// The error's message.
    pub fn message(&self) -> (r: String)
        ensures
            r@ == paddle_error_text(*self),
    {
        let mut v: Vec<char>;
        match self {
            PaddleOcrError::JobFailed(m) => {
                v = chars_of("Job failed: ");
                match m {
                    Some(s) => append_chars(&mut v, &chars_of(s.as_str())),
                    None => append_chars(&mut v, &chars_of("Unknown error")),
                }
            },
            PaddleOcrError::UnknownState(s) => {
                v = chars_of("Unknown job state: ");
                append_chars(&mut v, &chars_of(s.as_str()));
            },
            PaddleOcrError::NoResultUrl => {
                v = chars_of("No result URL found");
            },
        }
        string_of(&v)
    }
}

/// What to do after a poll of a job.
#[derive(Debug)]
pub enum JobPoll {
    /// Report the message and poll again.
    Waiting(String),
    /// The job is done: report the message, if any, and fetch the result at
    /// the URL, if any.
    Finished(Option<String>, Option<String>),
    /// Stop with the error.
    Failed(PaddleOcrError),
}

/// The progress message of a running job.
pub open spec fn running_text(p: Option<ExtractProgress>) -> Seq<char> {
    match p {
        Some(pr) => match (pr.total_pages, pr.extracted_pages) {
            (Some(t), Some(x)) => "Processing: "@ + signed_decimal(x as int) + "/"@ + signed_decimal(
                t as int,
            ) + " pages"@,
            _ => "Processing..."@,
        },
        None => "Processing..."@,
    }
}

/// The completion message of a finished job, when it says how many pages it
/// did.
pub open spec fn finished_text(p: Option<ExtractProgress>) -> Option<Seq<char>> {
    match p {
        Some(pr) => match pr.extracted_pages {
            Some(x) => Some("Completed! Extracted "@ + signed_decimal(x as int) + " pages"@),
            None => None,
        },
        None => None,
    }
}

fn running_message(p: &Option<ExtractProgress>) -> (r: String)
    ensures
        r@ == running_text(*p),
{
    match p {
        Some(pr) => match (pr.total_pages, pr.extracted_pages) {
            (Some(t), Some(x)) => {
                let mut v = chars_of("Processing: ");
                append_chars(&mut v, &i32_to_decimal(x));
                append_chars(&mut v, &chars_of("/"));
                append_chars(&mut v, &i32_to_decimal(t));
                append_chars(&mut v, &chars_of(" pages"));
                string_of(&v)
            },
            _ => string_of(&chars_of("Processing...")),
        },
        None => string_of(&chars_of("Processing...")),
    }
}

fn finished_message(p: &Option<ExtractProgress>) -> (r: Option<String>)
    ensures
        opt_chars(r) == finished_text(*p),
{
    match p {
        Some(pr) => match pr.extracted_pages {
            Some(x) => {
                let mut v = chars_of("Completed! Extracted ");
                append_chars(&mut v, &i32_to_decimal(x));
                append_chars(&mut v, &chars_of(" pages"));
                Some(string_of(&v))
            },
            None => None,
        },
        None => None,
    }
}

/// What one poll of a job decides: `pending` and `running` wait (with their
/// progress message), `done` finishes (with its completion message and the
/// result's URL), `failed` stops with the service's message, and any other
/// state stops as unknown.
pub fn job_poll_step(status: &JobStatusData) -> (r: JobPoll)
    ensures
        status.state@ == "pending"@ ==> (r matches JobPoll::Waiting(m) && m@ == "Job pending..."@),
        status.state@ == "running"@ ==> (r matches JobPoll::Waiting(m) && m@ == running_text(
            status.extract_progress,
        )),
        status.state@ == "done"@ ==> (r matches JobPoll::Finished(m, u) && opt_chars(m)
            == finished_text(status.extract_progress) && opt_chars(u) == match status.result_url {
            Some(ru) => Some(ru.json_url@),
            None => None::<Seq<char>>,
        }),
        status.state@ == "failed"@ ==> (r matches JobPoll::Failed(PaddleOcrError::JobFailed(m))
            && opt_chars(m) == opt_chars(status.error_msg)),
        status.state@ != "pending"@ && status.state@ != "running"@ && status.state@ != "done"@
            && status.state@ != "failed"@ ==> (r matches JobPoll::Failed(
            PaddleOcrError::UnknownState(s),
        ) && s@ == status.state@),
{
    proof {
        reveal_strlit("pending");
        reveal_strlit("running");
        reveal_strlit("done");
        reveal_strlit("failed");
        assert("running"@[0] != "pending"@[0]);
        assert("done"@.len() != "pending"@.len() && "done"@.len() != "running"@.len());
        assert("failed"@.len() != "pending"@.len() && "failed"@.len() != "running"@.len());
        assert("failed"@.len() != "done"@.len());
    }
    let st = chars_of(status.state.as_str());
    if crate::text::chars_eq(&st, &chars_of("pending")) {
        JobPoll::Waiting(string_of(&chars_of("Job pending...")))
    } else if crate::text::chars_eq(&st, &chars_of("running")) {
        JobPoll::Waiting(running_message(&status.extract_progress))
    } else if crate::text::chars_eq(&st, &chars_of("done")) {
        let url = match &status.result_url {
            Some(ru) => Some(string_of(&chars_of(ru.json_url.as_str()))),
            None => None,
        };
        JobPoll::Finished(finished_message(&status.extract_progress), url)
    } else if crate::text::chars_eq(&st, &chars_of("failed")) {
        JobPoll::Failed(PaddleOcrError::JobFailed(copy_opt(&status.error_msg)))
    } else {
        JobPoll::Failed(PaddleOcrError::UnknownState(string_of(&st)))
    }
}

/// The URL of the result of a finished job; an error when it names none.
pub fn require_result_url(url: Option<String>) -> (r: Result<String, PaddleOcrError>)
    ensures
        match url {
            Some(u) => r matches Ok(v) && v@ == u@,
            None => r matches Err(PaddleOcrError::NoResultUrl),
        },
{
    match url {
        Some(u) => Ok(u),
        None => Err(PaddleOcrError::NoResultUrl),
    }
}

/// The report made once a job is submitted.
pub fn job_submitted_message(job_id: &str) -> (r: String)
    ensures
        r@ == "Job submitted, job ID: "@ + job_id@,
{
    let mut v = chars_of("Job submitted, job ID: ");
    append_chars(&mut v, &chars_of(job_id));
    string_of(&v)
}


// ---------------------------------------------------------------------------
// The result
// ---------------------------------------------------------------------------

/// The lines that hold more than whitespace, in order.
pub open spec fn nonblank(ls: Seq<Seq<char>>) -> Seq<Seq<char>>
    decreases ls.len(),
{
    if ls.len() == 0 {
        Seq::empty()
    } else if trim(ls.last()).len() > 0 {
        nonblank(ls.drop_last()).push(ls.last())
    } else {
        nonblank(ls.drop_last())
    }
}

/// Strings as values.
pub open spec fn strings_view(v: Seq<String>) -> Seq<Seq<char>> {
    v.map_values(|s: String| s@)
}

/// The lines of the result that are not blank, one record on each.
pub fn nonblank_lines(content: &str) -> (r: Vec<String>)
    ensures
        strings_view(r@) == nonblank(str_lines(content@)),
{
    let pieces = split_chars(&chars_of(content), '\n');
    let ghost pv = pieces@.map_values(|p: Vec<char>| p@);
    let n = pieces.len();
    proof {
        assert(pv == split_on(content@, '\n'));
        crate::text::lemma_split_nonempty(content@, '\n');
    }
    let ghost mapped = Seq::new(
        n as nat,
        |k: int| if k < n - 1 { strip_cr(pv[k]) } else { pv[k] },
    );
    let mut out: Vec<String> = Vec::new();
    let mut k: usize = 0;
    while k < n
        invariant
            n == pieces.len(),
            n >= 1,
            pv == pieces@.map_values(|p: Vec<char>| p@),
            mapped == Seq::new(
                n as nat,
                |k: int| if k < n - 1 { strip_cr(pv[k]) } else { pv[k] },
            ),
            k <= n,
            strings_view(out@) == nonblank(mapped.take(k as int)),
        decreases n - k,
    {
        let piece = &pieces[k];
        assert(piece@ == pv[k as int]);
        let line: Vec<char> = if k + 1 < n && piece.len() > 0 && piece[piece.len() - 1] == '\r' {
            crate::text::slice_chars(piece, 0, piece.len() - 1)
        } else {
            crate::text::slice_chars(piece, 0, piece.len())
        };
        assert(piece@.subrange(0, piece@.len() as int) =~= piece@);
        assert(line@ == mapped[k as int]);
        assert(mapped.take(k + 1).drop_last() =~= mapped.take(k as int));
        if trim_chars(&line).len() > 0 {
            out.push(string_of(&line));
            assert(strings_view(out@) =~= nonblank(mapped.take(k as int)).push(line@));
        }
        k = k + 1;
    }
    proof {
        assert(mapped.take(n as int) =~= mapped);
        let body = pv.drop_last().map_values(|t: Seq<char>| strip_cr(t));
        assert(mapped.drop_last() =~= body);
        if pv.last().len() == 0 {
            assert(trim(mapped.last()).len() == 0) by {
                assert(mapped.last() =~= Seq::<char>::empty());
                assert(trim_start(Seq::<char>::empty()) =~= Seq::<char>::empty());
            }
        } else {
            assert(mapped =~= body.push(pv.last()));
        }
    }
    out
}


/// The file name under which an image of a layout is kept: the kind
/// (`image` or `output`), the line, the layout and the image's path with
/// every `/` made `_`, joined by `_`.
pub open spec fn image_file_name(kind: Seq<char>, line: nat, layout: nat, path: Seq<char>) -> Seq<char> {
    kind + "_"@ + decimal(line) + "_"@ + decimal(layout) + "_"@ + replace_all(path, "/"@, "_"@)
}

/// Pairs of strings as values.
pub open spec fn pairs_view(v: Seq<(String, String)>) -> Seq<(Seq<char>, Seq<char>)> {
    v.map_values(|e: (String, String)| (e.0@, e.1@))
}

/// The layout's Markdown with each image path, in turn, replaced by the
/// image's file name.
pub open spec fn layout_markdown(text: Seq<char>, images: Seq<(Seq<char>, Seq<char>)>, line: nat, layout: nat) -> Seq<char>
    decreases images.len(),
{
    if images.len() == 0 {
        text
    } else {
        let p = images.last().0;
        replace_all(
            layout_markdown(text, images.drop_last(), line, layout),
            p,
            image_file_name("image"@, line, layout, p),
        )
    }
}

/// Renaming the images of a layout is done image by image, in order: with
/// no image the Markdown is the layout's text, and one image more replaces
/// every occurrence of its path, in the Markdown the others gave, by its
/// file name.
pub proof fn law_layout_images_in_turn(
    text: Seq<char>,
    images: Seq<(Seq<char>, Seq<char>)>,
    image: (Seq<char>, Seq<char>),
    line: nat,
    layout: nat,
)
    ensures
        layout_markdown(text, Seq::empty(), line, layout) == text,
        layout_markdown(text, images.push(image), line, layout) == replace_all(
            layout_markdown(text, images, line, layout),
            image.0,
            image_file_name("image"@, line, layout, image.0),
        ),
{
    assert(images.push(image).drop_last() =~= images);
}

/// Every image of a layout is renamed, not only the last: when no path is
/// empty, and no path can begin inside a file name nor run into one, no
/// image path is left in the layout's Markdown.
pub proof fn law_layout_paths_all_replaced(
    text: Seq<char>,
    images: Seq<(Seq<char>, Seq<char>)>,
    line: nat,
    layout: nat,
)
    requires
        forall|i: int| 0 <= i < images.len() ==> (#[trigger] images[i]).0.len() > 0,
        forall|i: int, j: int|
            0 <= i < images.len() && 0 <= j < images.len() ==> crate::text::no_start_inside(
                #[trigger] images[i].0,
                image_file_name("image"@, line, layout, #[trigger] images[j].0),
            ) && crate::text::no_tail_into(
                images[i].0,
                image_file_name("image"@, line, layout, images[j].0),
            ),
    ensures
        forall|i: int|
            0 <= i < images.len() ==> !crate::text::contains_seq(
                layout_markdown(text, images, line, layout),
                #[trigger] images[i].0,
            ),
    decreases images.len(),
{
    if images.len() > 0 {
        let prev = images.drop_last();
        let n = (images.len() - 1) as int;
        assert forall|i: int| 0 <= i < prev.len() implies (#[trigger] prev[i]).0.len() > 0 by {
            assert(prev[i] == images[i]);
        }
        assert forall|i: int, j: int|
            0 <= i < prev.len() && 0 <= j < prev.len() implies crate::text::no_start_inside(
                #[trigger] prev[i].0,
                image_file_name("image"@, line, layout, #[trigger] prev[j].0),
            ) && crate::text::no_tail_into(
                prev[i].0,
                image_file_name("image"@, line, layout, prev[j].0),
            ) by {
            assert(prev[i] == images[i]);
            assert(prev[j] == images[j]);
        }
        law_layout_paths_all_replaced(text, prev, line, layout);
        let p = images[n].0;
        let c = image_file_name("image"@, line, layout, p);
        assert(images.last() == images[n]);
        assert forall|i: int| 0 <= i < images.len() implies !crate::text::contains_seq(
            layout_markdown(text, images, line, layout),
            #[trigger] images[i].0,
        ) by {
            assert(images[n].0.len() > 0);
            assert(images[i].0.len() > 0);
            assert(crate::text::no_start_inside(images[i].0, c) && crate::text::no_tail_into(images[i].0, c));
            if i < n {
                assert(prev[i] == images[i]);
            }
            crate::text::lemma_replace_leaves_no_occurrence(
                layout_markdown(text, prev, line, layout),
                p,
                c,
                images[i].0,
            );
        }
    }
}

/// The images of one layout to fetch: file name and URL, first those the
/// Markdown refers to, then those the service drew.
pub open spec fn layout_downloads(l: LayoutParsingResult, line: nat, layout: nat) -> Seq<(Seq<char>, Seq<char>)> {
    pairs_view(l.markdown.images@).map_values(
        |e: (Seq<char>, Seq<char>)| (image_file_name("image"@, line, layout, e.0), e.1),
    ) + match l.output_images {
        Some(v) => pairs_view(v@).map_values(
            |e: (Seq<char>, Seq<char>)| (image_file_name("output"@, line, layout, e.0), e.1),
        ),
        None => Seq::empty(),
    }
}

/// The Markdown of each layout of one line, in order.
pub open spec fn line_texts(ls: Seq<LayoutParsingResult>, line: nat) -> Seq<Seq<char>>
    decreases ls.len(),
{
    if ls.len() == 0 {
        Seq::empty()
    } else {
        let l = ls.last();
        line_texts(ls.drop_last(), line).push(
            layout_markdown(l.markdown.text@, pairs_view(l.markdown.images@), line, (ls.len() - 1) as nat),
        )
    }
}

/// The images to fetch for one line, layout by layout.
pub open spec fn line_downloads(ls: Seq<LayoutParsingResult>, line: nat) -> Seq<(Seq<char>, Seq<char>)>
    decreases ls.len(),
{
    if ls.len() == 0 {
        Seq::empty()
    } else {
        line_downloads(ls.drop_last(), line) + layout_downloads(ls.last(), line, (ls.len() - 1) as nat)
    }
}

/// The Markdown of every layout of every line, in order.
pub open spec fn all_texts(lines: Seq<JsonlLine>) -> Seq<Seq<char>>
    decreases lines.len(),
{
    if lines.len() == 0 {
        Seq::empty()
    } else {
        all_texts(lines.drop_last()) + line_texts(
            lines.last().result.layout_parsing_results@,
            (lines.len() - 1) as nat,
        )
    }
}

/// The images to fetch for every line, in order.
pub open spec fn all_downloads(lines: Seq<JsonlLine>) -> Seq<(Seq<char>, Seq<char>)>
    decreases lines.len(),
{
    if lines.len() == 0 {
        Seq::empty()
    } else {
        all_downloads(lines.drop_last()) + line_downloads(
            lines.last().result.layout_parsing_results@,
            (lines.len() - 1) as nat,
        )
    }
}

/// The document put together from the result: its Markdown, and the images
/// to fetch (file name, URL).
#[derive(Debug)]
pub struct AssembledResult {
    pub markdown: String,
    pub downloads: Vec<(String, String)>,
}

fn file_name_for(kind: &str, line: usize, layout: usize, path: &str) -> (r: Vec<char>)
    ensures
        r@ == image_file_name(kind@, line as nat, layout as nat, path@),
{
    let mut v = chars_of(kind);
    append_chars(&mut v, &chars_of("_"));
    append_chars(&mut v, &u64_to_decimal(line as u64));
    append_chars(&mut v, &chars_of("_"));
    append_chars(&mut v, &u64_to_decimal(layout as u64));
    append_chars(&mut v, &chars_of("_"));
    append_chars(&mut v, &replace_chars(&chars_of(path), &chars_of("/"), &chars_of("_")));
    v
}

fn push_downloads(
    out: &mut Vec<(String, String)>,
    items: &Vec<(String, String)>,
    kind: &str,
    line: usize,
    layout: usize,
)
    ensures
        pairs_view(final(out)@) == pairs_view(old(out)@) + pairs_view(items@).map_values(
            |e: (Seq<char>, Seq<char>)| (image_file_name(kind@, line as nat, layout as nat, e.0), e.1),
        ),
{
    let ghost start = pairs_view(out@);
    let ghost f = |e: (Seq<char>, Seq<char>)| (image_file_name(kind@, line as nat, layout as nat, e.0), e.1);
    let mut i: usize = 0;
    while i < items.len()
        invariant
            i <= items.len(),
            f == |e: (Seq<char>, Seq<char>)| (image_file_name(kind@, line as nat, layout as nat, e.0), e.1),
            pairs_view(out@) == start + pairs_view(items@).take(i as int).map_values(f),
        decreases items.len() - i,
    {
        let name = string_of(&file_name_for(kind, line, layout, items[i].0.as_str()));
        let url = string_of(&chars_of(items[i].1.as_str()));
        let ghost prev = pairs_view(out@);
        let ghost item = (name@, url@);
        assert(item == f(pairs_view(items@)[i as int]));
        out.push((name, url));
        assert(pairs_view(out@) =~= prev.push(item));
        assert(pairs_view(items@).take(i + 1) =~= pairs_view(items@).take(i as int).push(
            pairs_view(items@)[i as int],
        ));
        assert(pairs_view(items@).take(i + 1).map_values(f) =~= pairs_view(items@).take(
            i as int,
        ).map_values(f).push(item));
        assert(pairs_view(out@) =~= start + pairs_view(items@).take(i + 1).map_values(f));
        i = i + 1;
    }
    assert(pairs_view(items@).take(items.len() as int) =~= pairs_view(items@));
}

fn layout_text(l: &LayoutParsingResult, line: usize, layout: usize) -> (r: Vec<char>)
    ensures
        r@ == layout_markdown(l.markdown.text@, pairs_view(l.markdown.images@), line as nat, layout as nat),
{
    let ghost iv = pairs_view(l.markdown.images@);
    let mut md = chars_of(l.markdown.text.as_str());
    let mut i: usize = 0;
    while i < l.markdown.images.len()
        invariant
            iv == pairs_view(l.markdown.images@),
            i <= l.markdown.images.len(),
            md@ == layout_markdown(l.markdown.text@, iv.take(i as int), line as nat, layout as nat),
        decreases l.markdown.images.len() - i,
    {
        let path = &l.markdown.images[i].0;
        let name = file_name_for("image", line, layout, path.as_str());
        proof {
            reveal_strlit("image");
        }
        md = replace_chars(&md, &chars_of(path.as_str()), &name);
        assert(iv.take(i + 1).drop_last() =~= iv.take(i as int));
        i = i + 1;
    }
    assert(iv.take(l.markdown.images.len() as int) =~= iv);
    md
}

/// Puts the result together: the Markdown of every layout of every line,
/// with image paths replaced by file names, joined by horizontal rules; and
/// the images to fetch under those names.
pub fn assemble_result(lines: &Vec<JsonlLine>) -> (r: AssembledResult)
    ensures
        r.markdown@ == join_seqs(all_texts(lines@), "\n\n---\n\n"@),
        pairs_view(r.downloads@) == all_downloads(lines@),
{
    let mut texts: Vec<Vec<char>> = Vec::new();
    let mut downloads: Vec<(String, String)> = Vec::new();
    let mut i: usize = 0;
    while i < lines.len()
        invariant
            i <= lines.len(),
            texts@.map_values(|p: Vec<char>| p@) == all_texts(lines@.take(i as int)),
            pairs_view(downloads@) == all_downloads(lines@.take(i as int)),
        decreases lines.len() - i,
    {
        let ls = &lines[i].result.layout_parsing_results;
        let ghost t0 = texts@.map_values(|p: Vec<char>| p@);
        let ghost d0 = pairs_view(downloads@);
        let mut j: usize = 0;
        while j < ls.len()
            invariant
                i < lines.len(),
                ls == lines@[i as int].result.layout_parsing_results,
                j <= ls.len(),
                texts@.map_values(|p: Vec<char>| p@) == t0 + line_texts(ls@.take(j as int), i as nat),
                pairs_view(downloads@) == d0 + line_downloads(ls@.take(j as int), i as nat),
            decreases ls.len() - j,
        {
            let l = &ls[j];
            assert(ls@.take(j + 1).drop_last() =~= ls@.take(j as int));
            assert(ls@.take(j + 1).last() == ls@[j as int]);
            let t = layout_text(l, i, j);
            let ghost prev = texts@.map_values(|p: Vec<char>| p@);
            let ghost tv = t@;
            texts.push(t);
            assert(texts@.map_values(|p: Vec<char>| p@) =~= prev.push(tv));
            assert(texts@.map_values(|p: Vec<char>| p@) =~= t0 + line_texts(ls@.take(j + 1), i as nat));
            let ghost before = pairs_view(downloads@);
            push_downloads(&mut downloads, &l.markdown.images, "image", i, j);
            match &l.output_images {
                Some(v) => push_downloads(&mut downloads, v, "output", i, j),
                None => {},
            }
            proof {
                reveal_strlit("image");
                reveal_strlit("output");
                assert(pairs_view(downloads@) =~= d0 + line_downloads(ls@.take(j + 1), i as nat));
            }
            j = j + 1;
        }
        assert(ls@.take(ls.len() as int) =~= ls@);
        assert(lines@.take(i + 1).drop_last() =~= lines@.take(i as int));
        assert(texts@.map_values(|p: Vec<char>| p@) =~= all_texts(lines@.take(i + 1)));
        assert(pairs_view(downloads@) =~= all_downloads(lines@.take(i + 1)));
        i = i + 1;
    }
    assert(lines@.take(lines.len() as int) =~= lines@);
    let md = join_chars(&texts, &chars_of("\n\n---\n\n"));
    AssembledResult { markdown: string_of(&md), downloads }
}

} // verus!
