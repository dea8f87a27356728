//! The MinerU service: its options, the messages it exchanges, and what the
//! library decides on each answer; and the reading of the result archive.
use crate::provider::{MinerUModel, mineru_model_name};
use crate::text::{
    append_chars, chars_of, debug_opt_str, i32_to_decimal, opt_str_debug, signed_decimal,
    string_of,
};
use vstd::prelude::*;

verus! {

/// The options of a MinerU parse.
#[derive(Debug)]
pub struct MinerUConfig {
    pub model: MinerUModel,
    pub page_ranges: Option<Vec<(u32, u32)>>,
    pub is_ocr: Option<bool>,
    pub enable_formula: Option<bool>,
    pub enable_table: Option<bool>,
    pub language: Option<String>,
}

impl Default for MinerUConfig {
    /// The default options: the visual language model on all pages, with
    /// OCR, formulas and tables on, in English.
    fn default() -> (r: MinerUConfig)
        ensures
            r.model == MinerUModel::Vlm,
            r.page_ranges is None,
            r.is_ocr == Some(true),
            r.enable_formula == Some(true),
            r.enable_table == Some(true),
            r.language matches Some(l) && l@ == "en"@,
    {
        MinerUConfig {
            model: MinerUModel::default(),
            page_ranges: None,
            is_ocr: Some(true),
            enable_formula: Some(true),
            enable_table: Some(true),
            language: Some(string_of(&chars_of("en"))),
        }
    }
}

/// A file named in an upload request.
#[derive(Debug)]
pub struct FileItem {
    pub name: String,
}

/// The precision API's request for signed upload URLs.
#[derive(Debug)]
pub struct FileUrlsBatchRequest {
    pub files: Vec<FileItem>,
    pub model_version: String,
    pub is_ocr: Option<bool>,
    pub enable_formula: Option<bool>,
    pub enable_table: Option<bool>,
    pub language: Option<String>,
    pub no_cache: Option<bool>,
}

/// The answer to a request for upload URLs.
#[derive(Debug)]
pub struct FileUrlsBatchResponse {
    pub code: i32,
    pub msg: Option<String>,
    pub data: Option<FileUrlsBatchData>,
}

/// The batch and its upload URLs.
#[derive(Debug)]
pub struct FileUrlsBatchData {
    pub batch_id: String,
    pub file_urls: Vec<String>,
}

/// The answer to a poll of a batch.
#[derive(Debug)]
pub struct BatchResultsResponse {
    pub code: i32,
    pub msg: Option<String>,
    pub data: Option<BatchResultsData>,
}

/// The results of a batch, one per file.
#[derive(Debug)]
pub struct BatchResultsData {
    pub batch_id: String,
    pub extract_result: Vec<ExtractResultItem>,
}

/// The result for one file of a batch.
#[derive(Debug)]
pub struct ExtractResultItem {
    pub file_name: String,
    pub state: String,
    pub full_zip_url: Option<String>,
    pub extract_progress: Option<ExtractProgress>,
    pub err_msg: Option<String>,
}

/// How far the parsing of a file has come.
#[derive(Debug)]
pub struct ExtractProgress {
    pub total_pages: Option<i32>,
    pub extracted_pages: Option<i32>,
}

/// The agent API's request to parse a file.
#[derive(Debug)]
pub struct AgentFileRequest {
    pub file_name: String,
    pub language: Option<String>,
    pub page_range: Option<String>,
    pub enable_table: Option<bool>,
    pub is_ocr: Option<bool>,
    pub enable_formula: Option<bool>,
}

/// The answer to an agent parse request.
#[derive(Debug)]
pub struct AgentFileResponse {
    pub code: i32,
    pub data: Option<AgentFileData>,
}

/// The agent task and its upload URL.
#[derive(Debug)]
pub struct AgentFileData {
    pub task_id: String,
    pub file_url: String,
}

/// The answer to a poll of an agent task.
#[derive(Debug)]
pub struct AgentStatusResponse {
    pub code: i32,
    pub data: Option<AgentStatusData>,
}

/// The state of an agent task.
#[derive(Debug)]
pub struct AgentStatusData {
    pub state: String,
    pub markdown_url: Option<String>,
    pub extract_progress: Option<ExtractProgress>,
    pub err_code: Option<i32>,
    pub err_msg: Option<String>,
}

/// Why a MinerU parse failed.
#[derive(Debug)]
pub enum MinerUError {
    /// The request for upload URLs was refused (code and message).
    UploadRequestFailed(i32, Option<String>),
    /// The answer to the request for upload URLs holds no data.
    UploadRequestNoData,
    /// The answer to the request for upload URLs holds no URL.
    UploadRequestNoUrl,
    /// A poll of the batch was refused (code and message).
    BatchQueryFailed(i32, Option<String>),
    /// The answer to a poll of the batch holds no data.
    BatchQueryNoData,
    /// The file failed to parse (the service's message).
    ParseFailed(String),
    /// No file of the batch finished.
    NotCompleted,
    /// The finished result names no archive.
    NoZipUrl,
    /// The agent API refused the request (code).
    AgentRequestFailed(i32),
    /// The agent API's answer holds no data.
    AgentRequestNoData,
    /// A poll of the agent task was refused (code).
    AgentQueryFailed(i32),
    /// The answer to a poll of the agent task holds no data.
    AgentQueryNoData,
    /// The agent task failed (code and message).
    AgentParseFailed(i32, Option<String>),
    /// The agent task is in a state the library does not know.
    UnknownAgentState(String),
    /// The finished agent task names no Markdown.
    NoMarkdownUrl,
    /// The result archive holds no Markdown file.
    NoMarkdownInZip,
    /// The result archive could not be opened (the archive's message).
    ZipOpen(String),
    /// An entry of the result archive could not be read (the message).
    ZipEntry(String),
    /// A Markdown file of the archive could not be read (name and message).
    ZipRead(String, String),
    /// An image of the archive could not be read (name and message).
    ImageRead(String, String),
}

/// The message of a MinerU error.
pub open spec fn mineru_error_text(e: MinerUError) -> Seq<char> {
    match e {
        MinerUError::UploadRequestFailed(c, m) => "MinerU file-urls/batch failed: code="@
            + signed_decimal(c as int) + ", msg="@ + opt_str_debug(opt_seq(m)),
        MinerUError::UploadRequestNoData => "MinerU file-urls/batch returned no data"@,
        MinerUError::UploadRequestNoUrl => "MinerU file-urls/batch returned empty file_urls"@,
        MinerUError::BatchQueryFailed(c, m) => "MinerU batch results query failed: code="@
            + signed_decimal(c as int) + ", msg="@ + opt_str_debug(opt_seq(m)),
        MinerUError::BatchQueryNoData => "MinerU batch results returned no data"@,
        MinerUError::ParseFailed(m) => "MinerU parsing failed: "@ + m@,
        MinerUError::NotCompleted => "MinerU parsing did not complete"@,
        MinerUError::NoZipUrl => "No ZIP URL in MinerU result"@,
        MinerUError::AgentRequestFailed(c) => "MinerU Agent API failed: code="@ + signed_decimal(
            c as int,
        ),
        MinerUError::AgentRequestNoData => "MinerU Agent API returned no data"@,
        MinerUError::AgentQueryFailed(c) => "MinerU Agent status query failed: code="@
            + signed_decimal(c as int),
        MinerUError::AgentQueryNoData => "MinerU Agent status returned no data"@,
        MinerUError::AgentParseFailed(c, m) => "Agent parse failed: code="@ + signed_decimal(
            c as int,
        ) + ", msg="@ + opt_str_debug(opt_seq(m)),
        MinerUError::UnknownAgentState(s) => "Unknown agent task state: "@ + s@,
        MinerUError::NoMarkdownUrl => "No markdown URL in Agent result"@,
        MinerUError::NoMarkdownInZip => "No markdown file found in MinerU result ZIP"@,
        MinerUError::ZipOpen(m) => "Failed to open MinerU result ZIP: "@ + m@,
        MinerUError::ZipEntry(m) => "ZIP entry error: "@ + m@,
        MinerUError::ZipRead(n, m) => "Failed to read ZIP entry '"@ + n@ + "': "@ + m@,
        MinerUError::ImageRead(n, m) => "Failed to read image '"@ + n@ + "': "@ + m@,
    }
}

/// The characters of an optional string.
pub open spec fn opt_seq(o: Option<String>) -> Option<Seq<char>> {
    match o {
        Some(s) => Some(s@),
        None => None,
    }
}

fn text(s: &str) -> (r: Vec<char>)
    ensures
        r@ == s@,
{
    chars_of(s)
}

impl MinerUError {
    /// The error's message.
    pub fn message(&self) -> (r: String)
        ensures
            r@ == mineru_error_text(*self),
    {
        let v: Vec<char> = match self {
            MinerUError::UploadRequestFailed(c, m) => {
                let mut v = text("MinerU file-urls/batch failed: code=");
                append_chars(&mut v, &i32_to_decimal(*c));
                append_chars(&mut v, &text(", msg="));
                append_chars(&mut v, &debug_opt_str(m));
                v
            },
            MinerUError::UploadRequestNoData => text("MinerU file-urls/batch returned no data"),
            MinerUError::UploadRequestNoUrl => text("MinerU file-urls/batch returned empty file_urls"),
            MinerUError::BatchQueryFailed(c, m) => {
                let mut v = text("MinerU batch results query failed: code=");
                append_chars(&mut v, &i32_to_decimal(*c));
                append_chars(&mut v, &text(", msg="));
                append_chars(&mut v, &debug_opt_str(m));
                v
            },
            MinerUError::BatchQueryNoData => text("MinerU batch results returned no data"),
            MinerUError::ParseFailed(m) => {
                let mut v = text("MinerU parsing failed: ");
                append_chars(&mut v, &text(m.as_str()));
                v
            },
            MinerUError::NotCompleted => text("MinerU parsing did not complete"),
            MinerUError::NoZipUrl => text("No ZIP URL in MinerU result"),
            MinerUError::AgentRequestFailed(c) => {
                let mut v = text("MinerU Agent API failed: code=");
                append_chars(&mut v, &i32_to_decimal(*c));
                v
            },
            MinerUError::AgentRequestNoData => text("MinerU Agent API returned no data"),
            MinerUError::AgentQueryFailed(c) => {
                let mut v = text("MinerU Agent status query failed: code=");
                append_chars(&mut v, &i32_to_decimal(*c));
                v
            },
            MinerUError::AgentQueryNoData => text("MinerU Agent status returned no data"),
            MinerUError::AgentParseFailed(c, m) => {
                let mut v = text("Agent parse failed: code=");
                append_chars(&mut v, &i32_to_decimal(*c));
                append_chars(&mut v, &text(", msg="));
                append_chars(&mut v, &debug_opt_str(m));
                v
            },
            MinerUError::UnknownAgentState(s) => {
                let mut v = text("Unknown agent task state: ");
                append_chars(&mut v, &text(s.as_str()));
                v
            },
            MinerUError::NoMarkdownUrl => text("No markdown URL in Agent result"),
            MinerUError::NoMarkdownInZip => text("No markdown file found in MinerU result ZIP"),
            MinerUError::ZipOpen(m) => {
                let mut v = text("Failed to open MinerU result ZIP: ");
                append_chars(&mut v, &text(m.as_str()));
                v
            },
            MinerUError::ZipEntry(m) => {
                let mut v = text("ZIP entry error: ");
                append_chars(&mut v, &text(m.as_str()));
                v
            },
            MinerUError::ZipRead(n, m) => {
                let mut v = text("Failed to read ZIP entry '");
                append_chars(&mut v, &text(n.as_str()));
                append_chars(&mut v, &text("': "));
                append_chars(&mut v, &text(m.as_str()));
                v
            },
            MinerUError::ImageRead(n, m) => {
                let mut v = text("Failed to read image '");
                append_chars(&mut v, &text(n.as_str()));
                append_chars(&mut v, &text("': "));
                append_chars(&mut v, &text(m.as_str()));
                v
            },
        };
        string_of(&v)
    }
}

fn copy_opt_string(o: &Option<String>) -> (r: Option<String>)
    ensures
        opt_seq(r) == opt_seq(*o),
{
    match o {
        Some(s) => Some(s.clone()),
        None => None,
    }
}

/// The request for an upload URL for one file through the precision API,
/// carrying the model and the options of the configuration.
pub fn precision_request(file_name: &str, model_version: &str, config: &MinerUConfig) -> (r:
    FileUrlsBatchRequest)
    ensures
        r.files@.len() == 1,
        r.files@[0].name@ == file_name@,
        r.model_version@ == model_version@,
        r.is_ocr == config.is_ocr,
        r.enable_formula == config.enable_formula,
        r.enable_table == config.enable_table,
        opt_seq(r.language) == opt_seq(config.language),
        r.no_cache is None,
{
    let mut files: Vec<FileItem> = Vec::new();
    files.push(FileItem { name: string_of(&chars_of(file_name)) });
    FileUrlsBatchRequest {
        files,
        model_version: string_of(&chars_of(model_version)),
        is_ocr: config.is_ocr,
        enable_formula: config.enable_formula,
        enable_table: config.enable_table,
        language: copy_opt_string(&config.language),
        no_cache: None,
    }
}

/// The model version a precision parse asks for: the variant's name.
pub fn model_version(model: MinerUModel) -> (r: &'static str)
    ensures
        r@ == mineru_model_name(model),
{
    model.as_str()
}

/// The batch and the URL to upload to, from the answer to the request: an
/// error when the service refused, or named no data or no URL.
pub fn precision_upload_target(resp: FileUrlsBatchResponse) -> (r: Result<(String, String), MinerUError>)
    ensures
        match r {
            Ok((batch, url)) => {
                &&& resp.code == 0
                &&& resp.data matches Some(d)
                &&& d.file_urls@.len() > 0
                &&& batch@ == d.batch_id@
                &&& url@ == d.file_urls@[0]@
            },
            Err(MinerUError::UploadRequestFailed(c, m)) => resp.code != 0 && c == resp.code
                && opt_seq(m) == opt_seq(resp.msg),
            Err(MinerUError::UploadRequestNoData) => resp.code == 0 && resp.data is None,
            Err(MinerUError::UploadRequestNoUrl) => {
                &&& resp.code == 0
                &&& resp.data matches Some(d)
                &&& d.file_urls@.len() == 0
            },
            Err(_) => false,
        },
{
    if resp.code != 0 {
        return Err(MinerUError::UploadRequestFailed(resp.code, resp.msg));
    }
    match resp.data {
        None => Err(MinerUError::UploadRequestNoData),
        Some(d) => {
            let FileUrlsBatchData { batch_id, file_urls } = d;
            let mut urls = file_urls;
            if urls.len() == 0 {
                return Err(MinerUError::UploadRequestNoUrl);
            }
            let first = urls.remove(0);
            Ok((batch_id, first))
        },
    }
}

/// Whether a file of a batch is settled: done or failed.
pub open spec fn item_settled(item: ExtractResultItem) -> bool {
    item.state@ == "done"@ || item.state@ == "failed"@
}

/// What a poll of the batch tells: an error when refused or empty, the
/// results when every file is settled, `None` to poll again.
pub fn batch_poll_step(resp: BatchResultsResponse) -> (r: Result<Option<BatchResultsData>, MinerUError>)
    ensures
        match r {
            Ok(Some(d)) => resp.code == 0 && resp.data == Some(d) && forall|i: int|
                0 <= i < d.extract_result@.len() ==> item_settled(#[trigger] d.extract_result@[i]),
            Ok(None) => {
                &&& resp.code == 0
                &&& resp.data matches Some(d)
                &&& exists|i: int|
                    0 <= i < d.extract_result@.len() && !item_settled(#[trigger] d.extract_result@[i])
            },
            Err(MinerUError::BatchQueryFailed(c, m)) => resp.code != 0 && c == resp.code
                && opt_seq(m) == opt_seq(resp.msg),
            Err(MinerUError::BatchQueryNoData) => resp.code == 0 && resp.data is None,
            Err(_) => false,
        },
{
    if resp.code != 0 {
        return Err(MinerUError::BatchQueryFailed(resp.code, resp.msg));
    }
    let ghost rd = resp.data;
    match resp.data {
        None => Err(MinerUError::BatchQueryNoData),
        Some(d) => {
            let done = text("done");
            let failed = text("failed");
            let mut i: usize = 0;
            while i < d.extract_result.len()
                invariant
                    rd == Some(d),
                    rd == resp.data,
                    resp.code == 0,
                    i <= d.extract_result.len(),
                    done@ == "done"@,
                    failed@ == "failed"@,
                    forall|j: int| 0 <= j < i ==> item_settled(#[trigger] d.extract_result@[j]),
                decreases d.extract_result.len() - i,
            {
                let s = chars_of(d.extract_result[i].state.as_str());
                if !crate::text::chars_eq(&s, &done) && !crate::text::chars_eq(&s, &failed) {
                    assert(!item_settled(d.extract_result@[i as int]));
                    assert(exists|j: int| 0 <= j < d.extract_result@.len() && !item_settled(#[trigger] d.extract_result@[j]));
                    assert(resp.data matches Some(d2) && d2 == d);
                    return Ok(None);
                }
                i = i + 1;
            }
            Ok(Some(d))
        },
    }
}

/// Which result of a finished batch is used: the index of the first done
/// one; else the message of the first failed one (`unknown error` when it
/// has none); else `None`, nothing completed.
pub open spec fn chosen_result(items: Seq<ExtractResultItem>) -> Result<nat, Option<Seq<char>>> {
    match first_in_state(items, "done"@) {
        Some(i) => Ok(i),
        None => match first_in_state(items, "failed"@) {
            Some(f) => Err(
                Some(
                    match items[f as int].err_msg {
                        Some(m) => m@,
                        None => "unknown error"@,
                    },
                ),
            ),
            None => Err(None),
        },
    }
}

/// The index of the first item in the given state.
pub open spec fn first_in_state(items: Seq<ExtractResultItem>, state: Seq<char>) -> Option<nat>
    decreases items.len(),
{
    if items.len() == 0 {
        None
    } else if items[0].state@ == state {
        Some(0)
    } else {
        match first_in_state(items.drop_first(), state) {
            Some(i) => Some(i + 1),
            None => None,
        }
    }
}

fn first_in_state_exec(items: &Vec<ExtractResultItem>, state: &str) -> (r: Option<usize>)
    ensures
        match r {
            Some(i) => first_in_state(items@, state@) == Some(i as nat) && i < items@.len(),
            None => first_in_state(items@, state@) is None,
        },
{
    let st = chars_of(state);
    let mut i: usize = 0;
    assert(items@.skip(0) =~= items@);
    while i < items.len()
        invariant
            i <= items.len(),
            st@ == state@,
            first_in_state(items@, state@) == match first_in_state(items@.skip(i as int), state@) {
                Some(k) => Some((k + i) as nat),
                None => None,
            },
        decreases items.len() - i,
    {
        assert(items@.skip(i as int)[0] == items@[i as int]);
        assert(items@.skip(i as int).drop_first() =~= items@.skip(i + 1));
        if crate::text::chars_eq(&chars_of(items[i].state.as_str()), &st) {
            return Some(i);
        }
        i = i + 1;
    }
    None
}

/// Picks the result of a finished batch to use, as `chosen_result` describes.
pub fn select_result(data: &BatchResultsData) -> (r: Result<usize, MinerUError>)
    ensures
        match r {
            Ok(i) => chosen_result(data.extract_result@) == Ok::<nat, Option<Seq<char>>>(i as nat),
            Err(MinerUError::ParseFailed(m)) => chosen_result(data.extract_result@) == Err::<
                nat,
                Option<Seq<char>>,
            >(Some(m@)),
            Err(MinerUError::NotCompleted) => chosen_result(data.extract_result@) == Err::<
                nat,
                Option<Seq<char>>,
            >(None),
            Err(_) => false,
        },
{
    match first_in_state_exec(&data.extract_result, "done") {
        Some(i) => Ok(i),
        None => match first_in_state_exec(&data.extract_result, "failed") {
            Some(f) => {
                let msg = match &data.extract_result[f].err_msg {
                    Some(m) => m.clone(),
                    None => string_of(&text("unknown error")),
                };
                Err(MinerUError::ParseFailed(msg))
            },
            None => Err(MinerUError::NotCompleted),
        },
    }
}

/// The archive URL of the chosen result; an error when it names none.
pub fn result_zip_url(item: &ExtractResultItem) -> (r: Result<String, MinerUError>)
    ensures
        match r {
            Ok(u) => item.full_zip_url matches Some(z) && u@ == z@,
            Err(MinerUError::NoZipUrl) => item.full_zip_url is None,
            Err(_) => false,
        },
{
    match &item.full_zip_url {
        Some(z) => Ok(z.clone()),
        None => Err(MinerUError::NoZipUrl),
    }
}

/// The message after a parse completes: `<prefix>Total pages: N`, with 0
/// when the count is unknown.
pub open spec fn completion_text(prefix: Seq<char>, progress: Option<ExtractProgress>) -> Seq<char> {
    prefix + "Total pages: "@ + signed_decimal(
        match progress {
            Some(p) => match p.total_pages {
                Some(n) => n as int,
                None => 0,
            },
            None => 0,
        },
    )
}

/// The completion message, as `completion_text` describes.
pub fn completion_message(prefix: &str, progress: &Option<ExtractProgress>) -> (r: String)
    ensures
        r@ == completion_text(prefix@, *progress),
{
    let n: i32 = match progress {
        Some(p) => match p.total_pages {
            Some(n) => n,
            None => 0,
        },
        None => 0,
    };
    let mut v = text(prefix);
    append_chars(&mut v, &text("Total pages: "));
    append_chars(&mut v, &i32_to_decimal(n));
    string_of(&v)
}

/// The agent API's request for a file, carrying the options of the
/// configuration (the pages are cut out of the file beforehand, so no page
/// range is sent).
pub fn agent_request(file_name: &str, config: &MinerUConfig) -> (r: AgentFileRequest)
    ensures
        r.file_name@ == file_name@,
        opt_seq(r.language) == opt_seq(config.language),
        r.page_range is None,
        r.enable_table == config.enable_table,
        r.is_ocr == config.is_ocr,
        r.enable_formula == config.enable_formula,
{
    AgentFileRequest {
        file_name: string_of(&chars_of(file_name)),
        language: copy_opt_string(&config.language),
        page_range: None,
        enable_table: config.enable_table,
        is_ocr: config.is_ocr,
        enable_formula: config.enable_formula,
    }
}

/// The task and upload URL from the agent API's answer; an error when it
/// refused or named no data.
pub fn agent_upload_target(resp: AgentFileResponse) -> (r: Result<(String, String), MinerUError>)
    ensures
        match r {
            Ok((task, url)) => {
                &&& resp.code == 0
                &&& resp.data matches Some(d)
                &&& task@ == d.task_id@
                &&& url@ == d.file_url@
            },
            Err(MinerUError::AgentRequestFailed(c)) => resp.code != 0 && c == resp.code,
            Err(MinerUError::AgentRequestNoData) => resp.code == 0 && resp.data is None,
            Err(_) => false,
        },
{
    if resp.code != 0 {
        return Err(MinerUError::AgentRequestFailed(resp.code));
    }
    match resp.data {
        None => Err(MinerUError::AgentRequestNoData),
        Some(d) => Ok((d.task_id, d.file_url)),
    }
}

/// A state in which an agent task is still on its way.
pub open spec fn agent_waiting(s: Seq<char>) -> bool {
    s == "waiting-file"@ || s == "uploading"@ || s == "pending"@ || s == "running"@
}

/// What a poll of the agent task tells: the task when done; `None` to poll
/// again while it waits, uploads, is pending or runs; an error when refused,
/// empty, failed, or in another state.
pub fn agent_poll_step(resp: AgentStatusResponse) -> (r: Result<Option<AgentStatusData>, MinerUError>)
    ensures
        match r {
            Ok(Some(d)) => resp.code == 0 && resp.data == Some(d) && d.state@ == "done"@,
            Ok(None) => {
                &&& resp.code == 0
                &&& resp.data matches Some(d)
                &&& agent_waiting(d.state@)
            },
            Err(MinerUError::AgentQueryFailed(c)) => resp.code != 0 && c == resp.code,
            Err(MinerUError::AgentQueryNoData) => resp.code == 0 && resp.data is None,
            Err(MinerUError::AgentParseFailed(c, m)) => {
                &&& resp.code == 0
                &&& resp.data matches Some(d)
                &&& d.state@ == "failed"@
                &&& c == match d.err_code {
                    Some(x) => x,
                    None => 0,
                }
                &&& opt_seq(m) == opt_seq(d.err_msg)
            },
            Err(MinerUError::UnknownAgentState(s)) => {
                &&& resp.code == 0
                &&& resp.data matches Some(d)
                &&& s@ == d.state@
                &&& d.state@ != "done"@
                &&& d.state@ != "failed"@
                &&& !agent_waiting(d.state@)
            },
            Err(_) => false,
        },
{
    if resp.code != 0 {
        return Err(MinerUError::AgentQueryFailed(resp.code));
    }
    match resp.data {
        None => Err(MinerUError::AgentQueryNoData),
        Some(d) => {
            let s = chars_of(d.state.as_str());
            if crate::text::chars_eq(&s, &text("done")) {
                Ok(Some(d))
            } else if crate::text::chars_eq(&s, &text("failed")) {
                let code = match d.err_code {
                    Some(x) => x,
                    None => 0,
                };
                Err(MinerUError::AgentParseFailed(code, d.err_msg))
            } else if crate::text::chars_eq(&s, &text("waiting-file")) || crate::text::chars_eq(
                &s,
                &text("uploading"),
            ) || crate::text::chars_eq(&s, &text("pending")) || crate::text::chars_eq(
                &s,
                &text("running"),
            ) {
                Ok(None)
            } else {
                Err(MinerUError::UnknownAgentState(d.state))
            }
        },
    }
}

/// The Markdown URL of a finished agent task; an error when it names none.
pub fn agent_markdown_url(d: &AgentStatusData) -> (r: Result<String, MinerUError>)
    ensures
        match r {
            Ok(u) => d.markdown_url matches Some(m) && u@ == m@,
            Err(MinerUError::NoMarkdownUrl) => d.markdown_url is None,
            Err(_) => false,
        },
{
    match &d.markdown_url {
        Some(m) => Ok(m.clone()),
        None => Err(MinerUError::NoMarkdownUrl),
    }
}

} // verus!
