//! The Zhipu document parser: the messages it exchanges, what the library
//! decides on each poll of a task, the reports it makes, and which files of
//! the result package it takes.
use crate::text::{append_chars, chars_of, decimal, string_of, u64_to_decimal};
use vstd::prelude::*;

verus! {

/// The answer to the creation of a parsing task.
#[derive(Debug)]
pub struct CreateTaskResponse {
    pub message: String,
    pub task_id: String,
    pub success: Option<bool>,
}

/// The answer to a request for a task's result.
#[derive(Debug)]
pub struct QueryResultResponse {
    pub status: String,
    pub message: String,
    pub content: Option<String>,
    pub task_id: Option<String>,
    pub parsing_result_url: Option<String>,
}

/// Why a Zhipu parse gives no result.
#[derive(Debug)]
pub enum ZhipuError {
    /// The task failed (the service's message).
    ParseFailed(String),
    /// The task gave no Markdown.
    NoContent,
}

/// The message of a Zhipu error.
pub open spec fn zhipu_error_text(e: ZhipuError) -> Seq<char> {
    match e {
        ZhipuError::ParseFailed(m) => "Parsing failed: "@ + m@,
        ZhipuError::NoContent => "No content generated"@,
    }
}

impl ZhipuError {
    /// The error's message.
    pub fn message(&self) -> (r: String)
        ensures
            r@ == zhipu_error_text(*self),
    {
        match self {
            ZhipuError::ParseFailed(m) => {
                let mut v = chars_of("Parsing failed: ");
                append_chars(&mut v, &chars_of(m.as_str()));
                string_of(&v)
            },
            ZhipuError::NoContent => string_of(&chars_of("No content generated")),
        }
    }
}

/// What to do after a request for a task's result.
#[derive(Debug)]
pub enum ZhipuPoll {
    /// The task is done: take its content and package.
    Succeeded,
    /// The task is still running: wait and ask again.
    Processing,
    /// Stop with the error.
    Failed(ZhipuError),
}

/// What one request for a task's result decides: `succeeded` ends the
/// polling, `processing` waits, and any other status fails with the
/// service's message.
pub fn zhipu_poll_step(resp: &QueryResultResponse) -> (r: ZhipuPoll)
    ensures
        resp.status@ == "succeeded"@ ==> r is Succeeded,
        resp.status@ == "processing"@ ==> r is Processing,
        resp.status@ != "succeeded"@ && resp.status@ != "processing"@ ==> (r matches ZhipuPoll::Failed(
            ZhipuError::ParseFailed(m),
        ) && m@ == resp.message@),
{
    proof {
        reveal_strlit("succeeded");
        reveal_strlit("processing");
        assert("succeeded"@.len() != "processing"@.len());
    }
    let s = chars_of(resp.status.as_str());
    if crate::text::chars_eq(&s, &chars_of("succeeded")) {
        ZhipuPoll::Succeeded
    } else if crate::text::chars_eq(&s, &chars_of("processing")) {
        ZhipuPoll::Processing
    } else {
        ZhipuPoll::Failed(ZhipuError::ParseFailed(string_of(&chars_of(resp.message.as_str()))))
    }
}

/// The Markdown of a finished task: the content of the answer when there is
/// some, else the text of the first Markdown file of the package; an error
/// when both are missing or empty.
pub fn zhipu_markdown(content: Option<String>, first_md_file: Option<String>) -> (r: Result<String, ZhipuError>)
    ensures
        match content {
            Some(c) if c@.len() > 0 => r matches Ok(m) && m@ == c@,
            _ => match first_md_file {
                Some(f) if f@.len() > 0 => r matches Ok(m) && m@ == f@,
                _ => r matches Err(ZhipuError::NoContent),
            },
        },
{
    if let Some(c) = content {
        if !c.as_str().is_empty() {
            return Ok(c);
        }
    }
    match first_md_file {
        Some(f) => if f.as_str().is_empty() {
            Err(ZhipuError::NoContent)
        } else {
            Ok(f)
        },
        None => Err(ZhipuError::NoContent),
    }
}

/// What the polling of a task does next.
#[derive(Debug)]
pub enum ZhipuAction {
    /// Take the task's content and result package, and stop polling.
    Collect,
    /// Wait the poll interval, then ask again at the given attempt, or stop
    /// polling when no attempt is left.
    Wait(Option<u32>),
    /// Stop with the error.
    Stop(ZhipuError),
}

/// The first attempt of the polling: 1, or none when no attempt is allowed.
pub fn first_attempt(max_retries: u32) -> (r: Option<u32>)
    ensures
        r == if max_retries >= 1 {
            Some(1u32)
        } else {
            None
        },
{
    if max_retries >= 1 {
        Some(1)
    } else {
        None
    }
}

/// What follows the answer to attempt `attempt` out of `max_retries`: a
/// finished task is collected, a running one waits for the next attempt
/// (none after the last), a failed one stops with its error.
pub fn zhipu_next(attempt: u32, max_retries: u32, poll: ZhipuPoll) -> (r: ZhipuAction)
    ensures
        poll is Succeeded ==> r is Collect,
        poll is Processing ==> r == ZhipuAction::Wait(
            if attempt < max_retries {
                Some((attempt + 1) as u32)
            } else {
                None
            },
        ),
        poll matches ZhipuPoll::Failed(e) ==> r == ZhipuAction::Stop(e),
{
    match poll {
        ZhipuPoll::Succeeded => ZhipuAction::Collect,
        ZhipuPoll::Processing => if attempt < max_retries {
            ZhipuAction::Wait(Some(attempt + 1))
        } else {
            ZhipuAction::Wait(None)
        },
        ZhipuPoll::Failed(e) => ZhipuAction::Stop(e),
    }
}

/// Whether the Markdown file of the result package is needed: the answer
/// carried no content, or an empty one.
pub fn needs_package_markdown(content: &Option<String>) -> (r: bool)
    ensures
        r == match content {
            Some(c) => c@.len() == 0,
            None => true,
        },
{
    match content {
        Some(c) => c.as_str().is_empty(),
        None => true,
    }
}

// ---------------------------------------------------------------------------
// Reports
// ---------------------------------------------------------------------------

/// The report made before the pages are cut out.
pub fn splitting_message(range_count: usize) -> (r: String)
    ensures
        r@ == "Splitting PDF ("@ + decimal(range_count as nat) + " ranges)..."@,
{
    let mut v = chars_of("Splitting PDF (");
    append_chars(&mut v, &u64_to_decimal(range_count as u64));
    append_chars(&mut v, &chars_of(" ranges)..."));
    string_of(&v)
}

/// The report made once the task exists.
pub fn task_created_message(task_id: &str) -> (r: String)
    ensures
        r@ == "Task created: "@ + task_id@,
{
    let mut v = chars_of("Task created: ");
    append_chars(&mut v, &chars_of(task_id));
    string_of(&v)
}

/// The report made before each request for the result.
pub fn polling_message(attempt: u32, max_retries: u32) -> (r: String)
    ensures
        r@ == "Polling... (attempt "@ + decimal(attempt as nat) + "/"@ + decimal(max_retries as nat)
            + ")"@,
{
    let mut v = chars_of("Polling... (attempt ");
    append_chars(&mut v, &u64_to_decimal(attempt as u64));
    append_chars(&mut v, &chars_of("/"));
    append_chars(&mut v, &u64_to_decimal(max_retries as u64));
    append_chars(&mut v, &chars_of(")"));
    string_of(&v)
}

// ---------------------------------------------------------------------------
// Files of the result package
// ---------------------------------------------------------------------------

/// The position of the last `.` in `f`.
pub open spec fn last_dot(f: Seq<char>) -> Option<int>
    decreases f.len(),
{
    if f.len() == 0 {
        None
    } else if f.last() == '.' {
        Some(f.len() - 1)
    } else {
        last_dot(f.drop_last())
    }
}

/// The extension of a file name, as `std::path::Path::extension` gives it:
/// what follows the last `.`, when something precedes that `.` (and the name
/// is not `..`).
pub open spec fn extension(f: Seq<char>) -> Option<Seq<char>> {
    if f == ".."@ {
        None
    } else {
        match last_dot(f) {
            None => None,
            Some(i) => if i == 0 {
                None
            } else {
                Some(f.skip(i + 1))
            },
        }
    }
}

proof fn lemma_last_dot_range(f: Seq<char>)
    ensures
        last_dot(f) matches Some(i) ==> 0 <= i < f.len() && f[i] == '.',
    decreases f.len(),
{
    if f.len() > 0 && f.last() != '.' {
        lemma_last_dot_range(f.drop_last());
    }
}

/// Executable `extension`, for a file name.
pub fn file_extension(name: &str) -> (r: Option<String>)
    ensures
        match r {
            Some(e) => extension(name@) == Some(e@),
            None => extension(name@) is None,
        },
{
    let v = chars_of(name);
    let mut last: Option<usize> = None;
    let mut i: usize = 0;
    while i < v.len()
        invariant
            v@ == name@,
            i <= v.len(),
            match last {
                Some(k) => last_dot(v@.take(i as int)) == Some(k as int),
                None => last_dot(v@.take(i as int)) is None,
            },
        decreases v.len() - i,
    {
        assert(v@.take(i + 1).drop_last() =~= v@.take(i as int));
        if v[i] == '.' {
            last = Some(i);
        }
        i = i + 1;
    }
    assert(v@.take(v.len() as int) =~= v@);
    proof {
        lemma_last_dot_range(v@);
        reveal_strlit("..");
    }
    if crate::text::chars_eq(&v, &chars_of("..")) {
        return None;
    }
    match last {
        None => None,
        Some(k) => if k == 0 {
            None
        } else {
            Some(string_of(&crate::text::slice_chars(&v, k + 1, v.len())))
        },
    }
}

/// What a file of the result package is to the parse.
#[derive(Debug, PartialEq, Eq, Structural)]
pub enum PackageFile {
    Markdown,
    Image,
    Other,
}

/// The kind of a file by its extension (case-sensitive): `md` is Markdown;
/// `png`, `jpg` and `jpeg` are images.
pub open spec fn package_file_kind(name: Seq<char>) -> PackageFile {
    match extension(name) {
        Some(e) => if e == "md"@ {
            PackageFile::Markdown
        } else if e == "png"@ || e == "jpg"@ || e == "jpeg"@ {
            PackageFile::Image
        } else {
            PackageFile::Other
        },
        None => PackageFile::Other,
    }
}

/// Executable `package_file_kind`.
pub fn classify_package_file(name: &str) -> (r: PackageFile)
    ensures
        r == package_file_kind(name@),
{
    match file_extension(name) {
        Some(e) => {
            let ev = chars_of(e.as_str());
            if crate::text::chars_eq(&ev, &chars_of("md")) {
                PackageFile::Markdown
            } else if crate::text::chars_eq(&ev, &chars_of("png")) || crate::text::chars_eq(
                &ev,
                &chars_of("jpg"),
            ) || crate::text::chars_eq(&ev, &chars_of("jpeg")) {
                PackageFile::Image
            } else {
                PackageFile::Other
            }
        },
        None => PackageFile::Other,
    }
}

} // verus!
