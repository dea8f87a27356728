//! What providers report while they work, and the Zhipu configuration.
use crate::text::{append_chars, chars_of, debug_ranges, ranges_debug, string_of};
use vstd::prelude::*;

verus! {

/// A progress report: a message, and how far along the work is.
#[derive(Debug)]
pub struct ProgressUpdate {
    pub message: String,
    pub current: u64,
    pub total: Option<u64>,
}

impl ProgressUpdate {
    /// A report that carries only a message.
    pub fn new(message: String) -> (r: ProgressUpdate)
        ensures
            r.message@ == message@,
            r.current == 0,
            r.total is None,
    {
        ProgressUpdate { message, current: 0, total: None }
    }
}

/// The report made before the chosen pages are cut out of the document:
/// the ranges as `Debug` prints them.
pub fn splitting_pages_message(ranges: &Vec<(u32, u32)>) -> (r: String)
    ensures
        r@ == "Splitting PDF to pages "@ + ranges_debug(ranges@),
{
    let mut v = chars_of("Splitting PDF to pages ");
    append_chars(&mut v, &debug_ranges(ranges));
    string_of(&v)
}

/// The options of a Zhipu parse.
#[derive(Debug)]
pub struct ZhipuConfig {
    /// The model: `lite`, `expert` or `prime`.
    pub tool_type: String,
    /// How many times the result is asked for before giving up.
    pub max_retries: u32,
    /// Seconds between two requests for the result.
    pub poll_interval_secs: u64,
    /// The pages to parse (1-based, inclusive), if not all.
    pub page_ranges: Option<Vec<(u32, u32)>>,
}

impl Default for ZhipuConfig {
    /// The default options: the prime model, 60 attempts three seconds apart,
    /// all pages.
    fn default() -> (r: ZhipuConfig)
        ensures
            r.tool_type@ == "prime"@,
            r.max_retries == 60,
            r.poll_interval_secs == 3,
            r.page_ranges is None,
    {
        ZhipuConfig {
            tool_type: string_of(&chars_of("prime")),
            max_retries: 60,
            poll_interval_secs: 3,
            page_ranges: None,
        }
    }
}

} // verus!
