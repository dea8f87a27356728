//! The parts of cropping figures out of PDF pages that are text: whether
//! cropping is on, and the bounding box that an image's name carries.
use crate::cache::switch_on;
use crate::text::{chars_eq, chars_of, lowercase_chars, matches_at, occurs_at, slice_chars, split_chars, split_on, string_of};
use vstd::prelude::*;

verus! {

/// The environment variable that, set to `1` or `true` (any case), turns
/// cropping of figures off.
pub const PDF_CROP_DISABLE_ENV_VAR: &'static str = "PDF_TO_MARKDOWN_NO_PDF_CROP";

/// Whether cropping is off, given the value of `PDF_CROP_DISABLE_ENV_VAR`
/// (`None` when it is not set).
pub fn is_pdf_crop_disabled(value: Option<&str>) -> (r: bool)
    ensures
        r == match value {
            Some(v) => switch_on(v@),
            None => false,
        },
{
    match value {
        None => false,
        Some(v) => {
            let c = chars_of(v);
            chars_eq(&c, &chars_of("1")) || chars_eq(&lowercase_chars(&c), &chars_of("true"))
        },
    }
}

/// The last position before `n` at which `p` occurs in `s`.
pub open spec fn last_occurrence_before(s: Seq<char>, p: Seq<char>, n: nat) -> Option<int>
    decreases n,
{
    if n == 0 {
        None
    } else if occurs_at(s, p, n - 1) {
        Some(n - 1)
    } else {
        last_occurrence_before(s, p, (n - 1) as nat)
    }
}

/// The last position at which `p` occurs in `s` (`str::rfind`).
pub open spec fn rfind(s: Seq<char>, p: Seq<char>) -> Option<int> {
    last_occurrence_before(s, p, s.len() + 1)
}

/// The piece of `t` between its last two dots (or before its only dot); all
/// of `t` when it has none: `t.rsplit('.').nth(1)`, or `t`.
pub open spec fn before_extension(t: Seq<char>) -> Seq<char> {
    let pieces = split_on(t, '.');
    if pieces.len() >= 2 {
        pieces[pieces.len() - 2]
    } else {
        t
    }
}

/// The four fields of the bounding box that an image's name carries after its
/// last `_box_`: the first four pieces between `_`, the last without its
/// extension; `None` when there is no `_box_` or fewer than four pieces.
pub open spec fn bbox_text(path: Seq<char>) -> Option<(Seq<char>, Seq<char>, Seq<char>, Seq<char>)> {
    match rfind(path, "_box_"@) {
        None => None,
        Some(i) => {
            let parts = split_on(path.skip(i + 5), '_');
            if parts.len() < 4 {
                None
            } else {
                Some((parts[0], parts[1], parts[2], before_extension(parts[3])))
            }
        },
    }
}

proof fn lemma_last_occurrence(s: Seq<char>, p: Seq<char>, n: nat)
    ensures
        last_occurrence_before(s, p, n) matches Some(i) ==> 0 <= i < n && occurs_at(s, p, i),
    decreases n,
{
    if n > 0 {
        lemma_last_occurrence(s, p, (n - 1) as nat);
    }
}


/// The text of the bounding box in an image's name, as `bbox_text` says;
/// the numbers are read from it where floating point is at hand.
pub fn bbox_fields(path: &str) -> (r: Option<(String, String, String, String)>)
    ensures
        match r {
            Some(f) => bbox_text(path@) == Some((f.0@, f.1@, f.2@, f.3@)),
            None => bbox_text(path@) is None,
        },
{
    let v = chars_of(path);
    let marker = chars_of("_box_");
    proof {
        reveal_strlit("_box_");
    }
    let ghost s = v@;
    let mut n: usize = v.len();
    assert(!occurs_at(s, "_box_"@, s.len() as int));
    let mut found: Option<usize> = None;
    while n > 0
        invariant
            s == v@,
            s == path@,
            marker@ == "_box_"@,
            n <= v.len(),
            rfind(s, "_box_"@) == match found {
                Some(i) => Some(i as int),
                None => last_occurrence_before(s, "_box_"@, n as nat),
            },
            found is Some ==> n == 0,
        decreases n,
    {
        if matches_at(&v, &marker, n - 1) {
            found = Some(n - 1);
            n = 0;
        } else {
            n = n - 1;
        }
    }
    match found {
        None => None,
        Some(i) => {
            proof {
                lemma_last_occurrence(s, "_box_"@, s.len() + 1);
            }
            let after = slice_chars(&v, i + 5, v.len());
            assert(after@ =~= s.skip(i + 5));
            let parts = split_chars(&after, '_');
            let ghost pv = parts@.map_values(|p: Vec<char>| p@);
            if parts.len() < 4 {
                return None;
            }
            let last = &parts[3];
            let pieces = split_chars(last, '.');
            let y2 = if pieces.len() >= 2 {
                string_of(&pieces[pieces.len() - 2])
            } else {
                string_of(last)
            };
            assert(pv[3] == last@);
            Some((string_of(&parts[0]), string_of(&parts[1]), string_of(&parts[2]), y2))
        },
    }
}

} // verus!
