//! What a conversion does to the Markdown it gets: the document's metadata in
//! front, and image references pointed at the `images` directory beside it.
use crate::text::{append_chars, chars_of, lines_of, replace_all, replace_chars, str_lines, string_of};
use vstd::prelude::*;

verus! {

/// Strings as values.
pub open spec fn names_view(v: Seq<String>) -> Seq<Seq<char>> {
    v.map_values(|s: String| s@)
}

/// `md` with every reference to each image, in turn, replaced by its path
/// under `images/`.
pub open spec fn linked(md: Seq<char>, names: Seq<Seq<char>>) -> Seq<char>
    decreases names.len(),
{
    if names.len() == 0 {
        md
    } else {
        let n = names.last();
        replace_all(linked(md, names.drop_last()), n, "images/"@ + n)
    }
}

/// Points the Markdown's image references at the `images` directory: each
/// image name, in the given order, is replaced by `images/` and the name.
pub fn link_images(markdown: &str, image_names: &Vec<String>) -> (r: String)
    ensures
        r@ == linked(markdown@, names_view(image_names@)),
{
    let ghost nv = names_view(image_names@);
    let mut md = chars_of(markdown);
    let mut i: usize = 0;
    while i < image_names.len()
        invariant
            nv == names_view(image_names@),
            i <= image_names.len(),
            md@ == linked(markdown@, nv.take(i as int)),
        decreases image_names.len() - i,
    {
        let name = chars_of(image_names[i].as_str());
        let mut target = chars_of("images/");
        append_chars(&mut target, &name);
        md = replace_chars(&md, &name, &target);
        assert(nv.take(i + 1).drop_last() =~= nv.take(i as int));
        i = i + 1;
    }
    assert(nv.take(image_names.len() as int) =~= nv);
    string_of(&md)
}

/// The Markdown with the document's front matter in front of it.
pub fn with_frontmatter(frontmatter: &str, markdown: &str) -> (r: String)
    ensures
        r@ == frontmatter@ + markdown@,
{
    let mut v = chars_of(frontmatter);
    append_chars(&mut v, &chars_of(markdown));
    string_of(&v)
}

/// The statistics reported of a conversion: the number of lines of the
/// Markdown (as `str::lines` counts them) and its number of characters.
pub fn markdown_stats(markdown: &str) -> (r: (usize, usize))
    ensures
        r.0 == str_lines(markdown@).len(),
        r.1 == markdown@.len(),
{
    let lines = lines_of(markdown);
    assert(lines@.map_values(|v: Vec<char>| v@).len() == lines@.len());
    (lines.len(), chars_of(markdown).len())
}

} // verus!
