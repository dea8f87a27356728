//! The result archive of a MinerU parse: which entries hold Markdown and
//! images, which Markdown file comes first, and the renaming of image
//! references to flat file names.
use crate::provider::mineru::MinerUError;
use crate::text::{
    chars_of, contains_chars, contains_seq, ends_with_chars, has_prefix, has_suffix,
    lowercase, lowercase_chars, replace_all, replace_chars, starts_with_chars, string_of,
};
use std::io::Read;
use vstd::prelude::*;

verus! {

// ---------------------------------------------------------------------------
// What the `zip` crate reads from the archive's bytes
// ---------------------------------------------------------------------------

/// What `ZipArchive::new` and `ZipArchive::len` give for these bytes: the
/// number of entries, or the message of the error that opening gave.
pub uninterp spec fn zip_entry_count(archive: Seq<u8>) -> Result<nat, Seq<char>>;

/// What `ZipArchive::by_index` gives for entry `index` of these bytes: its
/// name and whether it is a directory, or the message of the error.
pub uninterp spec fn zip_entry_info(archive: Seq<u8>, index: nat) -> Result<(Seq<char>, bool), Seq<char>>;

/// What `ZipArchive::by_name` and `read_to_string` give for the entry of this
/// name: its text, or the message of the error.
pub uninterp spec fn zip_entry_text(archive: Seq<u8>, name: Seq<char>) -> Result<Seq<char>, Seq<char>>;

/// What `ZipArchive::by_name` and `read_to_end` give for the entry of this
/// name: its bytes, or the message of the error.
pub uninterp spec fn zip_entry_data(archive: Seq<u8>, name: Seq<char>) -> Result<Seq<u8>, Seq<char>>;

/// Opens the archive with `zip::ZipArchive::new` and returns `len()`, or the
/// error's message. The contract claims that the result is a function of the
/// bytes alone, named by `zip_entry_count`.
#[verifier::external_body]
fn archive_len(archive: &[u8]) -> (r: Result<usize, String>)
    ensures
        match r {
            Ok(n) => zip_entry_count(archive@) == Ok::<nat, Seq<char>>(n as nat),
            Err(e) => zip_entry_count(archive@) == Err::<nat, Seq<char>>(e@),
        },
{
    match zip::ZipArchive::new(std::io::Cursor::new(archive)) {
        Ok(a) => Ok(a.len()),
        Err(e) => Err(e.to_string()),
    }
}

/// `zip::ZipArchive::by_index` on a freshly opened archive: the entry's name
/// and `is_dir()`, or the error's message; named by `zip_entry_info`.
#[verifier::external_body]
fn archive_entry(archive: &[u8], index: usize) -> (r: Result<(String, bool), String>)
    ensures
        match r {
            Ok(e) => zip_entry_info(archive@, index as nat) == Ok::<(Seq<char>, bool), Seq<char>>(
                (e.0@, e.1),
            ),
            Err(m) => zip_entry_info(archive@, index as nat) == Err::<(Seq<char>, bool), Seq<char>>(
                m@,
            ),
        },
{
    let mut a = match zip::ZipArchive::new(std::io::Cursor::new(archive)) {
        Ok(a) => a,
        Err(e) => return Err(e.to_string()),
    };
    let r = match a.by_index(index) {
        Ok(f) => Ok((f.name().to_string(), f.is_dir())),
        Err(e) => Err(e.to_string()),
    };
    r
}

/// `zip::ZipArchive::by_name` and `std::io::Read::read_to_string` on the named
/// entry: its text, or the error's message; named by `zip_entry_text`.
#[verifier::external_body]
fn archive_text(archive: &[u8], name: &str) -> (r: Result<String, String>)
    ensures
        match r {
            Ok(t) => zip_entry_text(archive@, name@) == Ok::<Seq<char>, Seq<char>>(t@),
            Err(m) => zip_entry_text(archive@, name@) == Err::<Seq<char>, Seq<char>>(m@),
        },
{
    let mut a = match zip::ZipArchive::new(std::io::Cursor::new(archive)) {
        Ok(a) => a,
        Err(e) => return Err(e.to_string()),
    };
    let mut f = match a.by_name(name) {
        Ok(f) => f,
        Err(e) => return Err(e.to_string()),
    };
    let mut buf = String::new();
    match f.read_to_string(&mut buf) {
        Ok(_) => Ok(buf),
        Err(e) => Err(e.to_string()),
    }
}

/// `zip::ZipArchive::by_name` and `std::io::Read::read_to_end` on the named
/// entry: its bytes, or the error's message; named by `zip_entry_data`.
#[verifier::external_body]
fn archive_data(archive: &[u8], name: &str) -> (r: Result<Vec<u8>, String>)
    ensures
        match r {
            Ok(d) => zip_entry_data(archive@, name@) == Ok::<Seq<u8>, Seq<char>>(d@),
            Err(m) => zip_entry_data(archive@, name@) == Err::<Seq<u8>, Seq<char>>(m@),
        },
{
    let mut a = match zip::ZipArchive::new(std::io::Cursor::new(archive)) {
        Ok(a) => a,
        Err(e) => return Err(e.to_string()),
    };
    let mut f = match a.by_name(name) {
        Ok(f) => f,
        Err(e) => return Err(e.to_string()),
    };
    let mut buf = Vec::new();
    match f.read_to_end(&mut buf) {
        Ok(_) => Ok(buf),
        Err(e) => Err(e.to_string()),
    }
}


// ---------------------------------------------------------------------------
// Which entries count
// ---------------------------------------------------------------------------

/// The number of `/` in `s`.
pub open spec fn slash_count(s: Seq<char>) -> nat
    decreases s.len(),
{
    if s.len() == 0 {
        0
    } else {
        slash_count(s.drop_last()) + if s.last() == '/' {
            1nat
        } else {
            0nat
        }
    }
}

/// An entry that is read: not a directory, not under `__MACOSX` (in any case),
/// not hidden.
pub open spec fn entry_kept(name: Seq<char>, is_dir: bool) -> bool {
    &&& !is_dir
    &&& !contains_seq(lowercase(name), "__macosx"@)
    &&& !(name.len() > 0 && name[0] == '.')
}

/// A Markdown file: its name ends in `.md`, in any case.
pub open spec fn is_markdown_name(name: Seq<char>) -> bool {
    has_suffix(lowercase(name), ".md"@)
}

/// An image: its name ends in one of the image extensions, in any case.
pub open spec fn is_image_name(name: Seq<char>) -> bool {
    let l = lowercase(name);
    ||| has_suffix(l, ".png"@)
    ||| has_suffix(l, ".jpg"@)
    ||| has_suffix(l, ".jpeg"@)
    ||| has_suffix(l, ".gif"@)
    ||| has_suffix(l, ".bmp"@)
    ||| has_suffix(l, ".webp"@)
}

/// The Markdown files among the entries, in archive order, each with its
/// number of `/`.
pub open spec fn md_scan(l: Seq<(Seq<char>, bool)>) -> Seq<(Seq<char>, nat)>
    decreases l.len(),
{
    if l.len() == 0 {
        Seq::empty()
    } else {
        let e = l.last();
        if entry_kept(e.0, e.1) && is_markdown_name(e.0) {
            md_scan(l.drop_last()).push((e.0, slash_count(e.0)))
        } else {
            md_scan(l.drop_last())
        }
    }
}

/// An entry under a directory named `images`: its name starts with
/// `images/` or holds `/images/`.
pub open spec fn under_images(name: Seq<char>) -> bool {
    has_prefix(name, "images/"@) || contains_seq(name, "/images/"@)
}

/// The images under an `images/` directory among the entries, in archive
/// order.
pub open spec fn image_scan(l: Seq<(Seq<char>, bool)>) -> Seq<Seq<char>>
    decreases l.len(),
{
    if l.len() == 0 {
        Seq::empty()
    } else {
        let e = l.last();
        if entry_kept(e.0, e.1) && is_image_name(e.0) && under_images(e.0) {
            image_scan(l.drop_last()).push(e.0)
        } else {
            image_scan(l.drop_last())
        }
    }
}

/// Entries as values.
pub open spec fn entries_view(v: Seq<(String, bool)>) -> Seq<(Seq<char>, bool)> {
    v.map_values(|e: (String, bool)| (e.0@, e.1))
}

/// Strings as values.
pub open spec fn names_view(v: Seq<String>) -> Seq<Seq<char>> {
    v.map_values(|s: String| s@)
}

fn count_slashes(s: &Vec<char>) -> (r: usize)
    ensures
        r == slash_count(s@),
{
    let mut n: usize = 0;
    let mut i: usize = 0;
    while i < s.len()
        invariant
            i <= s.len(),
            n <= i,
            n == slash_count(s@.take(i as int)),
        decreases s.len() - i,
    {
        assert(s@.take(i + 1).drop_last() =~= s@.take(i as int));
        if s[i] == '/' {
            n = n + 1;
        }
        i = i + 1;
    }
    assert(s@.take(s.len() as int) =~= s@);
    n
}

fn has_lower_suffix(lower: &Vec<char>, suffix: &str) -> (r: bool)
    ensures
        r == has_suffix(lower@, suffix@),
{
    ends_with_chars(lower, &chars_of(suffix))
}

/// Sorts the entries of the archive into Markdown files (with their number of
/// `/`) and images under an `images/` directory, in archive order, skipping
/// directories, `__MACOSX` and hidden entries.
pub fn scan_entries(entries: &Vec<(String, bool)>) -> (r: (Vec<(String, usize)>, Vec<String>))
    ensures
        md_view(r.0@) == md_scan(entries_view(entries@)),
        names_view(r.1@) == image_scan(entries_view(entries@)),
{
    let ghost ev = entries_view(entries@);
    let mut md: Vec<(String, usize)> = Vec::new();
    let mut images: Vec<String> = Vec::new();
    let mut i: usize = 0;
    while i < entries.len()
        invariant
            i <= entries.len(),
            ev == entries_view(entries@),
            md_view(md@) == md_scan(ev.take(i as int)),
            names_view(images@) == image_scan(ev.take(i as int)),
        decreases entries.len() - i,
    {
        let ghost pre = ev.take(i as int);
        assert(ev.take(i + 1).drop_last() =~= pre);
        assert(ev.take(i + 1).last() == ev[i as int]);
        let name = &entries[i].0;
        let is_dir = entries[i].1;
        let chars = chars_of(name.as_str());
        let lower = lowercase_chars(&chars);
        let kept = !is_dir && !contains_chars(&lower, &chars_of("__macosx")) && !(chars.len() > 0
            && chars[0] == '.');
        if kept && has_lower_suffix(&lower, ".md") {
            let depth = count_slashes(&chars);
            md.push((string_of(&chars), depth));
            assert(md_view(md@) =~= md_scan(pre).push((name@, slash_count(name@))));
        }
        let image = has_lower_suffix(&lower, ".png") || has_lower_suffix(&lower, ".jpg")
            || has_lower_suffix(&lower, ".jpeg") || has_lower_suffix(&lower, ".gif")
            || has_lower_suffix(&lower, ".bmp") || has_lower_suffix(&lower, ".webp");
        let under = starts_with_chars(&chars, &chars_of("images/")) || contains_chars(
            &chars,
            &chars_of("/images/"),
        );
        if kept && image && under {
            images.push(string_of(&chars));
            assert(names_view(images@) =~= image_scan(pre).push(name@));
        }
        i = i + 1;
    }
    assert(ev.take(entries.len() as int) =~= ev);
    (md, images)
}

// ---------------------------------------------------------------------------
// Flat image names
// ---------------------------------------------------------------------------

/// What follows the last `/` of `s` (all of `s` when it has none). For the
/// names of images, which end in an extension, this is what
/// `std::path::Path::file_name` gives on Unix.
pub open spec fn base_name(s: Seq<char>) -> Seq<char>
    decreases s.len(),
{
    if s.len() == 0 {
        s
    } else if s.last() == '/' {
        Seq::empty()
    } else {
        base_name(s.drop_last()).push(s.last())
    }
}

/// Executable `base_name`.
pub fn file_base_name(s: &str) -> (r: String)
    ensures
        r@ == base_name(s@),
{
    let v = chars_of(s);
    let mut cur: Vec<char> = Vec::new();
    let mut i: usize = 0;
    while i < v.len()
        invariant
            i <= v.len(),
            v@ == s@,
            cur@ == base_name(v@.take(i as int)),
        decreases v.len() - i,
    {
        assert(v@.take(i + 1).drop_last() =~= v@.take(i as int));
        if v[i] == '/' {
            cur = Vec::new();
            assert(cur@ =~= Seq::<char>::empty());
        } else {
            cur.push(v[i]);
        }
        i = i + 1;
    }
    assert(v@.take(v.len() as int) =~= v@);
    string_of(&cur)
}

/// `md` with every reference to an image of `images`, in turn, replaced by
/// its flat name.
pub open spec fn renamed(md: Seq<char>, images: Seq<Seq<char>>) -> Seq<char>
    decreases images.len(),
{
    if images.len() == 0 {
        md
    } else {
        let n = images.last();
        replace_all(renamed(md, images.drop_last()), n, base_name(n))
    }
}


/// Flattening is done image by image, in order: with no image the Markdown
/// is unchanged, and one image more replaces every occurrence of its name,
/// in the Markdown the others gave, by its base name.
pub proof fn law_renamed_in_turn(md: Seq<char>, images: Seq<Seq<char>>, image: Seq<char>)
    ensures
        renamed(md, Seq::empty()) == md,
        renamed(md, images.push(image)) == replace_all(renamed(md, images), image, base_name(image)),
{
    assert(images.push(image).drop_last() =~= images);
}

/// The conditions under which no image name is left after flattening: no
/// name is empty or holds `(`, no name can begin inside a base name, and in
/// the Markdown every name comes right after `(` (as in `![](name)`).
pub open spec fn references_flattenable(md: Seq<char>, images: Seq<Seq<char>>) -> bool {
    &&& forall|i: int| 0 <= i < images.len() ==> (#[trigger] images[i]).len() > 0
    &&& forall|i: int| 0 <= i < images.len() ==> crate::text::lacks(#[trigger] images[i], '(')
    &&& forall|i: int, j: int|
        0 <= i < images.len() && 0 <= j < images.len() ==> crate::text::no_start_inside(
            #[trigger] images[i],
            base_name(#[trigger] images[j]),
        )
    &&& forall|i: int|
        0 <= i < images.len() ==> crate::text::preceded_by(md, #[trigger] images[i], '(', false)
}

proof fn lemma_flattenable_prefix(md: Seq<char>, images: Seq<Seq<char>>)
    requires
        images.len() > 0,
        references_flattenable(md, images),
    ensures
        references_flattenable(md, images.drop_last()),
{
    let prev = images.drop_last();
    assert forall|i: int| 0 <= i < prev.len() implies #[trigger] prev[i] == images[i] by {}
}

/// After flattening some images, every occurrence in the Markdown of a
/// further name that comes right after `(` in the original still does.
proof fn lemma_renamed_keeps_preceded_by(md: Seq<char>, images: Seq<Seq<char>>, q: Seq<char>)
    requires
        references_flattenable(md, images.push(q)),
    ensures
        crate::text::preceded_by(renamed(md, images), q, '(', false),
    decreases images.len(),
{
    let all = images.push(q);
    assert(all[images.len() as int] == q);
    assert forall|i: int| 0 <= i < images.len() implies #[trigger] images[i] == all[i] by {}
    if images.len() > 0 {
        let prev = images.drop_last();
        let p = images.last();
        assert(p == all[images.len() - 1]);
        let with_q = prev.push(q);
        let with_p = prev.push(p);
        assert forall|i: int| 0 <= i < with_q.len() implies #[trigger] with_q[i] == all[if i
            == prev.len() {
            images.len() as int
        } else {
            i
        }] by {}
        assert forall|i: int| 0 <= i < with_p.len() implies #[trigger] with_p[i] == all[i] by {}
        assert(references_flattenable(md, with_q));
        assert(references_flattenable(md, with_p));
        lemma_renamed_keeps_preceded_by(md, prev, q);
        lemma_renamed_keeps_preceded_by(md, prev, p);
        assert(images.drop_last() == prev);
        crate::text::lemma_replace_keeps_preceded_by(
            renamed(md, prev),
            p,
            base_name(p),
            q,
            '(',
            false,
        );
    }
}

/// Every image has its references flattened, not only the last: when no
/// name is empty or holds `(`, no name can begin inside a base name, and in
/// the Markdown every name comes right after `(`, no image name is left.
pub proof fn law_renamed_leaves_no_image_name(md: Seq<char>, images: Seq<Seq<char>>)
    requires
        references_flattenable(md, images),
    ensures
        forall|i: int| 0 <= i < images.len() ==> !contains_seq(renamed(md, images), #[trigger] images[i]),
    decreases images.len(),
{
    if images.len() > 0 {
        let prev = images.drop_last();
        let p = images.last();
        lemma_flattenable_prefix(md, images);
        law_renamed_leaves_no_image_name(md, prev);
        assert(prev.push(p) =~= images);
        lemma_renamed_keeps_preceded_by(md, prev, p);
        assert(p == images[images.len() - 1]);
        assert forall|i: int| 0 <= i < images.len() implies !contains_seq(
            renamed(md, images),
            #[trigger] images[i],
        ) by {
            if i < prev.len() {
                assert(prev[i] == images[i]);
            }
            crate::text::lemma_guarded_replace_leaves_no_occurrence(
                renamed(md, prev),
                p,
                base_name(p),
                images[i],
                '(',
                false,
            );
        }
    }
}

// ---------------------------------------------------------------------------
// Reading the archive
// ---------------------------------------------------------------------------

/// The entries of the archive, when it opens and each of its entries can be
/// read.
pub open spec fn archive_listing(a: Seq<u8>) -> Option<Seq<(Seq<char>, bool)>> {
    match zip_entry_count(a) {
        Ok(n) => if forall|i: nat| i < n ==> (#[trigger] zip_entry_info(a, i)) is Ok {
            Some(Seq::new(n, |i: int| zip_entry_info(a, i as nat)->Ok_0))
        } else {
            None
        },
        Err(_) => None,
    }
}

/// Every image can be read.
pub open spec fn images_readable(a: Seq<u8>, images: Seq<Seq<char>>) -> bool {
    forall|k: int| 0 <= k < images.len() ==> (#[trigger] zip_entry_data(a, images[k])) is Ok
}

/// `x` is the first of the Markdown candidates: one of them, and before or
/// equal to each in `md_le` order.
pub open spec fn is_first_markdown(x: (Seq<char>, nat), md: Seq<(Seq<char>, nat)>) -> bool {
    &&& md.contains(x)
    &&& forall|k: int| 0 <= k < md.len() ==> md_le(x, #[trigger] md[k])
}

/// The first Markdown candidate: fewest `/`, then the least name.
pub open spec fn first_markdown(md: Seq<(Seq<char>, nat)>) -> (Seq<char>, nat) {
    choose|x: (Seq<char>, nat)| is_first_markdown(x, md)
}

/// The archive gives a result: it lists its entries, holds a Markdown file,
/// its first Markdown file can be read as text, and every image in it can be
/// read.
pub open spec fn archive_readable(a: Seq<u8>) -> bool {
    match archive_listing(a) {
        Some(l) => {
            &&& md_scan(l).len() > 0
            &&& zip_entry_text(a, first_markdown(md_scan(l)).0) is Ok
            &&& images_readable(a, image_scan(l))
        },
        None => false,
    }
}

/// What the result archive of a parse yields.
#[derive(Debug)]
pub struct ArchiveContent {
    /// The first Markdown file, with image references made flat.
    pub markdown: String,
    /// The name of that Markdown file.
    pub markdown_file: String,
    /// Each image: its flat name and its bytes.
    pub images: Vec<(String, Vec<u8>)>,
}

fn dup(s: &str) -> (r: String)
    ensures
        r@ == s@,
{
    string_of(&chars_of(s))
}

/// There is at most one first Markdown candidate.
proof fn lemma_first_unique(x: (Seq<char>, nat), y: (Seq<char>, nat), md: Seq<(Seq<char>, nat)>)
    requires
        is_first_markdown(x, md),
        is_first_markdown(y, md),
    ensures
        x == y,
{
    let i = choose|i: int| 0 <= i < md.len() && md[i] == y;
    let j = choose|j: int| 0 <= j < md.len() && md[j] == x;
    assert(md_le(x, md[i]));
    assert(md_le(y, md[j]));
    lemma_md_antisym(x, y);
}

/// The index of the first Markdown candidate of a non-empty list.
fn first_candidate(md: &Vec<(String, usize)>) -> (b: usize)
    requires
        md@.len() > 0,
    ensures
        b < md@.len(),
        is_first_markdown(md_view(md@)[b as int], md_view(md@)),
{
    let ghost mv = md_view(md@);
    let mut b: usize = 0;
    let mut i: usize = 1;
    proof {
        lemma_md_refl(mv[0]);
    }
    while i < md.len()
        invariant
            mv == md_view(md@),
            b < i <= md.len(),
            forall|k: int| 0 <= k < i ==> md_le(mv[b as int], #[trigger] mv[k]),
        decreases md.len() - i,
    {
        if !md_le_exec(&md[b], &md[i]) {
            proof {
                lemma_md_total(mv[b as int], mv[i as int]);
                lemma_md_refl(mv[i as int]);
                assert forall|k: int| 0 <= k <= i implies md_le(mv[i as int], #[trigger] mv[k]) by {
                    if k < i {
                        lemma_md_trans(mv[i as int], mv[b as int], mv[k]);
                    }
                }
            }
            b = i;
        }
        i = i + 1;
    }
    assert(mv.contains(mv[b as int]));
    b
}

/// Reads the result archive of a parse: lists its entries, reads its first
/// Markdown file (fewest `/`, then the least name), reads the images under an
/// `images/` directory, and points the Markdown's references to them at their
/// flat names. Fails, as the parse does, on the first thing that cannot be
/// read, and when the archive holds no Markdown file.
pub fn read_result_archive(archive: &[u8]) -> (r: Result<ArchiveContent, MinerUError>)
    ensures
        r is Ok <==> archive_readable(archive@),
        match r {
            Ok(c) => {
                let l = archive_listing(archive@)->Some_0;
                let first = first_markdown(md_scan(l));
                &&& archive_listing(archive@) is Some
                &&& md_scan(l).len() > 0
                &&& is_first_markdown(first, md_scan(l))
                &&& c.markdown_file@ == first.0
                &&& zip_entry_text(archive@, first.0) is Ok
                &&& c.markdown@ == renamed(zip_entry_text(archive@, first.0)->Ok_0, image_scan(l))
                &&& c.images@.len() == image_scan(l).len()
                &&& forall|k: int|
                    0 <= k < c.images@.len() ==> {
                        &&& (#[trigger] c.images@[k]).0@ == base_name(image_scan(l)[k])
                        &&& zip_entry_data(archive@, image_scan(l)[k]) == Ok::<Seq<u8>, Seq<char>>(
                            c.images@[k].1@,
                        )
                    }
            },
            Err(MinerUError::ZipOpen(m)) => zip_entry_count(archive@) == Err::<nat, Seq<char>>(m@),
            Err(MinerUError::ZipEntry(m)) => {
                &&& zip_entry_count(archive@) is Ok
                &&& exists|i: nat|
                    {
                        &&& i < zip_entry_count(archive@)->Ok_0
                        &&& zip_entry_info(archive@, i) == Err::<(Seq<char>, bool), Seq<char>>(m@)
                        &&& forall|j: nat| j < i ==> (#[trigger] zip_entry_info(archive@, j)) is Ok
                    }
            },
            Err(MinerUError::ZipRead(n, m)) => {
                let l = archive_listing(archive@)->Some_0;
                &&& archive_listing(archive@) is Some
                &&& md_scan(l).len() > 0
                &&& n@ == first_markdown(md_scan(l)).0
                &&& zip_entry_text(archive@, n@) == Err::<Seq<char>, Seq<char>>(m@)
            },
            Err(MinerUError::NoMarkdownInZip) => {
                &&& archive_listing(archive@) is Some
                &&& md_scan(archive_listing(archive@)->Some_0).len() == 0
            },
            Err(MinerUError::ImageRead(n, m)) => {
                let l = archive_listing(archive@)->Some_0;
                &&& archive_listing(archive@) is Some
                &&& md_scan(l).len() > 0
                &&& zip_entry_text(archive@, first_markdown(md_scan(l)).0) is Ok
                &&& image_scan(l).contains(n@)
                &&& zip_entry_data(archive@, n@) == Err::<Seq<u8>, Seq<char>>(m@)
            },
            Err(_) => false,
        },
{
    let ghost a = archive@;
    let n = match archive_len(archive) {
        Ok(n) => n,
        Err(m) => return Err(MinerUError::ZipOpen(m)),
    };
    let mut entries: Vec<(String, bool)> = Vec::new();
    let mut i: usize = 0;
    while i < n
        invariant
            a == archive@,
            i <= n,
            zip_entry_count(a) == Ok::<nat, Seq<char>>(n as nat),
            entries@.len() == i,
            forall|j: nat|
                j < i ==> (#[trigger] zip_entry_info(a, j)) == Ok::<(Seq<char>, bool), Seq<char>>(
                    entries_view(entries@)[j as int],
                ),
        decreases n - i,
    {
        match archive_entry(archive, i) {
            Ok(e) => {
                entries.push(e);
            },
            Err(m) => {
                assert(zip_entry_info(a, i as nat) == Err::<(Seq<char>, bool), Seq<char>>(m@));
                return Err(MinerUError::ZipEntry(m));
            },
        }
        i = i + 1;
    }
    let ghost l = entries_view(entries@);
    proof {
        assert forall|j: nat| j < n implies (#[trigger] zip_entry_info(a, j)) is Ok by {}
        assert(Seq::new(n as nat, |j: int| zip_entry_info(a, j as nat)->Ok_0) =~= l);
        assert(archive_listing(a) == Some(l));
    }
    let (md, images) = scan_entries(&entries);
    if md.len() == 0 {
        return Err(MinerUError::NoMarkdownInZip);
    }
    let b = first_candidate(&md);
    let ghost first = md_view(md@)[b as int];
    proof {
        let c = first_markdown(md_scan(l));
        assert(is_first_markdown(c, md_scan(l)));
        lemma_first_unique(c, first, md_scan(l));
    }
    let name = &md[b].0;
    assert(name@ == first.0);
    let text = match archive_text(archive, name.as_str()) {
        Ok(t) => t,
        Err(m) => return Err(MinerUError::ZipRead(dup(name.as_str()), m)),
    };
    let ghost iv = names_view(images@);
    let mut md_text = chars_of(text.as_str());
    let mut out: Vec<(String, Vec<u8>)> = Vec::new();
    let mut j: usize = 0;
    assert(iv.take(0) =~= Seq::<Seq<char>>::empty());
    while j < images.len()
        invariant
            a == archive@,
            iv == names_view(images@),
            iv == image_scan(l),
            archive_listing(a) == Some(l),
            md_scan(l).len() > 0,
            zip_entry_text(a, first_markdown(md_scan(l)).0) == Ok::<Seq<char>, Seq<char>>(text@),
            j <= images.len(),
            out@.len() == j,
            md_text@ == renamed(text@, iv.take(j as int)),
            forall|q: int|
                0 <= q < j ==> {
                    &&& (#[trigger] out@[q]).0@ == base_name(iv[q])
                    &&& zip_entry_data(a, iv[q]) == Ok::<Seq<u8>, Seq<char>>(out@[q].1@)
                },
        decreases images.len() - j,
    {
        let img = &images[j];
        assert(img@ == iv[j as int]);
        let data = match archive_data(archive, img.as_str()) {
            Ok(d) => d,
            Err(m) => {
                assert(iv.contains(iv[j as int]));
                assert(zip_entry_data(a, image_scan(l)[j as int]) is Err);
                return Err(MinerUError::ImageRead(dup(img.as_str()), m));
            },
        };
        let stem = file_base_name(img.as_str());
        md_text = replace_chars(&md_text, &chars_of(img.as_str()), &chars_of(stem.as_str()));
        assert(iv.take(j + 1).drop_last() =~= iv.take(j as int));
        out.push((stem, data));
        j = j + 1;
    }
    proof {
        assert(iv.take(images.len() as int) =~= iv);
        assert forall|q: int| 0 <= q < iv.len() implies (#[trigger] zip_entry_data(a, iv[q])) is Ok by {
            assert(out@[q].0@ == base_name(iv[q]));
        }
    }
    Ok(ArchiveContent { markdown: string_of(&md_text), markdown_file: dup(name.as_str()), images: out })
}

// ---------------------------------------------------------------------------
// The order of the Markdown candidates
// ---------------------------------------------------------------------------

/// `a` comes before or equals `b` in code point order (the order of `str`).
pub open spec fn lex_le(a: Seq<char>, b: Seq<char>) -> bool
    decreases a.len(),
{
    if a.len() == 0 {
        true
    } else if b.len() == 0 {
        false
    } else if a[0] != b[0] {
        a[0] < b[0]
    } else {
        lex_le(a.drop_first(), b.drop_first())
    }
}

proof fn lemma_lex_total(a: Seq<char>, b: Seq<char>)
    ensures
        lex_le(a, b) || lex_le(b, a),
    decreases a.len(),
{
    if a.len() > 0 && b.len() > 0 && a[0] == b[0] {
        lemma_lex_total(a.drop_first(), b.drop_first());
    }
}

proof fn lemma_lex_trans(a: Seq<char>, b: Seq<char>, c: Seq<char>)
    requires
        lex_le(a, b),
        lex_le(b, c),
    ensures
        lex_le(a, c),
    decreases a.len(),
{
    if a.len() > 0 && b.len() > 0 && c.len() > 0 && a[0] == b[0] && b[0] == c[0] {
        lemma_lex_trans(a.drop_first(), b.drop_first(), c.drop_first());
    }
}

/// The order of Markdown candidates: fewer `/` in the name first, then by
/// name.
pub open spec fn md_le(x: (Seq<char>, nat), y: (Seq<char>, nat)) -> bool {
    x.1 < y.1 || (x.1 == y.1 && lex_le(x.0, y.0))
}

proof fn lemma_md_total(x: (Seq<char>, nat), y: (Seq<char>, nat))
    ensures
        md_le(x, y) || md_le(y, x),
{
    lemma_lex_total(x.0, y.0);
}

proof fn lemma_md_trans(x: (Seq<char>, nat), y: (Seq<char>, nat), z: (Seq<char>, nat))
    requires
        md_le(x, y),
        md_le(y, z),
    ensures
        md_le(x, z),
{
    if x.1 == y.1 && y.1 == z.1 {
        lemma_lex_trans(x.0, y.0, z.0);
    }
}

proof fn lemma_lex_refl(a: Seq<char>)
    ensures
        lex_le(a, a),
    decreases a.len(),
{
    if a.len() > 0 {
        lemma_lex_refl(a.drop_first());
    }
}

proof fn lemma_lex_antisym(a: Seq<char>, b: Seq<char>)
    requires
        lex_le(a, b),
        lex_le(b, a),
    ensures
        a == b,
    decreases a.len(),
{
    if a.len() > 0 && b.len() > 0 && a[0] == b[0] {
        lemma_lex_antisym(a.drop_first(), b.drop_first());
        assert(a =~= b) by {
            assert forall|i: int| 0 <= i < a.len() implies a[i] == b[i] by {
                if i > 0 {
                    assert(a[i] == a.drop_first()[i - 1]);
                    assert(b[i] == b.drop_first()[i - 1]);
                }
            }
        }
    } else if a.len() == 0 && b.len() == 0 {
        assert(a =~= b);
    }
}

proof fn lemma_md_refl(x: (Seq<char>, nat))
    ensures
        md_le(x, x),
{
    lemma_lex_refl(x.0);
}

proof fn lemma_md_antisym(x: (Seq<char>, nat), y: (Seq<char>, nat))
    requires
        md_le(x, y),
        md_le(y, x),
    ensures
        x == y,
{
    lemma_lex_antisym(x.0, y.0);
}

fn lex_le_exec(a: &Vec<char>, b: &Vec<char>) -> (r: bool)
    ensures
        r == lex_le(a@, b@),
{
    let mut i: usize = 0;
    assert(a@.skip(0) =~= a@);
    assert(b@.skip(0) =~= b@);
    while i < a.len() && i < b.len() && a[i] == b[i]
        invariant
            i <= a.len(),
            i <= b.len(),
            lex_le(a@, b@) == lex_le(a@.skip(i as int), b@.skip(i as int)),
        decreases a.len() - i,
    {
        assert(a@.skip(i as int).drop_first() =~= a@.skip(i + 1));
        assert(b@.skip(i as int).drop_first() =~= b@.skip(i + 1));
        i = i + 1;
    }
    if i == a.len() {
        true
    } else if i == b.len() {
        false
    } else {
        a[i] < b[i]
    }
}

fn md_le_exec(a: &(String, usize), b: &(String, usize)) -> (r: bool)
    ensures
        r == md_le((a.0@, a.1 as nat), (b.0@, b.1 as nat)),
{
    a.1 < b.1 || (a.1 == b.1 && lex_le_exec(&chars_of(a.0.as_str()), &chars_of(b.0.as_str())))
}

/// Markdown candidates as values: (name, number of `/`).
pub open spec fn md_view(v: Seq<(String, usize)>) -> Seq<(Seq<char>, nat)> {
    v.map_values(|e: (String, usize)| (e.0@, e.1 as nat))
}

} // verus!
