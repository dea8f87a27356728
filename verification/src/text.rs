//! Character-level text handling shared by the whole library.
//!
//! Strings are handled as sequences of `char`; the spec functions here say
//! what each operation computes, and the executable functions are proved
//! against them.
use vstd::prelude::*;
use vstd::std_specs::iter::IteratorSpec;

verus! {

broadcast use vstd::string::group_string_axioms;

// ---------------------------------------------------------------------------
// Conversions between `str`/`String` and character vectors
// ---------------------------------------------------------------------------

/// The characters of a string slice, in order.
pub fn chars_of(s: &str) -> (r: Vec<char>)
    ensures
        r@ == s@,
{
    let mut it = s.chars();
    let mut r: Vec<char> = Vec::new();
    loop
        invariant
            r@ + it.remaining() == s@,
        decreases s@.len() - r@.len(),
    {
        match it.next() {
            Some(c) => {
                r.push(c);
            },
            None => {
                return r;
            },
        }
    }
}

/// Builds a `String` holding exactly the given characters
/// (`FromIterator<char>` for `String`).
#[verifier::external_body]
pub(crate) fn string_of(v: &Vec<char>) -> (r: String)
    ensures
        r@ == v@,
{
    v.iter().collect::<String>()
}

/// A copy of `v[from..to]`.
pub fn slice_chars(v: &Vec<char>, from: usize, to: usize) -> (r: Vec<char>)
    requires
        from <= to <= v.len(),
    ensures
        r@ == v@.subrange(from as int, to as int),
{
    let mut r: Vec<char> = Vec::new();
    let mut i = from;
    while i < to
        invariant
            from <= i <= to <= v.len(),
            r@ == v@.subrange(from as int, i as int),
        decreases to - i,
    {
        r.push(v[i]);
        i = i + 1;
    }
    r
}

/// Appends all of `b` to `a`.
pub fn append_chars(a: &mut Vec<char>, b: &Vec<char>)
    ensures
        final(a)@ == old(a)@ + b@,
{
    let mut i: usize = 0;
    while i < b.len()
        invariant
            i <= b.len(),
            a@ == old(a)@ + b@.subrange(0, i as int),
        decreases b.len() - i,
    {
        a.push(b[i]);
        i = i + 1;
    }
}

/// Concatenation of two character vectors.
pub fn concat_chars(a: &Vec<char>, b: &Vec<char>) -> (r: Vec<char>)
    ensures
        r@ == a@ + b@,
{
    let mut r = slice_chars(a, 0, a.len());
    append_chars(&mut r, b);
    r
}

/// Character-wise equality.
pub fn chars_eq(a: &Vec<char>, b: &Vec<char>) -> (r: bool)
    ensures
        r == (a@ == b@),
{
    if a.len() != b.len() {
        return false;
    }
    let mut i: usize = 0;
    while i < a.len()
        invariant
            a.len() == b.len(),
            i <= a.len(),
            a@.subrange(0, i as int) == b@.subrange(0, i as int),
        decreases a.len() - i,
    {
        if a[i] != b[i] {
            return false;
        }
        assert(a@.subrange(0, i + 1) == a@.subrange(0, i as int).push(a@[i as int]));
        assert(b@.subrange(0, i + 1) == b@.subrange(0, i as int).push(b@[i as int]));
        i = i + 1;
    }
    assert(a@ == a@.subrange(0, a.len() as int));
    assert(b@ == b@.subrange(0, b.len() as int));
    true
}

// ---------------------------------------------------------------------------
// Prefixes, suffixes and searching
// ---------------------------------------------------------------------------

/// `p` is a prefix of `s`.
pub open spec fn has_prefix(s: Seq<char>, p: Seq<char>) -> bool {
    p.len() <= s.len() && s.subrange(0, p.len() as int) == p
}

/// `p` is a suffix of `s`.
pub open spec fn has_suffix(s: Seq<char>, p: Seq<char>) -> bool {
    p.len() <= s.len() && s.subrange(s.len() - p.len(), s.len() as int) == p
}

/// `p` occurs in `s` starting at position `i`.
pub open spec fn occurs_at(s: Seq<char>, p: Seq<char>, i: int) -> bool {
    0 <= i && i + p.len() <= s.len() && s.subrange(i, i + p.len()) == p
}

/// `p` occurs somewhere in `s`.
pub open spec fn contains_seq(s: Seq<char>, p: Seq<char>) -> bool {
    exists|i: int| occurs_at(s, p, i)
}

/// `p` occurs in `s` at position `i` (executable check).
pub fn matches_at(s: &Vec<char>, p: &Vec<char>, i: usize) -> (r: bool)
    ensures
        r == occurs_at(s@, p@, i as int),
{
    if i > s.len() || p.len() > s.len() - i {
        return false;
    }
    let mut k: usize = 0;
    while k < p.len()
        invariant
            i + p.len() <= s.len(),
            k <= p.len(),
            forall|j: int| 0 <= j < k ==> s@[i + j] == p@[j],
        decreases p.len() - k,
    {
        if s[i + k] != p[k] {
            assert(s@.subrange(i as int, i + p.len())[k as int] != p@[k as int]);
            return false;
        }
        k = k + 1;
    }
    assert(s@.subrange(i as int, i + p.len()) =~= p@);
    true
}

/// `s` starts with `p`.
pub fn starts_with_chars(s: &Vec<char>, p: &Vec<char>) -> (r: bool)
    ensures
        r == has_prefix(s@, p@),
{
    matches_at(s, p, 0)
}

/// `s` ends with `p`.
pub fn ends_with_chars(s: &Vec<char>, p: &Vec<char>) -> (r: bool)
    ensures
        r == has_suffix(s@, p@),
{
    if p.len() > s.len() {
        return false;
    }
    matches_at(s, p, s.len() - p.len())
}

/// `s` contains `p` as a contiguous part.
pub fn contains_chars(s: &Vec<char>, p: &Vec<char>) -> (r: bool)
    ensures
        r == contains_seq(s@, p@),
{
    if p.len() > s.len() {
        assert forall|i: int| !occurs_at(s@, p@, i) by {}
        return false;
    }
    if p.len() == 0 {
        assert(s@.subrange(0, 0) =~= p@);
        assert(occurs_at(s@, p@, 0));
        return true;
    }
    let mut i: usize = 0;
    while i <= s.len() - p.len()
        invariant
            0 < p.len() <= s.len(),
            i <= s.len() - p.len() + 1,
            forall|j: int| 0 <= j < i ==> !occurs_at(s@, p@, j),
        decreases s.len() - p.len() + 1 - i,
    {
        if matches_at(s, p, i) {
            return true;
        }
        i = i + 1;
    }
    assert forall|j: int| !occurs_at(s@, p@, j) by {
        if 0 <= j < i {
        }
    }
    false
}

/// Index of the first occurrence of `c` in `s`, if any.
pub open spec fn first_index_of(s: Seq<char>, c: char) -> Option<int>
    decreases s.len(),
{
    if s.len() == 0 {
        None
    } else if s[0] == c {
        Some(0)
    } else {
        match first_index_of(s.drop_first(), c) {
            Some(i) => Some(i + 1),
            None => None,
        }
    }
}

/// Facts about `first_index_of`.
pub proof fn lemma_first_index_of(s: Seq<char>, c: char)
    ensures
        match first_index_of(s, c) {
            Some(i) => 0 <= i < s.len() && s[i] == c && forall|j: int| 0 <= j < i ==> s[j] != c,
            None => forall|j: int| 0 <= j < s.len() ==> s[j] != c,
        },
    decreases s.len(),
{
    if s.len() > 0 && s[0] != c {
        lemma_first_index_of(s.drop_first(), c);
        match first_index_of(s.drop_first(), c) {
            Some(i) => {
                assert forall|j: int| 0 <= j < i + 1 implies s[j] != c by {
                    if j > 0 {
                        assert(s[j] == s.drop_first()[j - 1]);
                    }
                }
            },
            None => {
                assert forall|j: int| 0 <= j < s.len() implies s[j] != c by {
                    if j > 0 {
                        assert(s[j] == s.drop_first()[j - 1]);
                    }
                }
            },
        }
    }
}

/// The first index of a character satisfying the described property is unique.
pub proof fn lemma_first_index_unique(s: Seq<char>, c: char, i: int)
    requires
        0 <= i < s.len(),
        s[i] == c,
        forall|j: int| 0 <= j < i ==> s[j] != c,
    ensures
        first_index_of(s, c) == Some(i),
{
    lemma_first_index_of(s, c);
    match first_index_of(s, c) {
        Some(k) => {
            if k < i {
                assert(s[k] != c);
            } else if k > i {
            }
        },
        None => {},
    }
}

/// Position of the first `c` in `s` at or after `from`.
pub fn find_char_from(s: &Vec<char>, c: char, from: usize) -> (r: Option<usize>)
    requires
        from <= s.len(),
    ensures
        match r {
            Some(i) => from <= i < s.len() && s@[i as int] == c && forall|j: int|
                from <= j < i ==> s@[j] != c,
            None => forall|j: int| from <= j < s.len() ==> s@[j] != c,
        },
{
    let mut i = from;
    while i < s.len()
        invariant
            from <= i <= s.len(),
            forall|j: int| from <= j < i ==> s@[j] != c,
        decreases s.len() - i,
    {
        if s[i] == c {
            return Some(i);
        }
        i = i + 1;
    }
    None
}

/// Position of the first `c` in `s`.
pub fn find_char(s: &Vec<char>, c: char) -> (r: Option<usize>)
    ensures
        match r {
            Some(i) => first_index_of(s@, c) == Some(i as int) && i < s.len(),
            None => first_index_of(s@, c) is None,
        },
{
    let r = find_char_from(s, c, 0);
    proof {
        lemma_first_index_of(s@, c);
        match r {
            Some(i) => {
                lemma_first_index_unique(s@, c, i as int);
            },
            None => {},
        }
    }
    r
}

// ---------------------------------------------------------------------------
// Whitespace and trimming
// ---------------------------------------------------------------------------

/// The Unicode `White_Space` property, which `char::is_whitespace` and
/// `str::trim` go by.
pub open spec fn is_white(c: char) -> bool {
    let v = c as u32;
    ||| 0x09 <= v <= 0x0d
    ||| v == 0x20
    ||| v == 0x85
    ||| v == 0xa0
    ||| v == 0x1680
    ||| 0x2000 <= v <= 0x200a
    ||| v == 0x2028
    ||| v == 0x2029
    ||| v == 0x202f
    ||| v == 0x205f
    ||| v == 0x3000
}

/// Executable `is_white`.
pub fn is_white_char(c: char) -> (r: bool)
    ensures
        r == is_white(c),
{
    let v = c as u32;
    (0x09 <= v && v <= 0x0d) || v == 0x20 || v == 0x85 || v == 0xa0 || v == 0x1680 || (0x2000
        <= v && v <= 0x200a) || v == 0x2028 || v == 0x2029 || v == 0x202f || v == 0x205f || v
        == 0x3000
}

/// `s` without its leading whitespace.
pub open spec fn trim_start(s: Seq<char>) -> Seq<char>
    decreases s.len(),
{
    if s.len() > 0 && is_white(s[0]) {
        trim_start(s.drop_first())
    } else {
        s
    }
}

/// `s` without its trailing whitespace.
pub open spec fn trim_end(s: Seq<char>) -> Seq<char>
    decreases s.len(),
{
    if s.len() > 0 && is_white(s.last()) {
        trim_end(s.drop_last())
    } else {
        s
    }
}

/// `s` without leading and trailing whitespace (`str::trim`).
pub open spec fn trim(s: Seq<char>) -> Seq<char> {
    trim_end(trim_start(s))
}

proof fn lemma_trim_start_head(s: Seq<char>)
    ensures
        trim_start(s).len() == 0 || !is_white(trim_start(s)[0]),
    decreases s.len(),
{
    if s.len() > 0 && is_white(s[0]) {
        lemma_trim_start_head(s.drop_first());
    }
}

proof fn lemma_trim_end_prefix(s: Seq<char>)
    ensures
        trim_end(s).len() <= s.len(),
        trim_end(s) == s.take(trim_end(s).len() as int),
        trim_end(s).len() == 0 || !is_white(trim_end(s).last()),
    decreases s.len(),
{
    if s.len() > 0 && is_white(s.last()) {
        lemma_trim_end_prefix(s.drop_last());
        assert(s.drop_last().take(trim_end(s).len() as int) =~= s.take(trim_end(s).len() as int));
    } else {
        assert(s.take(s.len() as int) =~= s);
    }
}

/// Trimming twice is trimming once.
pub proof fn lemma_trim_idempotent(s: Seq<char>)
    ensures
        trim(trim(s)) == trim(s),
{
    let a = trim_start(s);
    let t = trim_end(a);
    lemma_trim_start_head(s);
    lemma_trim_end_prefix(a);
    if t.len() > 0 {
        assert(t[0] == a[0]);
    }
    assert(trim_start(t) == t);
}

/// Removes leading and trailing whitespace.
pub fn trim_chars(s: &Vec<char>) -> (r: Vec<char>)
    ensures
        r@ == trim(s@),
{
    let n = s.len();
    let mut a: usize = 0;
    assert(s@.subrange(0, n as int) =~= s@);
    while a < n && is_white_char(s[a])
        invariant
            n == s.len(),
            a <= n,
            trim_start(s@) == trim_start(s@.subrange(a as int, n as int)),
        decreases n - a,
    {
        assert(s@.subrange(a as int, n as int).drop_first() =~= s@.subrange(a + 1, n as int));
        a = a + 1;
    }
    let mut b: usize = n;
    while b > a && is_white_char(s[b - 1])
        invariant
            n == s.len(),
            a <= b <= n,
            trim_start(s@) == s@.subrange(a as int, n as int),
            trim(s@) == trim_end(s@.subrange(a as int, b as int)),
        decreases b - a,
    {
        assert(s@.subrange(a as int, b as int).drop_last() =~= s@.subrange(a as int, b - 1));
        b = b - 1;
    }
    slice_chars(s, a, b)
}

// ---------------------------------------------------------------------------
// Replacing, joining and splitting
// ---------------------------------------------------------------------------

/// `str::replace`: every non-overlapping occurrence of `from`, scanning left to
/// right, is replaced by `to`; an empty `from` matches before every character
/// and at the end.
pub open spec fn replace_all(s: Seq<char>, from: Seq<char>, to: Seq<char>) -> Seq<char>
    decreases s.len(),
{
    if from.len() == 0 {
        if s.len() == 0 {
            to
        } else {
            to + seq![s[0]] + replace_all(s.drop_first(), from, to)
        }
    } else if s.len() == 0 {
        s
    } else if has_prefix(s, from) {
        to + replace_all(s.skip(from.len() as int), from, to)
    } else {
        seq![s[0]] + replace_all(s.drop_first(), from, to)
    }
}

/// Executable `replace_all`.
pub fn replace_chars(s: &Vec<char>, from: &Vec<char>, to: &Vec<char>) -> (r: Vec<char>)
    ensures
        r@ == replace_all(s@, from@, to@),
{
    let mut r: Vec<char> = Vec::new();
    let mut i: usize = 0;
    assert(s@.skip(0) =~= s@);
    while i < s.len()
        invariant
            i <= s.len(),
            replace_all(s@, from@, to@) == r@ + replace_all(s@.skip(i as int), from@, to@),
        decreases s.len() - i,
    {
        let ghost rest = s@.skip(i as int);
        if from.len() == 0 {
            append_chars(&mut r, to);
            r.push(s[i]);
            assert(rest.drop_first() =~= s@.skip(i + 1));
            assert(r@ + replace_all(s@.skip(i + 1), from@, to@) =~= old_r_plus(
                r@,
                replace_all(s@.skip(i + 1), from@, to@),
            ));
            i = i + 1;
        } else if matches_at(s, from, i) {
            assert(rest.subrange(0, from@.len() as int) =~= s@.subrange(
                i as int,
                i + from@.len(),
            ));
            append_chars(&mut r, to);
            assert(rest.skip(from@.len() as int) =~= s@.skip(i + from@.len()));
            i = i + from.len();
        } else {
            assert(has_prefix(rest, from@) ==> rest.subrange(0, from@.len() as int)
                =~= s@.subrange(i as int, i + from@.len()));
            r.push(s[i]);
            assert(rest.drop_first() =~= s@.skip(i + 1));
            i = i + 1;
        }
    }
    if from.len() == 0 {
        append_chars(&mut r, to);
    }
    assert(s@.skip(i as int) =~= Seq::<char>::empty());
    r
}

spec fn old_r_plus(a: Seq<char>, b: Seq<char>) -> Seq<char> {
    a + b
}

/// One of `a` and `b` is a prefix of the other.
pub open spec fn prefix_related(a: Seq<char>, b: Seq<char>) -> bool {
    if a.len() <= b.len() {
        b.take(a.len() as int) == a
    } else {
        a.take(b.len() as int) == b
    }
}

/// No occurrence of `q` can begin inside `c`: no nonempty tail of `c` is a
/// prefix of `q` or has `q` as a prefix.
pub open spec fn no_start_inside(q: Seq<char>, c: Seq<char>) -> bool {
    forall|i: int| 0 <= i < c.len() ==> !prefix_related(#[trigger] c.skip(i), q)
}

/// No occurrence of `q` can run into `c` from before it: no proper tail of `q`
/// is a prefix of `c` or has `c` as a prefix.
pub open spec fn no_tail_into(q: Seq<char>, c: Seq<char>) -> bool {
    forall|k: int| 1 <= k < q.len() ==> !prefix_related(#[trigger] q.skip(k), c)
}

/// When the result of a replacement starts with a proper tail of `q` that
/// cannot run into the replacement text, the original starts with it too.
proof fn lemma_replace_keeps_tail(t: Seq<char>, p: Seq<char>, c: Seq<char>, q: Seq<char>, k: int)
    requires
        p.len() > 0,
        1 <= k < q.len(),
        no_tail_into(q, c),
        has_prefix(replace_all(t, p, c), q.skip(k)),
    ensures
        has_prefix(t, q.skip(k)),
    decreases t.len(),
{
    let qk = q.skip(k);
    let r = replace_all(t, p, c);
    if t.len() == 0 {
    } else if has_prefix(t, p) {
        let r1 = replace_all(t.skip(p.len() as int), p, c);
        assert(r == c + r1);
        assert(r.subrange(0, qk.len() as int) == qk);
        if qk.len() <= c.len() {
            assert(c.take(qk.len() as int) =~= r.subrange(0, qk.len() as int));
            assert(c.take(qk.len() as int) == qk);
        } else {
            assert(qk.take(c.len() as int) =~= r.subrange(0, c.len() as int));
            assert(qk.take(c.len() as int) =~= c);
        }
        assert(prefix_related(qk, c));
        assert(!prefix_related(q.skip(k), c));
    } else {
        let r1 = replace_all(t.drop_first(), p, c);
        assert(r == seq![t[0]] + r1);
        assert(qk[0] == r[0]);
        let w = r.subrange(0, qk.len() as int);
        assert(w == qk);
        if qk.len() > 1 {
            assert(r1.subrange(0, qk.len() - 1) =~= w.skip(1));
            assert(q.skip(k + 1) =~= qk.skip(1));
            assert(r1.subrange(0, qk.len() - 1) =~= q.skip(k + 1));
            assert(has_prefix(r1, q.skip(k + 1)));
            lemma_replace_keeps_tail(t.drop_first(), p, c, q, k + 1);
            assert forall|j: int| 1 <= j < qk.len() implies t[j] == qk[j] by {
                assert(t[j] == t.drop_first()[j - 1]);
                assert(t.drop_first().subrange(0, q.skip(k + 1).len() as int)[j - 1] == q.skip(k + 1)[j - 1]);
            }
        }
        assert(t[0] == qk[0]);
        assert(t.subrange(0, qk.len() as int) =~= qk);
    }
}

/// Replacing every `p` by `c` leaves no occurrence of `q` when `q` cannot
/// begin inside `c` nor run into it, and `q` is either `p` itself or absent
/// beforehand.
pub proof fn lemma_replace_leaves_no_occurrence(u: Seq<char>, p: Seq<char>, c: Seq<char>, q: Seq<char>)
    requires
        p.len() > 0,
        q.len() > 0,
        no_start_inside(q, c),
        no_tail_into(q, c),
        q == p || !contains_seq(u, q),
    ensures
        !contains_seq(replace_all(u, p, c), q),
    decreases u.len(),
{
    let r = replace_all(u, p, c);
    if u.len() == 0 {
        assert(r.len() == 0);
    } else if has_prefix(u, p) {
        let rest = u.skip(p.len() as int);
        if q != p {
            assert forall|j: int| !occurs_at(rest, q, j) by {
                if occurs_at(rest, q, j) {
                    assert(u.subrange(j + p.len(), j + p.len() + q.len()) =~= rest.subrange(j, j + q.len()));
                    assert(occurs_at(u, q, j + p.len()));
                }
            }
        }
        lemma_replace_leaves_no_occurrence(rest, p, c, q);
        let r1 = replace_all(rest, p, c);
        assert(r == c + r1);
        assert forall|i: int| !occurs_at(r, q, i) by {
            if occurs_at(r, q, i) {
                if i < c.len() {
                    let w = r.subrange(i, i + q.len());
                    assert(w == q);
                    if c.len() - i > q.len() {
                        assert(c.skip(i).take(q.len() as int) =~= w);
                    } else {
                        assert(w.take(c.len() - i) =~= c.skip(i));
                        assert(q.take(c.len() - i) =~= c.skip(i));
                    }
                    assert(prefix_related(c.skip(i), q));
                } else {
                    assert(r1.subrange(i - c.len(), i - c.len() + q.len()) =~= r.subrange(i, i + q.len()));
                    assert(occurs_at(r1, q, i - c.len()));
                }
            }
        }
    } else {
        let rest = u.drop_first();
        if q != p {
            assert forall|j: int| !occurs_at(rest, q, j) by {
                if occurs_at(rest, q, j) {
                    assert(u.subrange(j + 1, j + 1 + q.len()) =~= rest.subrange(j, j + q.len()));
                    assert(occurs_at(u, q, j + 1));
                }
            }
        }
        lemma_replace_leaves_no_occurrence(rest, p, c, q);
        let r1 = replace_all(rest, p, c);
        assert(r == seq![u[0]] + r1);
        assert forall|i: int| !occurs_at(r, q, i) by {
            if occurs_at(r, q, i) {
                if i >= 1 {
                    assert(r1.subrange(i - 1, i - 1 + q.len()) =~= r.subrange(i, i + q.len()));
                    assert(occurs_at(r1, q, i - 1));
                } else {
                    let w = r.subrange(0, q.len() as int);
                    assert(w == q);
                    assert(q[0] == u[0]);
                    if q.len() > 1 {
                        assert(r1.subrange(0, q.len() - 1) =~= w.skip(1));
                        assert(r1.subrange(0, q.len() - 1) =~= q.skip(1));
                        assert(has_prefix(r1, q.skip(1)));
                        lemma_replace_keeps_tail(rest, p, c, q, 1);
                        assert forall|j: int| 1 <= j < q.len() implies u[j] == q[j] by {
                            assert(u[j] == rest[j - 1]);
                            assert(rest.subrange(0, q.skip(1).len() as int)[j - 1] == q.skip(1)[j - 1]);
                        }
                    }
                    assert(u.subrange(0, q.len() as int) =~= q);
                    assert(occurs_at(u, q, 0));
                }
            }
        }
    }
}

/// Every occurrence of `p` in `u` comes right after the character `g`; one
/// at the very start of `u` only when `first` holds (the character before
/// `u` is `g`).
pub open spec fn preceded_by(u: Seq<char>, p: Seq<char>, g: char, first: bool) -> bool {
    forall|j: int| #[trigger] occurs_at(u, p, j) ==> if j == 0 {
        first
    } else {
        u[j - 1] == g
    }
}

/// `preceded_by` carries over to the text after the first character.
proof fn lemma_preceded_by_rest(u: Seq<char>, p: Seq<char>, g: char, first: bool)
    requires
        u.len() > 0,
        preceded_by(u, p, g, first),
    ensures
        preceded_by(u.drop_first(), p, g, u[0] == g),
{
    let rest = u.drop_first();
    assert forall|j: int| #[trigger] occurs_at(rest, p, j) implies if j == 0 {
        u[0] == g
    } else {
        rest[j - 1] == g
    } by {
        assert(u.subrange(j + 1, j + 1 + p.len()) =~= rest.subrange(j, j + p.len()));
        assert(occurs_at(u, p, j + 1));
        if j > 0 {
            assert(rest[j - 1] == u[j]);
        }
    }
}

/// `preceded_by` carries over to the text after a leading occurrence of `m`,
/// which does not end with `g`.
proof fn lemma_preceded_by_after(u: Seq<char>, m: Seq<char>, p: Seq<char>, g: char, first: bool)
    requires
        m.len() > 0,
        has_prefix(u, m),
        lacks(m, g),
        preceded_by(u, p, g, first),
    ensures
        preceded_by(u.skip(m.len() as int), p, g, false),
{
    let rest = u.skip(m.len() as int);
    assert forall|j: int| #[trigger] occurs_at(rest, p, j) implies if j == 0 {
        false
    } else {
        rest[j - 1] == g
    } by {
        assert(u.subrange(j + m.len(), j + m.len() + p.len()) =~= rest.subrange(j, j + p.len()));
        assert(occurs_at(u, p, j + m.len()));
        if j == 0 {
            assert(u.subrange(0, m.len() as int)[m.len() - 1] == m[m.len() - 1]);
        } else {
            assert(rest[j - 1] == u[j + m.len() - 1]);
        }
    }
}

/// When the result of a replacement starts with a proper tail of `q` and no
/// occurrence of `p` starts the original (its character before would be a
/// character of `q`, which is not `g`), the original starts with that tail.
proof fn lemma_guard_keeps_tail(t: Seq<char>, p: Seq<char>, c: Seq<char>, q: Seq<char>, g: char, k: int)
    requires
        p.len() > 0,
        1 <= k < q.len(),
        lacks(q, g),
        preceded_by(t, p, g, q[k - 1] == g),
        has_prefix(replace_all(t, p, c), q.skip(k)),
    ensures
        has_prefix(t, q.skip(k)),
    decreases t.len(),
{
    let qk = q.skip(k);
    let r = replace_all(t, p, c);
    if t.len() == 0 {
    } else if has_prefix(t, p) {
        assert(t.subrange(0, p.len() as int) == p);
        assert(occurs_at(t, p, 0));
        assert(q[k - 1] != g);
    } else {
        let r1 = replace_all(t.drop_first(), p, c);
        assert(r == seq![t[0]] + r1);
        let w = r.subrange(0, qk.len() as int);
        assert(w == qk);
        assert(qk[0] == r[0]);
        assert(t[0] == q[k]);
        if qk.len() > 1 {
            assert(r1.subrange(0, qk.len() - 1) =~= w.skip(1));
            assert(q.skip(k + 1) =~= qk.skip(1));
            assert(r1.subrange(0, qk.len() - 1) =~= q.skip(k + 1));
            lemma_preceded_by_rest(t, p, g, q[k - 1] == g);
            lemma_guard_keeps_tail(t.drop_first(), p, c, q, g, k + 1);
            assert forall|j: int| 1 <= j < qk.len() implies t[j] == qk[j] by {
                assert(t[j] == t.drop_first()[j - 1]);
                assert(t.drop_first().subrange(0, q.skip(k + 1).len() as int)[j - 1] == q.skip(k + 1)[j - 1]);
            }
        }
        assert(t.subrange(0, qk.len() as int) =~= qk);
    }
}

/// Replacing every `p` by `c` leaves no occurrence of `q` when every `p`
/// comes right after `g`, neither `p` nor `q` holds `g`, `q` cannot begin
/// inside `c`, and `q` is either `p` itself or absent beforehand.
pub proof fn lemma_guarded_replace_leaves_no_occurrence(
    u: Seq<char>,
    p: Seq<char>,
    c: Seq<char>,
    q: Seq<char>,
    g: char,
    first: bool,
)
    requires
        p.len() > 0,
        q.len() > 0,
        lacks(p, g),
        lacks(q, g),
        preceded_by(u, p, g, first),
        no_start_inside(q, c),
        q == p || !contains_seq(u, q),
    ensures
        !contains_seq(replace_all(u, p, c), q),
    decreases u.len(),
{
    let r = replace_all(u, p, c);
    if u.len() == 0 {
        assert(r.len() == 0);
    } else if has_prefix(u, p) {
        let rest = u.skip(p.len() as int);
        if q != p {
            assert forall|j: int| !occurs_at(rest, q, j) by {
                if occurs_at(rest, q, j) {
                    assert(u.subrange(j + p.len(), j + p.len() + q.len()) =~= rest.subrange(j, j + q.len()));
                    assert(occurs_at(u, q, j + p.len()));
                }
            }
        }
        lemma_preceded_by_after(u, p, p, g, first);
        lemma_guarded_replace_leaves_no_occurrence(rest, p, c, q, g, false);
        let r1 = replace_all(rest, p, c);
        assert(r == c + r1);
        assert forall|i: int| !occurs_at(r, q, i) by {
            if occurs_at(r, q, i) {
                if i < c.len() {
                    let w = r.subrange(i, i + q.len());
                    assert(w == q);
                    if c.len() - i > q.len() {
                        assert(c.skip(i).take(q.len() as int) =~= w);
                    } else {
                        assert(w.take(c.len() - i) =~= c.skip(i));
                        assert(q.take(c.len() - i) =~= c.skip(i));
                    }
                    assert(prefix_related(c.skip(i), q));
                } else {
                    assert(r1.subrange(i - c.len(), i - c.len() + q.len()) =~= r.subrange(i, i + q.len()));
                    assert(occurs_at(r1, q, i - c.len()));
                }
            }
        }
    } else {
        let rest = u.drop_first();
        if q != p {
            assert forall|j: int| !occurs_at(rest, q, j) by {
                if occurs_at(rest, q, j) {
                    assert(u.subrange(j + 1, j + 1 + q.len()) =~= rest.subrange(j, j + q.len()));
                    assert(occurs_at(u, q, j + 1));
                }
            }
        }
        lemma_preceded_by_rest(u, p, g, first);
        lemma_guarded_replace_leaves_no_occurrence(rest, p, c, q, g, u[0] == g);
        let r1 = replace_all(rest, p, c);
        assert(r == seq![u[0]] + r1);
        assert forall|i: int| !occurs_at(r, q, i) by {
            if occurs_at(r, q, i) {
                if i >= 1 {
                    assert(r1.subrange(i - 1, i - 1 + q.len()) =~= r.subrange(i, i + q.len()));
                    assert(occurs_at(r1, q, i - 1));
                } else {
                    let w = r.subrange(0, q.len() as int);
                    assert(w == q);
                    assert(q[0] == u[0]);
                    if q.len() > 1 {
                        assert(r1.subrange(0, q.len() - 1) =~= w.skip(1));
                        assert(r1.subrange(0, q.len() - 1) =~= q.skip(1));
                        lemma_guard_keeps_tail(rest, p, c, q, g, 1);
                        assert forall|j: int| 1 <= j < q.len() implies u[j] == q[j] by {
                            assert(u[j] == rest[j - 1]);
                            assert(rest.subrange(0, q.skip(1).len() as int)[j - 1] == q.skip(1)[j - 1]);
                        }
                    }
                    assert(u.subrange(0, q.len() as int) =~= q);
                    assert(occurs_at(u, q, 0));
                }
            }
        }
    }
}

/// Replacing every `p` by `c` keeps every occurrence of another text `q`
/// right after `g`, when neither holds `g` and `q` cannot begin inside `c`.
pub proof fn lemma_replace_keeps_preceded_by(
    u: Seq<char>,
    p: Seq<char>,
    c: Seq<char>,
    q: Seq<char>,
    g: char,
    first: bool,
)
    requires
        p.len() > 0,
        q.len() > 0,
        lacks(p, g),
        lacks(q, g),
        preceded_by(u, p, g, first),
        preceded_by(u, q, g, first),
        no_start_inside(q, c),
    ensures
        preceded_by(replace_all(u, p, c), q, g, first),
    decreases u.len(),
{
    let r = replace_all(u, p, c);
    if u.len() == 0 {
        assert(r.len() == 0);
    } else if has_prefix(u, p) {
        let rest = u.skip(p.len() as int);
        lemma_preceded_by_after(u, p, p, g, first);
        lemma_preceded_by_after(u, p, q, g, first);
        lemma_replace_keeps_preceded_by(rest, p, c, q, g, false);
        let r1 = replace_all(rest, p, c);
        assert(r == c + r1);
        assert forall|i: int| #[trigger] occurs_at(r, q, i) implies if i == 0 {
            first
        } else {
            r[i - 1] == g
        } by {
            if i < c.len() {
                let w = r.subrange(i, i + q.len());
                assert(w == q);
                if c.len() - i > q.len() {
                    assert(c.skip(i).take(q.len() as int) =~= w);
                } else {
                    assert(w.take(c.len() - i) =~= c.skip(i));
                    assert(q.take(c.len() - i) =~= c.skip(i));
                }
                assert(prefix_related(c.skip(i), q));
            } else {
                assert(r1.subrange(i - c.len(), i - c.len() + q.len()) =~= r.subrange(i, i + q.len()));
                assert(occurs_at(r1, q, i - c.len()));
                if i > c.len() {
                    assert(r[i - 1] == r1[i - c.len() - 1]);
                }
            }
        }
    } else {
        let rest = u.drop_first();
        lemma_preceded_by_rest(u, p, g, first);
        lemma_preceded_by_rest(u, q, g, first);
        lemma_replace_keeps_preceded_by(rest, p, c, q, g, u[0] == g);
        let r1 = replace_all(rest, p, c);
        assert(r == seq![u[0]] + r1);
        assert forall|i: int| #[trigger] occurs_at(r, q, i) implies if i == 0 {
            first
        } else {
            r[i - 1] == g
        } by {
            if i >= 1 {
                assert(r1.subrange(i - 1, i - 1 + q.len()) =~= r.subrange(i, i + q.len()));
                assert(occurs_at(r1, q, i - 1));
                if i == 1 {
                    assert(r[0] == u[0]);
                } else {
                    assert(r[i - 1] == r1[i - 2]);
                }
            } else {
                let w = r.subrange(0, q.len() as int);
                assert(w == q);
                assert(q[0] == u[0]);
                if q.len() > 1 {
                    assert(r1.subrange(0, q.len() - 1) =~= w.skip(1));
                    assert(r1.subrange(0, q.len() - 1) =~= q.skip(1));
                    lemma_guard_keeps_tail(rest, p, c, q, g, 1);
                    assert forall|j: int| 1 <= j < q.len() implies u[j] == q[j] by {
                        assert(u[j] == rest[j - 1]);
                        assert(rest.subrange(0, q.skip(1).len() as int)[j - 1] == q.skip(1)[j - 1]);
                    }
                }
                assert(u.subrange(0, q.len() as int) =~= q);
                assert(occurs_at(u, q, 0));
            }
        }
    }
}

/// The parts joined with `sep` between each two of them (`[T]::join`).
pub open spec fn join_seqs(parts: Seq<Seq<char>>, sep: Seq<char>) -> Seq<char>
    decreases parts.len(),
{
    if parts.len() == 0 {
        Seq::empty()
    } else if parts.len() == 1 {
        parts[0]
    } else {
        join_seqs(parts.drop_last(), sep) + sep + parts.last()
    }
}

/// Executable `join_seqs` over character vectors.
pub fn join_chars(parts: &Vec<Vec<char>>, sep: &Vec<char>) -> (r: Vec<char>)
    ensures
        r@ == join_seqs(parts@.map_values(|p: Vec<char>| p@), sep@),
{
    let ghost views = parts@.map_values(|p: Vec<char>| p@);
    let mut r: Vec<char> = Vec::new();
    let mut i: usize = 0;
    while i < parts.len()
        invariant
            i <= parts.len(),
            views == parts@.map_values(|p: Vec<char>| p@),
            r@ == join_seqs(views.take(i as int), sep@),
        decreases parts.len() - i,
    {
        if i > 0 {
            append_chars(&mut r, sep);
        }
        append_chars(&mut r, &parts[i]);
        assert(views.take(i + 1).drop_last() =~= views.take(i as int));
        i = i + 1;
    }
    assert(views.take(parts.len() as int) =~= views);
    r
}

/// `str::split` on a single character: the pieces between occurrences of `c`
/// (always at least one piece).
pub open spec fn split_on(s: Seq<char>, c: char) -> Seq<Seq<char>>
    decreases s.len(),
{
    match first_index_of(s, c) {
        None => seq![s],
        Some(i) => if 0 <= i < s.len() {
            seq![s.take(i)] + split_on(s.skip(i + 1), c)
        } else {
            seq![s]
        },
    }
}

/// Executable `split_on`.
pub fn split_chars(s: &Vec<char>, c: char) -> (r: Vec<Vec<char>>)
    ensures
        r@.map_values(|p: Vec<char>| p@) == split_on(s@, c),
{
    let mut r: Vec<Vec<char>> = Vec::new();
    let mut start: usize = 0;
    assert(s@.skip(0) =~= s@);
    loop
        invariant
            start <= s.len(),
            split_on(s@, c) == r@.map_values(|p: Vec<char>| p@) + split_on(
                s@.skip(start as int),
                c,
            ),
        decreases s.len() - start,
    {
        let ghost rest = s@.skip(start as int);
        match find_char_from(s, c, start) {
            Some(i) => {
                proof {
                    assert forall|j: int| 0 <= j < i - start implies rest[j] != c by {
                        assert(rest[j] == s@[start + j]);
                    }
                    lemma_first_index_unique(rest, c, i - start);
                    assert(rest.take(i - start) =~= s@.subrange(start as int, i as int));
                    assert(rest.skip(i - start + 1) =~= s@.skip(i + 1));
                }
                let piece = slice_chars(s, start, i);
                r.push(piece);
                assert(r@.map_values(|p: Vec<char>| p@) =~= old_pieces(r@).push(piece@));
                start = i + 1;
            },
            None => {
                proof {
                    lemma_first_index_of(rest, c);
                    assert forall|j: int| 0 <= j < rest.len() implies rest[j] != c by {
                        assert(rest[j] == s@[start + j]);
                    }
                    if first_index_of(rest, c) is Some {
                        let k = first_index_of(rest, c)->0;
                        assert(rest[k] != c);
                    }
                    assert(rest =~= s@.subrange(start as int, s.len() as int));
                }
                let piece = slice_chars(s, start, s.len());
                r.push(piece);
                assert(r@.map_values(|p: Vec<char>| p@) =~= old_pieces(r@).push(piece@));
                return r;
            },
        }
    }
}

spec fn old_pieces(v: Seq<Vec<char>>) -> Seq<Seq<char>> {
    v.drop_last().map_values(|p: Vec<char>| p@)
}

/// `t` without one trailing carriage return.
pub open spec fn strip_cr(t: Seq<char>) -> Seq<char> {
    if t.len() > 0 && t.last() == '\r' {
        t.drop_last()
    } else {
        t
    }
}

/// The lines of `s` as `str::lines` gives them: the pieces between `\n`,
/// each piece that a `\n` ends without one trailing `\r`, and no empty piece
/// after the last `\n`.
pub open spec fn str_lines(s: Seq<char>) -> Seq<Seq<char>> {
    let p = split_on(s, '\n');
    let body = p.drop_last().map_values(|t: Seq<char>| strip_cr(t));
    if p.last().len() == 0 {
        body
    } else {
        body.push(p.last())
    }
}

/// Splitting always gives at least one piece.
pub proof fn lemma_split_nonempty(s: Seq<char>, c: char)
    ensures
        split_on(s, c).len() >= 1,
    decreases s.len(),
{
    match first_index_of(s, c) {
        None => {},
        Some(i) => if 0 <= i < s.len() {
            lemma_split_nonempty(s.skip(i + 1), c);
        },
    }
}

/// The lines of a text, as `str_lines` describes.
pub fn lines_of(s: &str) -> (r: Vec<Vec<char>>)
    ensures
        r@.map_values(|v: Vec<char>| v@) == str_lines(s@),
{
    let pieces = split_chars(&chars_of(s), '\n');
    let ghost pv = pieces@.map_values(|p: Vec<char>| p@);
    proof {
        lemma_split_nonempty(s@, '\n');
    }
    let n = pieces.len();
    let ghost body = pv.drop_last().map_values(|t: Seq<char>| strip_cr(t));
    let mut out: Vec<Vec<char>> = Vec::new();
    let mut k: usize = 0;
    while k + 1 < n
        invariant
            n == pieces.len(),
            n >= 1,
            pv == pieces@.map_values(|p: Vec<char>| p@),
            body == pv.drop_last().map_values(|t: Seq<char>| strip_cr(t)),
            k + 1 <= n,
            out@.map_values(|v: Vec<char>| v@) == body.take(k as int),
        decreases n - k,
    {
        let piece = &pieces[k];
        assert(piece@ == pv[k as int]);
        let line: Vec<char> = if piece.len() > 0 && piece[piece.len() - 1] == '\r' {
            slice_chars(piece, 0, piece.len() - 1)
        } else {
            slice_chars(piece, 0, piece.len())
        };
        assert(piece@.subrange(0, piece@.len() as int) =~= piece@);
        assert(line@ == body[k as int]);
        let ghost prev = out@.map_values(|v: Vec<char>| v@);
        out.push(line);
        assert(out@.map_values(|v: Vec<char>| v@) =~= prev.push(body[k as int]));
        assert(body.take(k + 1) =~= body.take(k as int).push(body[k as int]));
        k = k + 1;
    }
    assert(body.take(k as int) =~= body);
    let last = &pieces[n - 1];
    assert(last@ == pv.last());
    if last.len() > 0 {
        let ghost prev = out@.map_values(|v: Vec<char>| v@);
        out.push(slice_chars(last, 0, last.len()));
        assert(last@.subrange(0, last@.len() as int) =~= last@);
        assert(out@.map_values(|v: Vec<char>| v@) =~= prev.push(pv.last()));
    }
    out
}

// ---------------------------------------------------------------------------
// Case mapping
// ---------------------------------------------------------------------------

/// What `str::to_lowercase` returns for a string: its lowercase form under the
/// Unicode `Lowercase` mapping of the standard library.
pub uninterp spec fn lowercase(s: Seq<char>) -> Seq<char>;

/// ASCII letters `A`..`Z` mapped to `a`..`z`; every other character unchanged.
pub open spec fn ascii_lower_char(c: char) -> char {
    if 'A' <= c <= 'Z' {
        ((c as u32) + 32) as char
    } else {
        c
    }
}

/// `s` with ASCII letters lowercased.
pub open spec fn ascii_lower(s: Seq<char>) -> Seq<char> {
    s.map_values(|c: char| ascii_lower_char(c))
}

/// Every character of `s` is ASCII.
pub open spec fn all_ascii(s: Seq<char>) -> bool {
    forall|i: int| 0 <= i < s.len() ==> (s[i] as u32) < 128
}

/// `str::to_lowercase`. The result is named by `lowercase`; on ASCII text the
/// Unicode mapping is the ASCII one, which the contract states. What it does on
/// other characters is left to the name.
#[verifier::external_body]
pub(crate) fn to_lowercase(s: &str) -> (r: String)
    ensures
        r@ == lowercase(s@),
        all_ascii(s@) ==> r@ == ascii_lower(s@),
{
    s.to_lowercase()
}

/// `to_lowercase` on a character vector.
pub fn lowercase_chars(s: &Vec<char>) -> (r: Vec<char>)
    ensures
        r@ == lowercase(s@),
        all_ascii(s@) ==> r@ == ascii_lower(s@),
{
    let st = string_of(s);
    let l = to_lowercase(st.as_str());
    chars_of(l.as_str())
}

// ---------------------------------------------------------------------------
// Decimal numbers
// ---------------------------------------------------------------------------

/// The ASCII digit for `d < 10`.
pub open spec fn digit_char(d: nat) -> char {
    (d + 48) as char
}

/// `c` is an ASCII decimal digit.
pub open spec fn is_digit(c: char) -> bool {
    '0' <= c <= '9'
}

/// The value of an ASCII decimal digit.
pub open spec fn digit_value(c: char) -> nat {
    ((c as u32) - 48) as nat
}

/// Decimal representation of `n` without leading zeros (`Display` of an
/// unsigned integer).
pub open spec fn decimal(n: nat) -> Seq<char>
    decreases n,
{
    if n < 10 {
        seq![digit_char(n)]
    } else {
        decimal(n / 10).push(digit_char(n % 10))
    }
}

/// `s` does not hold `c`.
pub open spec fn lacks(s: Seq<char>, c: char) -> bool {
    forall|i: int| 0 <= i < s.len() ==> s[i] != c
}

/// A sequence that `c` splits at its first occurrence splits in one way
/// only.
pub proof fn lemma_split_at_first(x: Seq<char>, y: Seq<char>, x2: Seq<char>, y2: Seq<char>, c: char)
    requires
        lacks(x, c),
        lacks(x2, c),
        x + seq![c] + y == x2 + seq![c] + y2,
    ensures
        x == x2,
        y == y2,
{
    let s = x + seq![c] + y;
    let t = x2 + seq![c] + y2;
    if x.len() < x2.len() {
        assert(s[x.len() as int] == c);
        assert(t[x.len() as int] == x2[x.len() as int]);
    } else if x2.len() < x.len() {
        assert(t[x2.len() as int] == c);
        assert(s[x2.len() as int] == x[x2.len() as int]);
    }
    assert(x =~= s.subrange(0, x.len() as int));
    assert(x2 =~= t.subrange(0, x2.len() as int));
    assert(y =~= s.skip(x.len() as int + 1));
    assert(y2 =~= t.skip(x2.len() as int + 1));
}

/// A sequence that `c` splits at its last occurrence splits in one way only.
pub proof fn lemma_split_at_last(x: Seq<char>, y: Seq<char>, x2: Seq<char>, y2: Seq<char>, c: char)
    requires
        lacks(y, c),
        lacks(y2, c),
        x + seq![c] + y == x2 + seq![c] + y2,
    ensures
        x == x2,
        y == y2,
{
    let s = x + seq![c] + y;
    let t = x2 + seq![c] + y2;
    assert(s.len() == x.len() + 1 + y.len());
    assert(t.len() == x2.len() + 1 + y2.len());
    assert(s.len() == t.len());
    if y.len() < y2.len() {
        let i = x.len() as int;
        assert(x2.len() < x.len());
        assert(0 <= i - x2.len() - 1 < y2.len());
        assert(s[i] == c);
        assert(t[i] == y2[i - x2.len() - 1]);
    } else if y2.len() < y.len() {
        let i = x2.len() as int;
        assert(x.len() < x2.len());
        assert(0 <= i - x.len() - 1 < y.len());
        assert(t[i] == c);
        assert(s[i] == y[i - x.len() - 1]);
    }
    assert(x =~= s.subrange(0, x.len() as int));
    assert(x2 =~= t.subrange(0, x2.len() as int));
    assert(y =~= s.skip(x.len() as int + 1));
    assert(y2 =~= t.skip(x2.len() as int + 1));
}

proof fn lemma_digit_char(d: nat)
    requires
        d < 10,
    ensures
        digit_char(d) as u32 == d + 48,
{
}

/// The decimal form of a number is a non-empty run of ASCII digits.
pub proof fn lemma_decimal_digits(n: nat)
    ensures
        decimal(n).len() >= 1,
        forall|i: int| 0 <= i < decimal(n).len() ==> 48 <= (#[trigger] decimal(n)[i]) as u32 <= 57,
    decreases n,
{
    if n < 10 {
        lemma_digit_char(n);
    } else {
        lemma_decimal_digits(n / 10);
        lemma_digit_char(n % 10);
    }
}

/// Different numbers have different decimal forms.
pub proof fn lemma_decimal_injective(n: nat, m: nat)
    requires
        decimal(n) == decimal(m),
    ensures
        n == m,
    decreases n,
{
    if n < 10 && m < 10 {
        lemma_digit_char(n);
        lemma_digit_char(m);
        assert(decimal(n) == seq![digit_char(n)]);
        assert(decimal(m) == seq![digit_char(m)]);
        assert(decimal(n)[0] == digit_char(n));
        assert(decimal(m)[0] == digit_char(m));
        assert(digit_char(n) == digit_char(m));
    } else if n < 10 {
        lemma_decimal_digits(m / 10);
        assert(decimal(m).len() >= 2);
    } else if m < 10 {
        lemma_decimal_digits(n / 10);
        assert(decimal(n).len() >= 2);
    } else {
        assert(decimal(n).drop_last() =~= decimal(n / 10));
        assert(decimal(m).drop_last() =~= decimal(m / 10));
        lemma_decimal_injective(n / 10, m / 10);
        lemma_digit_char(n % 10);
        lemma_digit_char(m % 10);
        assert(decimal(n) == decimal(n / 10).push(digit_char(n % 10)));
        assert(decimal(m) == decimal(m / 10).push(digit_char(m % 10)));
        assert(decimal(n).last() == digit_char(n % 10));
        assert(decimal(m).last() == digit_char(m % 10));
        assert(digit_char(n % 10) == digit_char(m % 10));
        assert(n % 10 == m % 10);
        assert(n == 10 * (n / 10) + n % 10) by (nonlinear_arith);
        assert(m == 10 * (m / 10) + m % 10) by (nonlinear_arith);
    }
}

/// Formats an unsigned integer in decimal.
pub fn u64_to_decimal(n: u64) -> (r: Vec<char>)
    ensures
        r@ == decimal(n as nat),
    decreases n,
{
    let d = (n % 10) as u8;
    let c = (d + 48) as char;
    assert(c == digit_char((n % 10) as nat));
    if n < 10 {
        let mut r: Vec<char> = Vec::new();
        r.push(c);
        r
    } else {
        let mut r = u64_to_decimal(n / 10);
        r.push(c);
        r
    }
}

/// Why a decimal integer failed to parse, as `core::num::IntErrorKind` tells it.
#[derive(Debug, Clone, Copy, PartialEq, Eq, Structural)]
pub enum IntErrorKind {
    /// The text is empty.
    Empty,
    /// A character is not a decimal digit.
    InvalidDigit,
    /// The value does not fit the target type.
    PosOverflow,
}

/// Scans the digits `d` after an accumulated value `acc`, left to right, as
/// the standard library's integer parser does: a non-digit is reported at its
/// position, and so is the first prefix whose value exceeds `max`.
pub open spec fn scan_digits(acc: nat, d: Seq<char>, max: nat) -> Result<nat, IntErrorKind>
    decreases d.len(),
{
    if d.len() == 0 {
        Ok(acc)
    } else if !is_digit(d[0]) {
        Err(IntErrorKind::InvalidDigit)
    } else if acc * 10 + digit_value(d[0]) > max {
        Err(IntErrorKind::PosOverflow)
    } else {
        scan_digits(acc * 10 + digit_value(d[0]), d.drop_first(), max)
    }
}

/// `str::parse` for an unsigned integer type whose largest value is `max`:
/// an optional leading `+` (not alone), then decimal digits.
pub open spec fn parse_unsigned_spec(s: Seq<char>, max: nat) -> Result<nat, IntErrorKind> {
    if s.len() == 0 {
        Err(IntErrorKind::Empty)
    } else if s.len() == 1 && (s[0] == '+' || s[0] == '-') {
        Err(IntErrorKind::InvalidDigit)
    } else if s[0] == '+' {
        scan_digits(0, s.drop_first(), max)
    } else {
        scan_digits(0, s, max)
    }
}

proof fn lemma_scan_bounded(acc: nat, d: Seq<char>, max: nat)
    requires
        acc <= max,
    ensures
        scan_digits(acc, d, max) matches Ok(v) ==> v <= max,
    decreases d.len(),
{
    if d.len() > 0 && is_digit(d[0]) && acc * 10 + digit_value(d[0]) <= max {
        lemma_scan_bounded(acc * 10 + digit_value(d[0]), d.drop_first(), max);
    }
}

/// Parses an unsigned decimal integer no larger than `max`.
pub fn parse_unsigned(s: &Vec<char>, max: u64) -> (r: Result<u64, IntErrorKind>)
    ensures
        match r {
            Ok(v) => parse_unsigned_spec(s@, max as nat) == Ok::<nat, IntErrorKind>(v as nat),
            Err(k) => parse_unsigned_spec(s@, max as nat) == Err::<nat, IntErrorKind>(k),
        },
{
    if s.len() == 0 {
        return Err(IntErrorKind::Empty);
    }
    if s.len() == 1 && (s[0] == '+' || s[0] == '-') {
        return Err(IntErrorKind::InvalidDigit);
    }
    let start: usize = if s[0] == '+' {
        1
    } else {
        0
    };
    let ghost digits = s@.skip(start as int);
    assert(s[0] == '+' ==> digits =~= s@.drop_first());
    assert(s[0] != '+' ==> digits =~= s@);
    assert(parse_unsigned_spec(s@, max as nat) == scan_digits(0, digits, max as nat));
    let mut acc: u64 = 0;
    let mut i: usize = start;
    while i < s.len()
        invariant
            start <= i <= s.len(),
            acc <= max,
            digits == s@.skip(start as int),
            parse_unsigned_spec(s@, max as nat) == scan_digits(0, digits, max as nat),
            scan_digits(0, digits, max as nat) == scan_digits(
                acc as nat,
                s@.skip(i as int),
                max as nat,
            ),
        decreases s.len() - i,
    {
        let c = s[i];
        assert(s@.skip(i as int)[0] == c);
        if !('0' <= c && c <= '9') {
            assert(scan_digits(acc as nat, s@.skip(i as int), max as nat) == Err::<
                nat,
                IntErrorKind,
            >(IntErrorKind::InvalidDigit));
            return Err(IntErrorKind::InvalidDigit);
        }
        let dv = (c as u32 - 48) as u64;
        assert(dv == digit_value(c));
        if dv > max || acc > (max - dv) / 10 {
            assert(acc * 10 + dv > max) by (nonlinear_arith)
                requires
                    dv > max || acc > (max - dv) / 10,
                    dv <= max ==> (max - dv) / 10 * 10 + 10 > max - dv,
            {
            }
            assert(scan_digits(acc as nat, s@.skip(i as int), max as nat) == Err::<
                nat,
                IntErrorKind,
            >(IntErrorKind::PosOverflow));
            return Err(IntErrorKind::PosOverflow);
        }
        assert(acc * 10 + dv <= max) by (nonlinear_arith)
            requires
                acc <= (max - dv) / 10,
                dv <= 9,
        {
        }
        assert(s@.skip(i as int).drop_first() =~= s@.skip(i + 1));
        acc = acc * 10 + dv;
        i = i + 1;
    }
    assert(s@.skip(i as int) =~= Seq::<char>::empty());
    Ok(acc)
}

/// Decimal representation of a signed integer (`Display`).
pub open spec fn signed_decimal(v: int) -> Seq<char> {
    if v < 0 {
        seq!['-'] + decimal((-v) as nat)
    } else {
        decimal(v as nat)
    }
}

/// Formats a 32-bit signed integer in decimal.
pub fn i32_to_decimal(v: i32) -> (r: Vec<char>)
    ensures
        r@ == signed_decimal(v as int),
{
    if v < 0 {
        let m = -(v as i64);
        let mut r: Vec<char> = Vec::new();
        r.push('-');
        append_chars(&mut r, &u64_to_decimal(m as u64));
        r
    } else {
        u64_to_decimal(v as u64)
    }
}

/// What `format!("{:?}", s)` gives for a string: the text in double quotes
/// with special characters escaped.
pub uninterp spec fn str_debug(s: Seq<char>) -> Seq<char>;

/// `Debug` of a string slice; the result is named by `str_debug`.
#[verifier::external_body]
pub(crate) fn debug_str(s: &str) -> (r: String)
    ensures
        r@ == str_debug(s@),
{
    format!("{:?}", s)
}

/// `Debug` of an optional string: `None`, or `Some(` the quoted text `)`.
pub open spec fn opt_str_debug(o: Option<Seq<char>>) -> Seq<char> {
    match o {
        None => "None"@,
        Some(s) => "Some("@ + str_debug(s) + ")"@,
    }
}

/// Formats an optional string as `Debug` does.
pub fn debug_opt_str(o: &Option<String>) -> (r: Vec<char>)
    ensures
        r@ == opt_str_debug(
            match o {
                Some(s) => Some(s@),
                None => None,
            },
        ),
{
    match o {
        None => chars_of("None"),
        Some(s) => {
            let mut v = chars_of("Some(");
            append_chars(&mut v, &chars_of(debug_str(s.as_str()).as_str()));
            append_chars(&mut v, &chars_of(")"));
            v
        },
    }
}

/// `Debug` of page ranges: `[(a, b), (c, d)]`.
pub open spec fn ranges_debug(r: Seq<(u32, u32)>) -> Seq<char> {
    "["@ + join_seqs(
        r.map_values(|p: (u32, u32)| "("@ + decimal(p.0 as nat) + ", "@ + decimal(p.1 as nat) + ")"@),
        ", "@,
    ) + "]"@
}

/// Formats page ranges as `Debug` does.
pub fn debug_ranges(r: &Vec<(u32, u32)>) -> (t: Vec<char>)
    ensures
        t@ == ranges_debug(r@),
{
    let ghost parts = r@.map_values(|p: (u32, u32)| "("@ + decimal(p.0 as nat) + ", "@ + decimal(p.1 as nat) + ")"@);
    let mut t: Vec<char> = Vec::new();
    let mut i: usize = 0;
    while i < r.len()
        invariant
            i <= r.len(),
            parts == r@.map_values(|p: (u32, u32)| "("@ + decimal(p.0 as nat) + ", "@ + decimal(p.1 as nat) + ")"@),
            t@ == join_seqs(parts.take(i as int), ", "@),
        decreases r.len() - i,
    {
        if i > 0 {
            append_chars(&mut t, &chars_of(", "));
        }
        let mut piece = chars_of("(");
        append_chars(&mut piece, &u64_to_decimal(r[i].0 as u64));
        append_chars(&mut piece, &chars_of(", "));
        append_chars(&mut piece, &u64_to_decimal(r[i].1 as u64));
        append_chars(&mut piece, &chars_of(")"));
        append_chars(&mut t, &piece);
        assert(parts.take(i + 1).drop_last() =~= parts.take(i as int));
        i = i + 1;
    }
    assert(parts.take(r.len() as int) =~= parts);
    let mut out = chars_of("[");
    append_chars(&mut out, &t);
    append_chars(&mut out, &chars_of("]"));
    out
}

} // verus!
