//! A PDF document's object graph as plain values, and the lookups that the
//! metadata and outline extraction make in it. The rules follow those of a
//! PDF object store: a dictionary answers the first entry under a key, an
//! object store the first object under an identifier, and an indirect object
//! is followed through at most 128 references.
use vstd::prelude::*;

verus! {

/// An indirect object's number and generation.
pub type ObjectId = (u32, u16);

/// A PDF object. Real numbers and stream contents are not read by the
/// library, so they are not held.
#[derive(Debug)]
pub enum PdfObject {
    Null,
    Boolean(bool),
    Integer(i64),
    Real,
    Name(Vec<u8>),
    Str(Vec<u8>),
    Array(Vec<PdfObject>),
    Dictionary(PdfDictionary),
    Stream(PdfDictionary),
    Reference(ObjectId),
}

/// A dictionary: its entries in order.
#[derive(Debug)]
pub struct PdfDictionary {
    pub entries: Vec<(Vec<u8>, PdfObject)>,
}

/// A loaded document: its objects by identifier, its trailer, and its pages
/// in page order (page number, page object).
#[derive(Debug)]
pub struct PdfDocument {
    pub objects: Vec<(ObjectId, PdfObject)>,
    pub trailer: PdfDictionary,
    pub pages: Vec<(u32, ObjectId)>,
}

/// The bytes of an ASCII key.
pub open spec fn key_of(s: Seq<char>) -> Seq<u8> {
    s.map_values(|c: char| c as u8)
}

/// The bytes of a key written as text.
pub fn key_bytes(s: &str) -> (r: Vec<u8>)
    ensures
        r@ == key_of(s@),
{
    let cs = crate::text::chars_of(s);
    let mut r: Vec<u8> = Vec::new();
    let mut i: usize = 0;
    while i < cs.len()
        invariant
            i <= cs.len(),
            cs@ == s@,
            r@ == key_of(cs@.take(i as int)),
        decreases cs.len() - i,
    {
        r.push(cs[i] as u8);
        assert(key_of(cs@.take(i + 1)) =~= key_of(cs@.take(i as int)).push(cs@[i as int] as u8));
        i = i + 1;
    }
    assert(cs@.take(cs.len() as int) =~= cs@);
    r
}

/// Byte-wise equality.
pub fn bytes_eq(a: &Vec<u8>, b: &Vec<u8>) -> (r: bool)
    ensures
        r == (a@ == b@),
{
    if a.len() != b.len() {
        return false;
    }
    let mut i: usize = 0;
    while i < a.len()
        invariant
            a.len() == b.len(),
            i <= a.len(),
            forall|j: int| 0 <= j < i ==> a@[j] == b@[j],
        decreases a.len() - i,
    {
        if a[i] != b[i] {
            return false;
        }
        i = i + 1;
    }
    assert(a@ =~= b@);
    true
}

/// The value of the first entry under `key`.
pub open spec fn entries_get(e: Seq<(Vec<u8>, PdfObject)>, key: Seq<u8>) -> Option<PdfObject>
    decreases e.len(),
{
    if e.len() == 0 {
        None
    } else if e[0].0@ == key {
        Some(e[0].1)
    } else {
        entries_get(e.drop_first(), key)
    }
}

/// The value of a dictionary under `key`.
pub open spec fn dict_get(d: PdfDictionary, key: Seq<u8>) -> Option<PdfObject> {
    entries_get(d.entries@, key)
}

impl PdfDictionary {
    /// The value under `key`, if there is one.
    pub fn get(&self, key: &Vec<u8>) -> (r: Option<&PdfObject>)
        ensures
            match r {
                Some(o) => dict_get(*self, key@) == Some(*o),
                None => dict_get(*self, key@) is None,
            },
    {
        let mut i: usize = 0;
        assert(self.entries@.skip(0) =~= self.entries@);
        while i < self.entries.len()
            invariant
                i <= self.entries.len(),
                dict_get(*self, key@) == entries_get(self.entries@.skip(i as int), key@),
            decreases self.entries.len() - i,
        {
            assert(self.entries@.skip(i as int)[0] == self.entries@[i as int]);
            if bytes_eq(&self.entries[i].0, key) {
                return Some(&self.entries[i].1);
            }
            assert(self.entries@.skip(i as int).drop_first() =~= self.entries@.skip(i + 1));
            i = i + 1;
        }
        None
    }
}

/// The first object stored under `id`.
pub open spec fn objects_get(o: Seq<(ObjectId, PdfObject)>, id: ObjectId) -> Option<PdfObject>
    decreases o.len(),
{
    if o.len() == 0 {
        None
    } else if o[0].0 == id {
        Some(o[0].1)
    } else {
        objects_get(o.drop_first(), id)
    }
}

/// Follows references from `obj`; `fuel` is the number of further
/// references that may still be followed.
pub open spec fn deref_within(doc: PdfDocument, obj: PdfObject, fuel: nat) -> Option<PdfObject>
    decreases fuel,
{
    match obj {
        PdfObject::Reference(id) => match objects_get(doc.objects@, id) {
            None => None,
            Some(o) => if fuel == 0 {
                None
            } else {
                deref_within(doc, o, (fuel - 1) as nat)
            },
        },
        _ => Some(obj),
    }
}

/// The number of references that may be followed in a chain.
pub open spec fn deref_limit() -> nat {
    128
}

/// The object under `id`, with references followed.
pub open spec fn get_object(doc: PdfDocument, id: ObjectId) -> Option<PdfObject> {
    match objects_get(doc.objects@, id) {
        None => None,
        Some(o) => deref_within(doc, o, deref_limit()),
    }
}

/// The dictionary an object is, if it is one.
pub open spec fn as_dict(o: Option<PdfObject>) -> Option<PdfDictionary> {
    match o {
        Some(PdfObject::Dictionary(d)) => Some(d),
        _ => None,
    }
}

/// The bytes of a string object.
pub open spec fn as_text(o: Option<PdfObject>) -> Option<Seq<u8>> {
    match o {
        Some(PdfObject::Str(b)) => Some(b@),
        _ => None,
    }
}

/// The identifier a reference object names.
pub open spec fn as_reference(o: Option<PdfObject>) -> Option<ObjectId> {
    match o {
        Some(PdfObject::Reference(id)) => Some(id),
        _ => None,
    }
}

/// The dictionary stored under `id`, references followed.
pub open spec fn get_dictionary(doc: PdfDocument, id: ObjectId) -> Option<PdfDictionary> {
    as_dict(get_object(doc, id))
}

/// The document catalog: the dictionary the trailer's `Root` refers to.
pub open spec fn catalog(doc: PdfDocument) -> Option<PdfDictionary> {
    match as_reference(dict_get(doc.trailer, key_of("Root"@))) {
        Some(id) => get_dictionary(doc, id),
        None => None,
    }
}

impl PdfDocument {
    /// The first object stored under `id`, without following references.
    pub fn lookup(&self, id: ObjectId) -> (r: Option<&PdfObject>)
        ensures
            match r {
                Some(o) => objects_get(self.objects@, id) == Some(*o),
                None => objects_get(self.objects@, id) is None,
            },
    {
        let mut i: usize = 0;
        assert(self.objects@.skip(0) =~= self.objects@);
        while i < self.objects.len()
            invariant
                i <= self.objects.len(),
                objects_get(self.objects@, id) == objects_get(self.objects@.skip(i as int), id),
            decreases self.objects.len() - i,
        {
            assert(self.objects@.skip(i as int)[0] == self.objects@[i as int]);
            if self.objects[i].0.0 == id.0 && self.objects[i].0.1 == id.1 {
                return Some(&self.objects[i].1);
            }
            assert(self.objects@.skip(i as int).drop_first() =~= self.objects@.skip(i + 1));
            i = i + 1;
        }
        None
    }

    /// The object under `id` with references followed, as `get_object`
    /// describes.
    pub fn get_object(&self, id: ObjectId) -> (r: Option<&PdfObject>)
        ensures
            match r {
                Some(o) => get_object(*self, id) == Some(*o),
                None => get_object(*self, id) is None,
            },
    {
        let first = self.lookup(id);
        match first {
            None => None,
            Some(o) => {
                let mut cur: &PdfObject = o;
                let mut fuel: u32 = 128;
                loop
                    invariant
                        fuel <= 128,
                        get_object(*self, id) == deref_within(*self, *cur, fuel as nat),
                    decreases fuel,
                {
                    match cur {
                        PdfObject::Reference(rid) => {
                            match self.lookup(*rid) {
                                None => {
                                    return None;
                                },
                                Some(next) => {
                                    if fuel == 0 {
                                        return None;
                                    }
                                    cur = next;
                                    fuel = fuel - 1;
                                },
                            }
                        },
                        _ => {
                            return Some(cur);
                        },
                    }
                }
            },
        }
    }

    /// The dictionary stored under `id`, references followed.
    pub fn get_dictionary(&self, id: ObjectId) -> (r: Option<&PdfDictionary>)
        ensures
            match r {
                Some(d) => get_dictionary(*self, id) == Some(*d),
                None => get_dictionary(*self, id) is None,
            },
    {
        match self.get_object(id) {
            Some(PdfObject::Dictionary(d)) => Some(d),
            _ => None,
        }
    }

    /// The document catalog.
    pub fn catalog(&self) -> (r: Option<&PdfDictionary>)
        ensures
            match r {
                Some(d) => catalog(*self) == Some(*d),
                None => catalog(*self) is None,
            },
    {
        match self.trailer.get(&key_bytes("Root")) {
            Some(PdfObject::Reference(id)) => self.get_dictionary(*id),
            _ => None,
        }
    }
}

// ---------------------------------------------------------------------------
// Text strings
// ---------------------------------------------------------------------------

/// What `String::from_utf8_lossy` gives for a byte string: its UTF-8
/// decoding, with each invalid sequence replaced by U+FFFD.
pub uninterp spec fn utf8_lossy(b: Seq<u8>) -> Seq<char>;

/// The UTF-16 decoding of code units: a unit outside the surrogate range is
/// its own character, a high surrogate followed by a low one is the
/// character they encode together, and each other (unpaired) surrogate
/// becomes U+FFFD, decoding going on with the unit after it.
pub open spec fn utf16_lossy(u: Seq<u16>) -> Seq<char>
    decreases u.len(),
{
    if u.len() == 0 {
        Seq::empty()
    } else if u[0] < 0xD800 || u[0] > 0xDFFF {
        seq![(u[0] as u32) as char] + utf16_lossy(u.drop_first())
    } else if u[0] <= 0xDBFF && u.len() >= 2 && 0xDC00 <= u[1] && u[1] <= 0xDFFF {
        seq![surrogate_pair_char(u[0], u[1])] + utf16_lossy(u.skip(2))
    } else {
        seq!['\u{FFFD}'] + utf16_lossy(u.drop_first())
    }
}

/// The character that a high and a low surrogate encode together.
pub open spec fn surrogate_pair_char(hi: u16, lo: u16) -> char {
    ((0x10000 + (hi - 0xD800) * 0x400 + (lo - 0xDC00)) as u32) as char
}

/// `String::from_utf8_lossy`. The result is named by `utf8_lossy`; on valid
/// UTF-8 it is the decoding, which the contract states.
#[verifier::external_body]
pub(crate) fn utf8_lossy_string(b: &[u8]) -> (r: String)
    ensures
        r@ == utf8_lossy(b@),
        vstd::utf8::valid_utf8(b@) ==> r@ == vstd::utf8::decode_utf8(b@),
{
    String::from_utf8_lossy(b).into_owned()
}

/// `String::from_utf16_lossy`: the code units decoded as UTF-16, each
/// unpaired surrogate replaced by U+FFFD, as `utf16_lossy` states.
#[verifier::external_body]
pub(crate) fn utf16_lossy_string(u: &[u16]) -> (r: String)
    ensures
        r@ == utf16_lossy(u@),
{
    String::from_utf16_lossy(u)
}

/// Big-endian 16-bit units of `b`, a trailing odd byte dropped.
pub open spec fn be_units(b: Seq<u8>) -> Seq<u16> {
    Seq::new(b.len() / 2, |i: int| ((b[2 * i] as int) * 256 + (b[2 * i + 1] as int)) as u16)
}

/// Little-endian 16-bit units of `b`, a trailing odd byte dropped.
pub open spec fn le_units(b: Seq<u8>) -> Seq<u16> {
    Seq::new(b.len() / 2, |i: int| ((b[2 * i + 1] as int) * 256 + (b[2 * i] as int)) as u16)
}

/// The text of a PDF string: UTF-16 after a byte order mark (big-endian
/// `FE FF`, little-endian `FF FE`) when at least four bytes long, UTF-8
/// otherwise; undecodable parts become U+FFFD.
pub open spec fn decode_pdf_text(b: Seq<u8>) -> Seq<char> {
    if b.len() >= 4 && b[0] == 0xFEu8 && b[1] == 0xFFu8 {
        utf16_lossy(be_units(b.skip(2)))
    } else if b.len() >= 4 && b[0] == 0xFFu8 && b[1] == 0xFEu8 {
        utf16_lossy(le_units(b.skip(2)))
    } else {
        utf8_lossy(b)
    }
}

fn units_of(b: &[u8], big_endian: bool) -> (r: Vec<u16>)
    requires
        b@.len() >= 2,
    ensures
        big_endian ==> r@ == be_units(b@.skip(2)),
        !big_endian ==> r@ == le_units(b@.skip(2)),
{
    let mut r: Vec<u16> = Vec::new();
    let n = (b.len() - 2) / 2;
    let mut i: usize = 0;
    while i < n
        invariant
            n == (b@.len() - 2) / 2,
            b@.len() >= 2,
            i <= n,
            r@.len() == i,
            big_endian ==> forall|k: int| 0 <= k < i ==> r@[k] == be_units(b@.skip(2))[k],
            !big_endian ==> forall|k: int| 0 <= k < i ==> r@[k] == le_units(b@.skip(2))[k],
        decreases n - i,
    {
        assert(2 * i + 4 <= b@.len());
        assert(b@.len() == b.len());
        let hi_i: usize = 2 + 2 * i;
        let x = b[hi_i];
        let y = b[hi_i + 1];
        let u: u16 = if big_endian {
            (x as u16) * 256 + (y as u16)
        } else {
            (y as u16) * 256 + (x as u16)
        };
        r.push(u);
        i = i + 1;
    }
    assert(big_endian ==> r@ =~= be_units(b@.skip(2)));
    assert(!big_endian ==> r@ =~= le_units(b@.skip(2)));
    r
}

/// Decodes a PDF text string as `decode_pdf_text` describes; valid UTF-8
/// without a byte order mark decodes to the text it encodes.
pub fn decode_pdf_string(bytes: &[u8]) -> (r: String)
    ensures
        r@ == decode_pdf_text(bytes@),
        !(bytes@.len() >= 4 && ((bytes@[0] == 0xFEu8 && bytes@[1] == 0xFFu8) || (bytes@[0] == 0xFFu8
            && bytes@[1] == 0xFEu8))) && vstd::utf8::valid_utf8(bytes@) ==> r@
            == vstd::utf8::decode_utf8(bytes@),
{
    if bytes.len() >= 4 && bytes[0] == 0xFE && bytes[1] == 0xFF {
        let u = units_of(bytes, true);
        return utf16_lossy_string(u.as_slice());
    } else if bytes.len() >= 4 && bytes[0] == 0xFF && bytes[1] == 0xFE {
        let u = units_of(bytes, false);
        return utf16_lossy_string(u.as_slice());
    }
    utf8_lossy_string(bytes)
}

// ---------------------------------------------------------------------------
// Dates
// ---------------------------------------------------------------------------

/// The number of bytes of `c` in UTF-8.
pub open spec fn utf8_width(c: char) -> nat {
    let v = c as u32;
    if v < 0x80 {
        1
    } else if v < 0x800 {
        2
    } else if v < 0x10000 {
        3
    } else {
        4
    }
}

fn utf8_width_exec(c: char) -> (r: usize)
    ensures
        r == utf8_width(c),
{
    let v = c as u32;
    if v < 0x80 {
        1
    } else if v < 0x800 {
        2
    } else if v < 0x10000 {
        3
    } else {
        4
    }
}

/// The index of the character that starts at byte offset `b` of the UTF-8
/// encoding of `s` (the length of `s` for the end), if `b` falls on a
/// character boundary.
pub open spec fn char_at_byte(s: Seq<char>, b: nat) -> Option<nat>
    decreases s.len(),
{
    if b == 0 {
        Some(0)
    } else if s.len() == 0 {
        None
    } else if utf8_width(s[0]) > b {
        None
    } else {
        match char_at_byte(s.drop_first(), (b - utf8_width(s[0])) as nat) {
            Some(k) => Some(k + 1),
            None => None,
        }
    }
}

/// `str::get(a..b)` on a string: the characters between byte offsets `a` and
/// `b` when both fall on character boundaries.
pub open spec fn byte_slice(s: Seq<char>, a: nat, b: nat) -> Option<Seq<char>> {
    match (char_at_byte(s, a), char_at_byte(s, b)) {
        (Some(i), Some(j)) => if i <= j {
            Some(s.subrange(i as int, j as int))
        } else {
            None
        },
        _ => None,
    }
}

/// `s` has at least `n` bytes in UTF-8.
pub open spec fn byte_len_at_least(s: Seq<char>, n: nat) -> bool
    decreases s.len(),
{
    if n == 0 {
        true
    } else if s.len() == 0 {
        false
    } else {
        utf8_width(s[0]) >= n || byte_len_at_least(s.drop_first(), (n - utf8_width(s[0])) as nat)
    }
}

fn char_index_at_byte(s: &Vec<char>, b: usize) -> (r: Option<usize>)
    ensures
        match r {
            Some(k) => char_at_byte(s@, b as nat) == Some(k as nat) && k <= s.len(),
            None => char_at_byte(s@, b as nat) is None,
        },
{
    let mut i: usize = 0;
    let mut acc: usize = 0;
    assert(s@.skip(0) =~= s@);
    while i < s.len() && acc < b
        invariant
            i <= s.len(),
            acc <= b,
            char_at_byte(s@, b as nat) == match char_at_byte(s@.skip(i as int), (b - acc) as nat) {
                Some(k) => Some((k + i) as nat),
                None => None,
            },
        decreases s.len() - i,
    {
        let w = utf8_width_exec(s[i]);
        assert(s@.skip(i as int)[0] == s@[i as int]);
        assert(s@.skip(i as int).drop_first() =~= s@.skip(i + 1));
        if w > b - acc {
            return None;
        }
        acc = acc + w;
        i = i + 1;
    }
    if acc == b {
        Some(i)
    } else {
        assert(s@.skip(i as int).len() == 0);
        None
    }
}

fn has_byte_len(s: &Vec<char>, n: usize) -> (r: bool)
    ensures
        r == byte_len_at_least(s@, n as nat),
{
    let mut i: usize = 0;
    let mut need: usize = n;
    assert(s@.skip(0) =~= s@);
    while i < s.len() && need > 0
        invariant
            i <= s.len(),
            byte_len_at_least(s@, n as nat) == byte_len_at_least(s@.skip(i as int), need as nat),
        decreases s.len() - i,
    {
        let w = utf8_width_exec(s[i]);
        assert(s@.skip(i as int)[0] == s@[i as int]);
        assert(s@.skip(i as int).drop_first() =~= s@.skip(i + 1));
        if w >= need {
            return true;
        }
        need = need - w;
        i = i + 1;
    }
    need == 0
}

fn byte_slice_exec(s: &Vec<char>, a: usize, b: usize) -> (r: Option<Vec<char>>)
    ensures
        match r {
            Some(v) => byte_slice(s@, a as nat, b as nat) == Some(v@),
            None => byte_slice(s@, a as nat, b as nat) is None,
        },
{
    match (char_index_at_byte(s, a), char_index_at_byte(s, b)) {
        (Some(i), Some(j)) => if i <= j {
            Some(crate::text::slice_chars(s, i, j))
        } else {
            None
        },
        _ => None,
    }
}

/// `s` with every leading `D:` removed.
pub open spec fn strip_date_prefix(s: Seq<char>) -> Seq<char>
    decreases s.len(),
{
    if s.len() >= 2 && s[0] == 'D' && s[1] == ':' {
        strip_date_prefix(s.skip(2))
    } else {
        s
    }
}

/// The part of `s` before its first apostrophe (all of `s` without one).
pub open spec fn before_apostrophe(s: Seq<char>) -> Seq<char> {
    match crate::text::first_index_of(s, '\'') {
        Some(i) => s.take(i),
        None => s,
    }
}

/// A PDF date (`D:YYYYMMDDHHmmSS...`) in ISO form: `YYYY-MM-DDTHH:mm:SS` when
/// at least fourteen bytes remain after removing the `D:` prefixes and
/// everything from the first apostrophe, `YYYY-MM-DD` when at least eight do;
/// `None` when fewer remain or a cut falls inside a character.
pub open spec fn pdf_date_text(date: Seq<char>) -> Option<Seq<char>> {
    let s = before_apostrophe(strip_date_prefix(date));
    if byte_len_at_least(s, 14) {
        match (
            byte_slice(s, 0, 4),
            byte_slice(s, 4, 6),
            byte_slice(s, 6, 8),
            byte_slice(s, 8, 10),
            byte_slice(s, 10, 12),
            byte_slice(s, 12, 14),
        ) {
            (Some(y), Some(mo), Some(d), Some(h), Some(mi), Some(se)) => Some(
                y + seq!['-'] + mo + seq!['-'] + d + seq!['T'] + h + seq![':'] + mi + seq![':']
                    + se,
            ),
            _ => None,
        }
    } else if byte_len_at_least(s, 8) {
        match (byte_slice(s, 0, 4), byte_slice(s, 4, 6), byte_slice(s, 6, 8)) {
            (Some(y), Some(mo), Some(d)) => Some(y + seq!['-'] + mo + seq!['-'] + d),
            _ => None,
        }
    } else {
        None
    }
}

fn strip_date_prefix_exec(s: &Vec<char>) -> (r: Vec<char>)
    ensures
        r@ == strip_date_prefix(s@),
{
    let mut i: usize = 0;
    assert(s@.skip(0) =~= s@);
    while s.len() - i >= 2 && s[i] == 'D' && s[i + 1] == ':'
        invariant
            i <= s.len(),
            strip_date_prefix(s@) == strip_date_prefix(s@.skip(i as int)),
        decreases s.len() - i,
    {
        assert(s@.skip(i as int).skip(2) =~= s@.skip(i + 2));
        i = i + 2;
    }
    let r = crate::text::slice_chars(s, i, s.len());
    assert(r@ =~= s@.skip(i as int));
    r
}

fn push_str_chars(v: &mut Vec<char>, part: &Vec<char>, sep: char)
    ensures
        final(v)@ == old(v)@ + seq![sep] + part@,
{
    v.push(sep);
    crate::text::append_chars(v, part);
}

/// Turns a PDF date into ISO form as `pdf_date_text` describes.
pub fn parse_pdf_date(pdf_date: &str) -> (r: Option<String>)
    ensures
        match r {
            Some(t) => pdf_date_text(pdf_date@) == Some(t@),
            None => pdf_date_text(pdf_date@) is None,
        },
{
    let all = crate::text::chars_of(pdf_date);
    let stripped = strip_date_prefix_exec(&all);
    let s = match crate::text::find_char(&stripped, '\'') {
        Some(i) => crate::text::slice_chars(&stripped, 0, i),
        None => stripped,
    };
    assert(s@ == before_apostrophe(strip_date_prefix(pdf_date@)));
    if has_byte_len(&s, 14) {
        let y = byte_slice_exec(&s, 0, 4);
        let mo = byte_slice_exec(&s, 4, 6);
        let d = byte_slice_exec(&s, 6, 8);
        let h = byte_slice_exec(&s, 8, 10);
        let mi = byte_slice_exec(&s, 10, 12);
        let se = byte_slice_exec(&s, 12, 14);
        match (y, mo, d, h, mi, se) {
            (Some(y), Some(mo), Some(d), Some(h), Some(mi), Some(se)) => {
                let mut out = y;
                push_str_chars(&mut out, &mo, '-');
                push_str_chars(&mut out, &d, '-');
                push_str_chars(&mut out, &h, 'T');
                push_str_chars(&mut out, &mi, ':');
                push_str_chars(&mut out, &se, ':');
                Some(crate::text::string_of(&out))
            },
            _ => None,
        }
    } else if has_byte_len(&s, 8) {
        let y = byte_slice_exec(&s, 0, 4);
        let mo = byte_slice_exec(&s, 4, 6);
        let d = byte_slice_exec(&s, 6, 8);
        match (y, mo, d) {
            (Some(y), Some(mo), Some(d)) => {
                let mut out = y;
                push_str_chars(&mut out, &mo, '-');
                push_str_chars(&mut out, &d, '-');
                Some(crate::text::string_of(&out))
            },
            _ => None,
        }
    } else {
        None
    }
}

/// Over a text whose first `n` characters are ASCII, byte offsets up to `n`
/// are character offsets.
proof fn lemma_ascii_offsets(s: Seq<char>, n: nat, b: nat)
    requires
        n <= s.len(),
        b <= n,
        forall|i: int| 0 <= i < n ==> (#[trigger] s[i] as u32) < 0x80,
    ensures
        char_at_byte(s, b) == Some(b),
        byte_len_at_least(s, b),
    decreases b,
{
    if b > 0 {
        assert((s[0] as u32) < 0x80);
        assert forall|i: int| 0 <= i < n - 1 implies (#[trigger] s.drop_first()[i] as u32) < 0x80 by {
            assert(s.drop_first()[i] == s[i + 1]);
        }
        lemma_ascii_offsets(s.drop_first(), (n - 1) as nat, (b - 1) as nat);
    }
}

/// A date written `D:` and fourteen digits `YYYYMMDDHHmmSS`, whatever
/// follows (a time zone such as `+08'00'`), reads in ISO form as
/// `YYYY-MM-DDTHH:mm:SS`: the year, month and day in the first eight digits,
/// then the hour, minutes and seconds in the last six, in that order.
pub proof fn law_pdf_date_fields(digits: Seq<char>, rest: Seq<char>)
    requires
        digits.len() == 14,
        forall|i: int| 0 <= i < 14 ==> crate::text::is_digit(#[trigger] digits[i]),
    ensures
        pdf_date_text(seq!['D', ':'] + digits + rest) == Some(
            seq![
                digits[0], digits[1], digits[2], digits[3], '-', digits[4], digits[5], '-',
                digits[6], digits[7], 'T', digits[8], digits[9], ':', digits[10], digits[11], ':',
                digits[12], digits[13],
            ],
        ),
{
    let date = seq!['D', ':'] + digits + rest;
    let body = digits + rest;
    assert(date.skip(2) =~= body);
    assert(crate::text::is_digit(digits[0]));
    assert(body[0] == digits[0]);
    assert(strip_date_prefix(body) == body);
    assert(strip_date_prefix(date) == body);
    crate::text::lemma_first_index_of(body, '\'');
    let s = before_apostrophe(body);
    match crate::text::first_index_of(body, '\'') {
        Some(k) => {
            if k < 14 {
                assert(body[k] == digits[k]);
                assert(crate::text::is_digit(digits[k]));
            }
            assert(s =~= body.take(k));
        },
        None => {},
    }
    assert(s.len() >= 14);
    assert forall|i: int| 0 <= i < 14 implies s[i] == digits[i] by {
        assert(body[i] == digits[i]);
    }
    assert forall|i: int| 0 <= i < 14 implies (#[trigger] s[i] as u32) < 0x80 by {
        assert(s[i] == digits[i]);
        assert(crate::text::is_digit(digits[i]));
    }
    lemma_ascii_offsets(s, 14, 14);
    lemma_ascii_offsets(s, 14, 12);
    lemma_ascii_offsets(s, 14, 10);
    lemma_ascii_offsets(s, 14, 8);
    lemma_ascii_offsets(s, 14, 6);
    lemma_ascii_offsets(s, 14, 4);
    lemma_ascii_offsets(s, 14, 0);
    assert(pdf_date_text(date) == Some(
        s.subrange(0, 4) + seq!['-'] + s.subrange(4, 6) + seq!['-'] + s.subrange(6, 8) + seq!['T']
            + s.subrange(8, 10) + seq![':'] + s.subrange(10, 12) + seq![':'] + s.subrange(12, 14),
    ));
    assert(s.subrange(0, 4) + seq!['-'] + s.subrange(4, 6) + seq!['-'] + s.subrange(6, 8) + seq!['T']
        + s.subrange(8, 10) + seq![':'] + s.subrange(10, 12) + seq![':'] + s.subrange(12, 14) =~= seq![
        digits[0], digits[1], digits[2], digits[3], '-', digits[4], digits[5], '-',
        digits[6], digits[7], 'T', digits[8], digits[9], ':', digits[10], digits[11], ':',
        digits[12], digits[13],
    ]);
}

// ---------------------------------------------------------------------------
// Pages and named destinations
// ---------------------------------------------------------------------------

/// The page number of a page object: the last page listed with it.
pub open spec fn page_of(pages: Seq<(u32, ObjectId)>, id: ObjectId) -> Option<u32>
    decreases pages.len(),
{
    if pages.len() == 0 {
        None
    } else if pages.last().1 == id {
        Some(pages.last().0)
    } else {
        page_of(pages.drop_last(), id)
    }
}

/// The page number of a page object, as `page_of` describes.
pub fn page_of_exec(pages: &Vec<(u32, ObjectId)>, id: ObjectId) -> (r: Option<u32>)
    ensures
        r == page_of(pages@, id),
{
    let mut i: usize = pages.len();
    assert(pages@.take(i as int) =~= pages@);
    while i > 0
        invariant
            i <= pages.len(),
            page_of(pages@, id) == page_of(pages@.take(i as int), id),
        decreases i,
    {
        assert(pages@.take(i as int).last() == pages@[i - 1]);
        assert(pages@.take(i as int).drop_last() =~= pages@.take(i - 1));
        if pages[i - 1].1.0 == id.0 && pages[i - 1].1.1 == id.1 {
            return Some(pages[i - 1].0);
        }
        i = i - 1;
    }
    None
}

/// Named destinations in the order they were found: (name, target object).
pub open spec fn dests_view(d: Seq<(String, ObjectId)>) -> Seq<(Seq<char>, ObjectId)> {
    d.map_values(|p: (String, ObjectId)| (p.0@, p.1))
}

/// The target of a name: the last one recorded under it.
pub open spec fn dest_lookup(d: Seq<(Seq<char>, ObjectId)>, name: Seq<char>) -> Option<ObjectId>
    decreases d.len(),
{
    if d.len() == 0 {
        None
    } else if d.last().0 == name {
        Some(d.last().1)
    } else {
        dest_lookup(d.drop_last(), name)
    }
}

fn dest_lookup_exec(d: &Vec<(String, ObjectId)>, name: &String) -> (r: Option<ObjectId>)
    ensures
        r == dest_lookup(dests_view(d@), name@),
{
    let mut i: usize = d.len();
    assert(d@.take(i as int) =~= d@);
    while i > 0
        invariant
            i <= d.len(),
            dest_lookup(dests_view(d@), name@) == dest_lookup(dests_view(d@.take(i as int)), name@),
        decreases i,
    {
        assert(dests_view(d@.take(i as int)).last() == (d@[i - 1].0@, d@[i - 1].1));
        assert(dests_view(d@.take(i as int)).drop_last() =~= dests_view(d@.take(i - 1)));
        if d[i - 1].0 == *name {
            return Some(d[i - 1].1);
        }
        i = i - 1;
    }
    None
}

/// The (name, target) pairs of a name-tree `Names` array, from index `i` on:
/// each even position holding a string followed by a reference.
pub open spec fn name_pairs(a: Seq<PdfObject>, i: nat) -> Seq<(Seq<char>, ObjectId)>
    decreases a.len() - i,
{
    if i + 1 < a.len() {
        let own = match (a[i as int], a[(i + 1) as int]) {
            (PdfObject::Str(b), PdfObject::Reference(id)) => seq![(utf8_lossy(b@), id)],
            _ => seq![],
        };
        own + name_pairs(a, i + 2)
    } else {
        seq![]
    }
}

/// The destinations of the name-tree node `id` and of its kids, in the order
/// the tree is walked; `fuel` bounds the depth of the walk.
pub open spec fn dests_from_tree(doc: PdfDocument, id: ObjectId, fuel: nat) -> Seq<
    (Seq<char>, ObjectId),
>
    decreases fuel, 0nat,
{
    if fuel == 0 {
        seq![]
    } else {
        match get_dictionary(doc, id) {
            None => seq![],
            Some(node) => {
                let own = match dict_get(node, key_of("Names"@)) {
                    Some(PdfObject::Array(a)) => name_pairs(a@, 0),
                    _ => seq![],
                };
                let kids = match dict_get(node, key_of("Kids"@)) {
                    Some(PdfObject::Array(k)) => dests_from_kids(doc, k@, (fuel - 1) as nat),
                    _ => seq![],
                };
                own + kids
            },
        }
    }
}

/// The destinations under each referenced kid, in order.
pub open spec fn dests_from_kids(doc: PdfDocument, kids: Seq<PdfObject>, fuel: nat) -> Seq<
    (Seq<char>, ObjectId),
>
    decreases fuel, kids.len() + 1,
{
    if kids.len() == 0 {
        seq![]
    } else {
        let first = match kids[0] {
            PdfObject::Reference(id) => dests_from_tree(doc, id, fuel),
            _ => seq![],
        };
        first + dests_from_kids(doc, kids.drop_first(), fuel)
    }
}

/// How deep a walk through the object graph may go: one step per object
/// (a walk that goes deeper visits some object twice, i.e. follows a cycle).
pub open spec fn walk_fuel(doc: PdfDocument) -> nat {
    if doc.objects@.len() < 0xffff_ffff {
        doc.objects@.len()
    } else {
        0xffff_ffff
    }
}

fn walk_fuel_exec(doc: &PdfDocument) -> (r: u32)
    ensures
        r == walk_fuel(*doc),
{
    if doc.objects.len() < 0xffff_ffff {
        doc.objects.len() as u32
    } else {
        0xffff_ffff
    }
}

/// All named destinations of the document: the catalog's `Names` dictionary's
/// `Dests` tree.
pub open spec fn document_dests(doc: PdfDocument) -> Seq<(Seq<char>, ObjectId)> {
    match catalog(doc) {
        None => seq![],
        Some(cat) => match as_reference(dict_get(cat, key_of("Names"@))) {
            None => seq![],
            Some(names_id) => match get_dictionary(doc, names_id) {
                None => seq![],
                Some(names) => match as_reference(dict_get(names, key_of("Dests"@))) {
                    None => seq![],
                    Some(dests_id) => dests_from_tree(doc, dests_id, walk_fuel(doc)),
                },
            },
        },
    }
}

fn collect_name_pairs(a: &Vec<PdfObject>, out: &mut Vec<(String, ObjectId)>)
    ensures
        dests_view(final(out)@) == dests_view(old(out)@) + name_pairs(a@, 0),
{
    let mut i: usize = 0;
    while i + 1 < a.len()
        invariant
            i <= a.len(),
            i % 2 == 0,
            dests_view(old(out)@) + name_pairs(a@, 0) == dests_view(out@) + name_pairs(
                a@,
                i as nat,
            ),
        decreases a.len() - i,
    {
        match (&a[i], &a[i + 1]) {
            (PdfObject::Str(b), PdfObject::Reference(id)) => {
                let name = utf8_lossy_string(b.as_slice());
                out.push((name, *id));
                assert(dests_view(out@) =~= dests_view(out@.drop_last()).push(
                    (name@, *id),
                ));
            },
            _ => {},
        }
        i = i + 2;
    }
    assert(name_pairs(a@, i as nat) == Seq::<(Seq<char>, ObjectId)>::empty());
}

fn collect_dests_from_tree(
    doc: &PdfDocument,
    node_id: ObjectId,
    fuel: u32,
    dest_map: &mut Vec<(String, ObjectId)>,
)
    ensures
        dests_view(final(dest_map)@) == dests_view(old(dest_map)@) + dests_from_tree(
            *doc,
            node_id,
            fuel as nat,
        ),
    decreases fuel, 0nat,
{
    if fuel == 0 {
        return ;
    }
    match doc.get_dictionary(node_id) {
        None => {},
        Some(node) => {
            match node.get(&key_bytes("Names")) {
                Some(PdfObject::Array(a)) => collect_name_pairs(a, dest_map),
                _ => {},
            }
            match node.get(&key_bytes("Kids")) {
                Some(PdfObject::Array(k)) => collect_dests_from_kids(doc, k, fuel - 1, dest_map),
                _ => {},
            }
        },
    }
}

fn collect_dests_from_kids(
    doc: &PdfDocument,
    kids: &Vec<PdfObject>,
    fuel: u32,
    dest_map: &mut Vec<(String, ObjectId)>,
)
    ensures
        dests_view(final(dest_map)@) == dests_view(old(dest_map)@) + dests_from_kids(
            *doc,
            kids@,
            fuel as nat,
        ),
    decreases fuel, kids@.len() + 1,
{
    let mut i: usize = 0;
    assert(kids@.skip(0) =~= kids@);
    while i < kids.len()
        invariant
            i <= kids.len(),
            dests_view(old(dest_map)@) + dests_from_kids(*doc, kids@, fuel as nat) == dests_view(
                dest_map@,
            ) + dests_from_kids(*doc, kids@.skip(i as int), fuel as nat),
        decreases kids.len() - i,
    {
        assert(kids@.skip(i as int)[0] == kids@[i as int]);
        assert(kids@.skip(i as int).drop_first() =~= kids@.skip(i + 1));
        match &kids[i] {
            PdfObject::Reference(id) => {
                collect_dests_from_tree(doc, *id, fuel, dest_map);
            },
            _ => {},
        }
        i = i + 1;
    }
    assert(kids@.skip(i as int) =~= Seq::<PdfObject>::empty());
}

/// Collects all named destinations, as `document_dests` describes.
pub fn build_dest_map(doc: &PdfDocument) -> (r: Vec<(String, ObjectId)>)
    ensures
        dests_view(r@) == document_dests(*doc),
{
    let mut dest_map: Vec<(String, ObjectId)> = Vec::new();
    assert(dests_view(dest_map@) =~= Seq::<(Seq<char>, ObjectId)>::empty());
    match doc.catalog() {
        None => {},
        Some(cat) => match cat.get(&key_bytes("Names")) {
            Some(PdfObject::Reference(names_id)) => match doc.get_dictionary(*names_id) {
                None => {},
                Some(names) => match names.get(&key_bytes("Dests")) {
                    Some(PdfObject::Reference(dests_id)) => {
                        let fuel = walk_fuel_exec(doc);
                        collect_dests_from_tree(doc, *dests_id, fuel, &mut dest_map);
                    },
                    _ => {},
                },
            },
            _ => {},
        },
    }
    dest_map
}

// ---------------------------------------------------------------------------
// Outline (table of contents)
// ---------------------------------------------------------------------------

/// One line of the table of contents.
#[derive(Debug)]
pub struct TocEntry {
    pub title: String,
    pub level: u32,
    pub page: Option<u32>,
}

/// A table of contents line as (title, level, page).
pub open spec fn toc_view(e: TocEntry) -> (Seq<char>, nat, Option<u32>) {
    (e.title@, e.level as nat, e.page)
}

/// The lines of a table of contents.
pub open spec fn tocs_view(v: Seq<TocEntry>) -> Seq<(Seq<char>, nat, Option<u32>)> {
    v.map_values(|e: TocEntry| toc_view(e))
}

/// The page of an explicit destination array: the page its first element
/// refers to.
pub open spec fn page_from_array(a: Seq<PdfObject>, pages: Seq<(u32, ObjectId)>) -> Option<u32> {
    if a.len() > 0 {
        match a[0] {
            PdfObject::Reference(id) => page_of(pages, id),
            _ => None,
        }
    } else {
        None
    }
}

/// The page an outline item's action or destination leads to: the action
/// dictionary (possibly referenced) has a `D` that is either an explicit
/// destination array or a name looked up among the named destinations, whose
/// dictionary's `D` array gives the page.
pub open spec fn page_number(
    doc: PdfDocument,
    action: PdfObject,
    dests: Seq<(Seq<char>, ObjectId)>,
) -> Option<u32> {
    let target = match action {
        PdfObject::Reference(id) => get_dictionary(doc, id),
        _ => as_dict(Some(action)),
    };
    match target {
        None => None,
        Some(t) => match dict_get(t, key_of("D"@)) {
            Some(PdfObject::Str(b)) => match dest_lookup(dests, utf8_lossy(b@)) {
                None => None,
                Some(did) => match get_dictionary(doc, did) {
                    None => None,
                    Some(dd) => match dict_get(dd, key_of("D"@)) {
                        Some(PdfObject::Array(a)) => page_from_array(a@, doc.pages@),
                        _ => None,
                    },
                },
            },
            Some(PdfObject::Array(a)) => page_from_array(a@, doc.pages@),
            _ => None,
        },
    }
}

fn page_from_array_exec(a: &Vec<PdfObject>, pages: &Vec<(u32, ObjectId)>) -> (r: Option<u32>)
    ensures
        r == page_from_array(a@, pages@),
{
    if a.len() > 0 {
        match &a[0] {
            PdfObject::Reference(id) => page_of_exec(pages, *id),
            _ => None,
        }
    } else {
        None
    }
}

/// The page an outline action leads to, as `page_number` describes.
pub fn extract_page_number(
    doc: &PdfDocument,
    action_obj: &PdfObject,
    dest_map: &Vec<(String, ObjectId)>,
) -> (r: Option<u32>)
    ensures
        r == page_number(*doc, *action_obj, dests_view(dest_map@)),
{
    let target: Option<&PdfDictionary> = match action_obj {
        PdfObject::Reference(id) => doc.get_dictionary(*id),
        PdfObject::Dictionary(d) => Some(d),
        _ => None,
    };
    let d_key = key_bytes("D");
    match target {
        None => None,
        Some(t) => match t.get(&d_key) {
            Some(PdfObject::Str(b)) => {
                let name = utf8_lossy_string(b.as_slice());
                match dest_lookup_exec(dest_map, &name) {
                    None => None,
                    Some(did) => match doc.get_dictionary(did) {
                        None => None,
                        Some(dd) => match dd.get(&d_key) {
                            Some(PdfObject::Array(a)) => page_from_array_exec(a, &doc.pages),
                            _ => None,
                        },
                    },
                }
            },
            Some(PdfObject::Array(a)) => page_from_array_exec(a, &doc.pages),
            _ => None,
        },
    }
}

/// An action given by reference leads to the page that the same action
/// written inline leads to.
pub proof fn law_action_by_reference(
    doc: PdfDocument,
    id: ObjectId,
    d: PdfDictionary,
    dests: Seq<(Seq<char>, ObjectId)>,
)
    requires
        get_dictionary(doc, id) == Some(d),
    ensures
        page_number(doc, PdfObject::Reference(id), dests) == page_number(
            doc,
            PdfObject::Dictionary(d),
            dests,
        ),
{
}

/// A GoTo action whose `D` is an explicit destination starting with a page
/// reference (`[10 0 R /XYZ 0 792 0]`) leads to that page's number, whether
/// the action stands inline or behind a reference.
pub proof fn law_goto_destination_page(
    doc: PdfDocument,
    action: PdfObject,
    d: PdfDictionary,
    page: ObjectId,
    dests: Seq<(Seq<char>, ObjectId)>,
)
    requires
        action == PdfObject::Dictionary(d) || (action matches PdfObject::Reference(id)
            && get_dictionary(doc, id) == Some(d)),
        dict_get(d, key_of("D"@)) matches Some(PdfObject::Array(a)) && a@.len() > 0 && a@[0]
            == PdfObject::Reference(page),
    ensures
        page_number(doc, action, dests) == page_of(doc.pages@, page),
{
}

/// The title of an outline item: its `Title` string (possibly referenced),
/// decoded; empty when there is none.
pub open spec fn outline_title(doc: PdfDocument, item: PdfDictionary) -> Seq<char> {
    match dict_get(item, key_of("Title"@)) {
        None => seq![],
        Some(t) => {
            let bytes = match t {
                PdfObject::Reference(tid) => as_text(get_object(doc, tid)),
                _ => as_text(Some(t)),
            };
            match bytes {
                Some(b) => decode_pdf_text(b),
                None => seq![],
            }
        },
    }
}

/// The page an outline item leads to: by its `A` action, or else its `Dest`.
pub open spec fn outline_page(
    doc: PdfDocument,
    item: PdfDictionary,
    dests: Seq<(Seq<char>, ObjectId)>,
) -> Option<u32> {
    match dict_get(item, key_of("A"@)) {
        Some(a) => page_number(doc, a, dests),
        None => match dict_get(item, key_of("Dest"@)) {
            Some(a) => page_number(doc, a, dests),
            None => None,
        },
    }
}

/// The table of contents lines under the outline item `item` at depth
/// `level`: the item itself when it has a title, then its children (one
/// level deeper), then its following siblings; `fuel` bounds the depth of
/// the walk.
pub open spec fn outline_items(
    doc: PdfDocument,
    item: PdfObject,
    level: nat,
    fuel: nat,
    dests: Seq<(Seq<char>, ObjectId)>,
) -> Seq<(Seq<char>, nat, Option<u32>)>
    decreases fuel,
{
    if fuel == 0 {
        seq![]
    } else {
        match item {
            PdfObject::Reference(id) => match get_dictionary(doc, id) {
                None => seq![],
                Some(d) => {
                    let title = outline_title(doc, d);
                    let own = if title.len() > 0 {
                        seq![(title, level, outline_page(doc, d, dests))]
                    } else {
                        seq![]
                    };
                    let kids = match dict_get(d, key_of("First"@)) {
                        Some(f) => outline_items(doc, f, level + 1, (fuel - 1) as nat, dests),
                        None => seq![],
                    };
                    let next = match dict_get(d, key_of("Next"@)) {
                        Some(n) => outline_items(doc, n, level, (fuel - 1) as nat, dests),
                        None => seq![],
                    };
                    own + kids + next
                },
            },
            _ => seq![],
        }
    }
}

fn outline_title_exec(doc: &PdfDocument, item: &PdfDictionary) -> (r: String)
    ensures
        r@ == outline_title(*doc, *item),
{
    match item.get(&key_bytes("Title")) {
        None => crate::text::string_of(&Vec::new()),
        Some(t) => {
            let bytes: Option<&Vec<u8>> = match t {
                PdfObject::Reference(tid) => match doc.get_object(*tid) {
                    Some(PdfObject::Str(b)) => Some(b),
                    _ => None,
                },
                PdfObject::Str(b) => Some(b),
                _ => None,
            };
            match bytes {
                Some(b) => decode_pdf_string(b.as_slice()),
                None => crate::text::string_of(&Vec::new()),
            }
        },
    }
}

fn outline_page_exec(
    doc: &PdfDocument,
    item: &PdfDictionary,
    dest_map: &Vec<(String, ObjectId)>,
) -> (r: Option<u32>)
    ensures
        r == outline_page(*doc, *item, dests_view(dest_map@)),
{
    match item.get(&key_bytes("A")) {
        Some(a) => extract_page_number(doc, a, dest_map),
        None => match item.get(&key_bytes("Dest")) {
            Some(a) => extract_page_number(doc, a, dest_map),
            None => None,
        },
    }
}

/// Collects the table of contents lines under an outline item, as
/// `outline_items` describes.
fn collect_outline_items(
    doc: &PdfDocument,
    item_ref: &PdfObject,
    level: u32,
    fuel: u32,
    toc: &mut Vec<TocEntry>,
    dest_map: &Vec<(String, ObjectId)>,
)
    requires
        level as nat + fuel as nat <= u32::MAX,
    ensures
        tocs_view(final(toc)@) == tocs_view(old(toc)@) + outline_items(
            *doc,
            *item_ref,
            level as nat,
            fuel as nat,
            dests_view(dest_map@),
        ),
    decreases fuel,
{
    if fuel == 0 {
        assert(tocs_view(toc@) =~= tocs_view(old(toc)@) + Seq::<(Seq<char>, nat, Option<u32>)>::empty());
        return ;
    }
    match item_ref {
        PdfObject::Reference(id) => match doc.get_dictionary(*id) {
            None => {
                assert(tocs_view(toc@) =~= tocs_view(old(toc)@) + Seq::<(Seq<char>, nat, Option<u32>)>::empty());
            },
            Some(item) => {
                let title = outline_title_exec(doc, item);
                let page = outline_page_exec(doc, item, dest_map);
                let ghost own: Seq<(Seq<char>, nat, Option<u32>)> = if title@.len() > 0 {
                    seq![(title@, level as nat, page)]
                } else {
                    seq![]
                };
                let nonempty = !title.as_str().is_empty();
                if nonempty {
                    toc.push(TocEntry { title, level, page });
                }
                assert(tocs_view(toc@) =~= tocs_view(old(toc)@) + own);
                let ghost mid = tocs_view(toc@);
                match item.get(&key_bytes("First")) {
                    Some(f) => collect_outline_items(doc, f, level + 1, fuel - 1, toc, dest_map),
                    None => {},
                }
                let ghost mid2 = tocs_view(toc@);
                match item.get(&key_bytes("Next")) {
                    Some(n) => collect_outline_items(doc, n, level, fuel - 1, toc, dest_map),
                    None => {},
                }
                assert(tocs_view(toc@) =~= tocs_view(old(toc)@) + outline_items(
                    *doc,
                    *item_ref,
                    level as nat,
                    fuel as nat,
                    dests_view(dest_map@),
                ));
            },
        },
        _ => {
            assert(tocs_view(toc@) =~= tocs_view(old(toc)@) + Seq::<(Seq<char>, nat, Option<u32>)>::empty());
        },
    }
}

/// The document's table of contents: the items under the first outline item
/// of the catalog's `Outlines`.
pub open spec fn document_outline(doc: PdfDocument, dests: Seq<(Seq<char>, ObjectId)>) -> Seq<
    (Seq<char>, nat, Option<u32>),
> {
    match catalog(doc) {
        None => seq![],
        Some(cat) => match as_reference(dict_get(cat, key_of("Outlines"@))) {
            None => seq![],
            Some(oid) => match get_dictionary(doc, oid) {
                None => seq![],
                Some(outlines) => match dict_get(outlines, key_of("First"@)) {
                    None => seq![],
                    Some(first) => outline_items(doc, first, 0, walk_fuel(doc), dests),
                },
            },
        },
    }
}

/// Extracts the table of contents, as `document_outline` describes.
pub fn extract_outlines(doc: &PdfDocument, dest_map: &Vec<(String, ObjectId)>) -> (r: Vec<
    TocEntry,
>)
    ensures
        tocs_view(r@) == document_outline(*doc, dests_view(dest_map@)),
{
    let mut toc: Vec<TocEntry> = Vec::new();
    assert(tocs_view(toc@) =~= Seq::<(Seq<char>, nat, Option<u32>)>::empty());
    match doc.catalog() {
        None => {},
        Some(cat) => match cat.get(&key_bytes("Outlines")) {
            Some(PdfObject::Reference(oid)) => match doc.get_dictionary(*oid) {
                None => {},
                Some(outlines) => match outlines.get(&key_bytes("First")) {
                    None => {},
                    Some(first) => {
                        let fuel = walk_fuel_exec(doc);
                        collect_outline_items(doc, first, 0, fuel, &mut toc, dest_map);
                        assert(tocs_view(toc@) =~= Seq::<(Seq<char>, nat, Option<u32>)>::empty() + outline_items(*doc, *first, 0, fuel as nat, dests_view(dest_map@)));
                    },
                },
            },
            _ => {},
        },
    }
    toc
}

// ---------------------------------------------------------------------------
// Document metadata
// ---------------------------------------------------------------------------

/// A document's metadata and table of contents.
#[derive(Debug)]
pub struct PdfMetadata {
    pub title: Option<String>,
    pub author: Option<String>,
    pub subject: Option<String>,
    pub keywords: Option<String>,
    pub creator: Option<String>,
    pub producer: Option<String>,
    pub created: Option<String>,
    pub modified: Option<String>,
    pub page_count: Option<u32>,
    pub table_of_contents: Vec<TocEntry>,
}

/// The characters of an optional string.
pub open spec fn opt_view(o: Option<String>) -> Option<Seq<char>> {
    match o {
        Some(s) => Some(s@),
        None => None,
    }
}

/// The document information dictionary: the one the trailer's `Info` refers
/// to.
pub open spec fn info_dict(doc: PdfDocument) -> Option<PdfDictionary> {
    match as_reference(dict_get(doc.trailer, key_of("Info"@))) {
        Some(id) => get_dictionary(doc, id),
        None => None,
    }
}

/// The bytes of the information dictionary's string entry `key`.
pub open spec fn info_bytes(doc: PdfDocument, key: Seq<char>) -> Option<Seq<u8>> {
    match info_dict(doc) {
        Some(d) => as_text(dict_get(d, key_of(key))),
        None => None,
    }
}

/// The text of an information entry, undecodable UTF-8 replaced.
pub open spec fn info_text(doc: PdfDocument, key: Seq<char>) -> Option<Seq<char>> {
    match info_bytes(doc, key) {
        Some(b) => Some(utf8_lossy(b)),
        None => None,
    }
}

/// A date entry of the information dictionary in ISO form.
pub open spec fn info_date(doc: PdfDocument, key: Seq<char>) -> Option<Seq<char>> {
    match info_bytes(doc, key) {
        Some(b) => pdf_date_text(utf8_lossy(b)),
        None => None,
    }
}

fn info_entry<'a>(info: Option<&'a PdfDictionary>, key: &str) -> (r: Option<&'a Vec<u8>>)
    ensures
        match r {
            Some(b) => info matches Some(d) && as_text(dict_get(*d, key_of(key@))) == Some(b@),
            None => info is None || as_text(dict_get(*info->0, key_of(key@))) is None,
        },
{
    match info {
        None => None,
        Some(d) => match d.get(&key_bytes(key)) {
            Some(PdfObject::Str(b)) => Some(b),
            _ => None,
        },
    }
}

fn info_text_exec(info: Option<&PdfDictionary>, key: &str) -> (r: Option<String>)
    ensures
        opt_view(r) == match info {
            Some(d) => match as_text(dict_get(*d, key_of(key@))) {
                Some(b) => Some(utf8_lossy(b)),
                None => None,
            },
            None => None,
        },
{
    match info_entry(info, key) {
        Some(b) => Some(utf8_lossy_string(b.as_slice())),
        None => None,
    }
}

fn info_date_exec(info: Option<&PdfDictionary>, key: &str) -> (r: Option<String>)
    ensures
        opt_view(r) == match info {
            Some(d) => match as_text(dict_get(*d, key_of(key@))) {
                Some(b) => pdf_date_text(utf8_lossy(b)),
                None => None,
            },
            None => None,
        },
{
    match info_entry(info, key) {
        Some(b) => {
            let s = utf8_lossy_string(b.as_slice());
            parse_pdf_date(s.as_str())
        },
        None => None,
    }
}

impl PdfMetadata {
    /// Reads a document's metadata: the text entries of its information
    /// dictionary, its dates in ISO form, its number of pages and its table
    /// of contents.
    pub fn from_pdf(doc: &PdfDocument) -> (r: PdfMetadata)
        ensures
            opt_view(r.title) == info_text(*doc, "Title"@),
            opt_view(r.author) == info_text(*doc, "Author"@),
            opt_view(r.subject) == info_text(*doc, "Subject"@),
            opt_view(r.keywords) == info_text(*doc, "Keywords"@),
            opt_view(r.creator) == info_text(*doc, "Creator"@),
            opt_view(r.producer) == info_text(*doc, "Producer"@),
            opt_view(r.created) == info_date(*doc, "CreationDate"@),
            opt_view(r.modified) == info_date(*doc, "ModDate"@),
            r.page_count == Some(doc.pages@.len() as u32),
            tocs_view(r.table_of_contents@) == document_outline(*doc, document_dests(*doc)),
    {
        let dest_map = build_dest_map(doc);
        let info: Option<&PdfDictionary> = match doc.trailer.get(&key_bytes("Info")) {
            Some(PdfObject::Reference(id)) => doc.get_dictionary(*id),
            _ => None,
        };
        assert(match info {
            Some(d) => info_dict(*doc) == Some(*d),
            None => info_dict(*doc) is None,
        });
        let toc = extract_outlines(doc, &dest_map);
        PdfMetadata {
            title: info_text_exec(info, "Title"),
            author: info_text_exec(info, "Author"),
            subject: info_text_exec(info, "Subject"),
            keywords: info_text_exec(info, "Keywords"),
            creator: info_text_exec(info, "Creator"),
            producer: info_text_exec(info, "Producer"),
            created: info_date_exec(info, "CreationDate"),
            modified: info_date_exec(info, "ModDate"),
            page_count: Some(doc.pages.len() as u32),
            table_of_contents: toc,
        }
    }
}

// ---------------------------------------------------------------------------
// Page selection for splitting
// ---------------------------------------------------------------------------

/// Page `p` lies in one of the inclusive ranges.
pub open spec fn in_ranges(ranges: Seq<(u32, u32)>, p: u32) -> bool {
    exists|i: int| 0 <= i < ranges.len() && ranges[i].0 <= p && p <= ranges[i].1
}

/// Some range selects at least one page number.
pub open spec fn selects_some_page(ranges: Seq<(u32, u32)>) -> bool {
    exists|i: int| 0 <= i < ranges.len() && ranges[i].0 <= ranges[i].1
}

/// The page objects whose page numbers the ranges select, in page order.
pub open spec fn kept_pages(pages: Seq<(u32, ObjectId)>, ranges: Seq<(u32, u32)>) -> Seq<ObjectId>
    decreases pages.len(),
{
    if pages.len() == 0 {
        seq![]
    } else {
        kept_pages(pages.drop_last(), ranges) + if in_ranges(ranges, pages.last().0) {
            seq![pages.last().1]
        } else {
            seq![]
        }
    }
}

/// Why no document can be cut to the requested pages.
#[derive(Debug, Clone, Copy, PartialEq, Eq, Structural)]
pub enum SplitError {
    /// No range selects any page number.
    NoPagesSelected,
    /// None of the selected page numbers is a page of the document.
    NoValidPages,
}

impl SplitError {
    /// The error's message.
    pub fn message(&self) -> (r: String)
        ensures
            r@ == match self {
                SplitError::NoPagesSelected => "No pages selected for extraction"@,
                SplitError::NoValidPages => "No valid pages found for extraction"@,
            },
    {
        match self {
            SplitError::NoPagesSelected => crate::text::string_of(
                &crate::text::chars_of("No pages selected for extraction"),
            ),
            SplitError::NoValidPages => crate::text::string_of(
                &crate::text::chars_of("No valid pages found for extraction"),
            ),
        }
    }
}

fn in_ranges_exec(ranges: &Vec<(u32, u32)>, p: u32) -> (r: bool)
    ensures
        r == in_ranges(ranges@, p),
{
    let mut i: usize = 0;
    while i < ranges.len()
        invariant
            i <= ranges.len(),
            forall|j: int| 0 <= j < i ==> !(ranges@[j].0 <= p && p <= ranges@[j].1),
        decreases ranges.len() - i,
    {
        if ranges[i].0 <= p && p <= ranges[i].1 {
            return true;
        }
        i = i + 1;
    }
    false
}

/// The page objects to keep when cutting a document to the given page ranges
/// (1-based, inclusive): an error when no range selects a page, or when none
/// of the selected pages exists; otherwise the selected pages in page order.
pub fn select_split_pages(pages: &Vec<(u32, ObjectId)>, ranges: &Vec<(u32, u32)>) -> (r: Result<
    Vec<ObjectId>,
    SplitError,
>)
    ensures
        match r {
            Err(SplitError::NoPagesSelected) => !selects_some_page(ranges@),
            Err(SplitError::NoValidPages) => selects_some_page(ranges@) && kept_pages(
                pages@,
                ranges@,
            ).len() == 0,
            Ok(ids) => selects_some_page(ranges@) && ids@ == kept_pages(pages@, ranges@)
                && ids@.len() > 0,
        },
{
    let mut any = false;
    let mut i: usize = 0;
    while i < ranges.len()
        invariant
            i <= ranges.len(),
            any == exists|j: int| 0 <= j < i && ranges@[j].0 <= ranges@[j].1,
        decreases ranges.len() - i,
    {
        if ranges[i].0 <= ranges[i].1 {
            any = true;
        }
        i = i + 1;
    }
    if !any {
        return Err(SplitError::NoPagesSelected);
    }
    let mut ids: Vec<ObjectId> = Vec::new();
    let mut k: usize = 0;
    while k < pages.len()
        invariant
            k <= pages.len(),
            ids@ == kept_pages(pages@.take(k as int), ranges@),
        decreases pages.len() - k,
    {
        assert(pages@.take(k + 1).drop_last() =~= pages@.take(k as int));
        if in_ranges_exec(ranges, pages[k].0) {
            ids.push(pages[k].1);
        }
        k = k + 1;
    }
    assert(pages@.take(pages.len() as int) =~= pages@);
    if ids.len() == 0 {
        return Err(SplitError::NoValidPages);
    }
    Ok(ids)
}

} // verus!
