//! The decisions of the command line: reading page ranges, sizes for people,
//! choosing among options, and which provider and API key a run uses.
use crate::pdf::{PdfMetadata, TocEntry, opt_view};
use crate::auth::{CredentialStore, get_credential, provider_key, provider_key_of};
use crate::provider::{
    MinerUModel, ProviderType, mineru_model_name, provider_from_name, provider_name,
    zhipu_model_name,
};
use crate::text::{
    IntErrorKind, append_chars, chars_of, contains_seq, decimal, first_index_of, parse_unsigned,
    parse_unsigned_spec, split_chars, split_on, string_of, trim, trim_chars, u64_to_decimal,
};
use vstd::prelude::*;

verus! {

// ---------------------------------------------------------------------------
// Sizes
// ---------------------------------------------------------------------------

/// The number of binary digits of `n` (0 for 0).
pub open spec fn bit_length(n: nat) -> nat
    decreases n,
{
    if n == 0 {
        0
    } else {
        1 + bit_length(n / 2)
    }
}

/// Two to the power `e`.
pub open spec fn pow2(e: nat) -> nat
    decreases e,
{
    if e == 0 {
        1
    } else {
        2 * pow2((e - 1) as nat)
    }
}

/// `q` rounded up when the remainder `r` of a division by `d` is more than
/// half of `d`, or exactly half and `q` is odd (ties to even).
pub open spec fn round_half_even(q: nat, r: nat, d: nat) -> nat {
    if 2 * r > d || (2 * r == d && q % 2 == 1) {
        q + 1
    } else {
        q
    }
}

/// The value of `n as f64`: `n` rounded to 53 significant bits, ties to even.
pub open spec fn f64_value(n: nat) -> nat {
    if bit_length(n) <= 53 {
        n
    } else {
        let p = pow2((bit_length(n) - 53) as nat);
        round_half_even(n / p, n % p, p) * p
    }
}

/// `x / d` in hundredths, rounded to nearest with ties to even (as the
/// formatter writes a binary fraction to two decimals).
pub open spec fn hundredths(x: nat, d: nat) -> nat {
    round_half_even((x * 100) / d, (x * 100) % d, d)
}

/// A number of hundredths written with two decimals.
pub open spec fn two_decimals(v: nat) -> Seq<char> {
    decimal(v / 100) + "."@ + decimal((v / 10) % 10) + decimal(v % 10)
}

/// A byte count for people: with two decimals in GB, MB or KB (powers of
/// 1024) from one such unit on, else as a count of bytes.
pub open spec fn size_text(bytes: nat) -> Seq<char> {
    if bytes >= 0x4000_0000 {
        two_decimals(hundredths(f64_value(bytes), 0x4000_0000)) + " GB"@
    } else if bytes >= 0x10_0000 {
        two_decimals(hundredths(f64_value(bytes), 0x10_0000)) + " MB"@
    } else if bytes >= 0x400 {
        two_decimals(hundredths(f64_value(bytes), 0x400)) + " KB"@
    } else {
        decimal(bytes) + " bytes"@
    }
}

proof fn lemma_bit_length_bound(n: nat, k: nat)
    requires
        n < pow2(k),
    ensures
        bit_length(n) <= k,
    decreases k,
{
    if k > 0 && n > 0 {
        lemma_bit_length_bound(n / 2, (k - 1) as nat);
    }
}

proof fn lemma_pow2_pos(e: nat)
    ensures
        pow2(e) >= 1,
    decreases e,
{
    if e > 0 {
        lemma_pow2_pos((e - 1) as nat);
    }
}

proof fn lemma_pow2_mono(a: nat, b: nat)
    requires
        a <= b,
    ensures
        pow2(a) <= pow2(b),
    decreases b,
{
    if a < b {
        lemma_pow2_mono(a, (b - 1) as nat);
        lemma_pow2_pos((b - 1) as nat);
    }
}

fn f64_value_exec(n: u64) -> (r: u128)
    ensures
        r == f64_value(n as nat),
        r <= 0x2_0000_0000_0000_0000,
{
    let mut len: u64 = 0;
    let mut m: u64 = n;
    proof {
        reveal_with_fuel(pow2, 65);
        assert(pow2(64) == 0x1_0000_0000_0000_0000);
    }
    while m > 0
        invariant
            bit_length(n as nat) == len + bit_length(m as nat),
            len <= 64,
            m < pow2((64 - len) as nat),
        decreases m,
    {
        assert(m / 2 < pow2((64 - len - 1) as nat)) by {
            assert(pow2((64 - len) as nat) == 2 * pow2((64 - len - 1) as nat));
        }
        m = m / 2;
        len = len + 1;
    }
    if len <= 53 {
        return n as u128;
    }
    let e = len - 53;
    let mut p: u128 = 1;
    let mut i: u64 = 0;
    while i < e
        invariant
            i <= e <= 11,
            p == pow2(i as nat),
            p <= 2048,
        decreases e - i,
    {
        proof {
            lemma_pow2_mono(i as nat + 1, 11);
            reveal_with_fuel(pow2, 12);
            assert(pow2(11) == 2048);
        }
        p = p * 2;
        i = i + 1;
    }
    let nn = n as u128;
    let q = nn / p;
    let r = nn % p;
    let rounded = if 2 * r > p || (2 * r == p && q % 2 == 1) {
        q + 1
    } else {
        q
    };
    proof {
        vstd::arithmetic::div_mod::lemma_fundamental_div_mod(nn as int, p as int);
        assert((q + 1) * p == q * p + p) by (nonlinear_arith);
        assert(q * p == p * q) by (nonlinear_arith);
        assert(rounded * p <= (q + 1) * p) by (nonlinear_arith)
            requires
                rounded <= q + 1,
        {
        }
    }
    rounded * p
}

fn decimal_of(n: u128) -> (r: Vec<char>)
    requires
        n <= u64::MAX,
    ensures
        r@ == decimal(n as nat),
{
    u64_to_decimal(n as u64)
}

fn two_decimals_exec(v: u128) -> (r: Vec<char>)
    requires
        v <= u64::MAX,
    ensures
        r@ == two_decimals(v as nat),
{
    let mut out = decimal_of(v / 100);
    append_chars(&mut out, &chars_of("."));
    append_chars(&mut out, &decimal_of((v / 10) % 10));
    append_chars(&mut out, &decimal_of(v % 10));
    out
}

fn hundredths_exec(x: u128, d: u128) -> (r: u128)
    requires
        x <= 0x2_0000_0000_0000_0000,
        1024 <= d <= 0x4000_0000,
    ensures
        r == hundredths(x as nat, d as nat),
        r <= u64::MAX,
{
    let t = x * 100;
    let q = t / d;
    let r = t % d;
    assert(r < d) by (nonlinear_arith)
        requires
            r == t % d,
            d >= 1024,
    {
    }
    let v = if 2 * r > d || (2 * r == d && q % 2 == 1) {
        q + 1
    } else {
        q
    };
    assert(q <= 0x2_0000_0000_0000_0000 * 100 / 1024) by (nonlinear_arith)
        requires
            q == t / d,
            t <= 0x2_0000_0000_0000_0000 * 100,
            d >= 1024,
    {
    }
    v
}

/// Formats a byte count for people, as `size_text` describes.
pub fn format_size(bytes: u64) -> (r: String)
    ensures
        r@ == size_text(bytes as nat),
{
    let x = f64_value_exec(bytes);
    let mut out: Vec<char>;
    if bytes >= 0x4000_0000 {
        out = two_decimals_exec(hundredths_exec(x, 0x4000_0000));
        append_chars(&mut out, &chars_of(" GB"));
    } else if bytes >= 0x10_0000 {
        out = two_decimals_exec(hundredths_exec(x, 0x10_0000));
        append_chars(&mut out, &chars_of(" MB"));
    } else if bytes >= 0x400 {
        out = two_decimals_exec(hundredths_exec(x, 0x400));
        append_chars(&mut out, &chars_of(" KB"));
    } else {
        out = u64_to_decimal(bytes);
        append_chars(&mut out, &chars_of(" bytes"));
    }
    string_of(&out)
}

// ---------------------------------------------------------------------------
// Page ranges
// ---------------------------------------------------------------------------

/// `str::parse::<u32>` on `s`.
pub open spec fn parse_u32(s: Seq<char>) -> Result<u32, IntErrorKind> {
    match parse_unsigned_spec(s, u32::MAX as nat) {
        Ok(v) => Ok(v as u32),
        Err(e) => Err(e),
    }
}

/// The range one comma-separated part gives: nothing for a blank part or
/// for a part with more than one `-`; `a-b` for a part with one `-`; `n-n`
/// for a plain number. Numbers are trimmed decimal `u32`s.
pub open spec fn range_of_part(part: Seq<char>) -> Result<Option<(u32, u32)>, IntErrorKind> {
    let p = trim(part);
    if p.len() == 0 {
        Ok(None)
    } else if contains_seq(p, "-"@) {
        let q = split_on(p, '-');
        if q.len() == 2 {
            match parse_u32(trim(q[0])) {
                Err(e) => Err(e),
                Ok(a) => match parse_u32(trim(q[1])) {
                    Err(e) => Err(e),
                    Ok(b) => Ok(Some((a, b))),
                },
            }
        } else {
            Ok(None)
        }
    } else {
        match parse_u32(p) {
            Err(e) => Err(e),
            Ok(a) => Ok(Some((a, a))),
        }
    }
}

/// The ranges of the parts, in order; the first failing number ends it.
pub open spec fn ranges_of_parts(parts: Seq<Seq<char>>) -> Result<Seq<(u32, u32)>, IntErrorKind>
    decreases parts.len(),
{
    if parts.len() == 0 {
        Ok(seq![])
    } else {
        match range_of_part(parts[0]) {
            Err(e) => Err(e),
            Ok(h) => match ranges_of_parts(parts.drop_first()) {
                Err(e) => Err(e),
                Ok(rest) => Ok(
                    match h {
                        Some(r) => seq![r] + rest,
                        None => rest,
                    },
                ),
            },
        }
    }
}

/// The page ranges a `--pages` value such as `1-5,10` selects.
pub open spec fn page_ranges_of(s: Seq<char>) -> Result<Seq<(u32, u32)>, IntErrorKind> {
    ranges_of_parts(split_on(s, ','))
}

/// A number in a page list that is not a valid page number.
#[derive(Debug, Clone, Copy, PartialEq, Eq, Structural)]
pub struct PageRangeError {
    pub kind: IntErrorKind,
}

/// The message the standard library gives for an integer that does not parse.
pub open spec fn int_error_message(k: IntErrorKind) -> Seq<char> {
    match k {
        IntErrorKind::Empty => "cannot parse integer from empty string"@,
        IntErrorKind::InvalidDigit => "invalid digit found in string"@,
        IntErrorKind::PosOverflow => "number too large to fit in target type"@,
    }
}

/// The message for an integer that does not parse.
pub fn int_error_text(k: IntErrorKind) -> (r: String)
    ensures
        r@ == int_error_message(k),
{
    match k {
        IntErrorKind::Empty => string_of(&chars_of("cannot parse integer from empty string")),
        IntErrorKind::InvalidDigit => string_of(&chars_of("invalid digit found in string")),
        IntErrorKind::PosOverflow => string_of(&chars_of("number too large to fit in target type")),
    }
}

fn parse_u32_exec(s: &Vec<char>) -> (r: Result<u32, IntErrorKind>)
    ensures
        r == parse_u32(s@),
{
    match parse_unsigned(s, 0xffff_ffff) {
        Ok(v) => {
            proof {
                lemma_parse_bounded(s@, u32::MAX as nat);
            }
            Ok(v as u32)
        },
        Err(e) => Err(e),
    }
}

proof fn lemma_parse_bounded(s: Seq<char>, max: nat)
    ensures
        parse_unsigned_spec(s, max) matches Ok(v) ==> v <= max,
{
    if s.len() > 0 && !(s.len() == 1 && (s[0] == '+' || s[0] == '-')) {
        if s[0] == '+' {
            lemma_scan_le(0, s.drop_first(), max);
        } else {
            lemma_scan_le(0, s, max);
        }
    }
}

proof fn lemma_scan_le(acc: nat, d: Seq<char>, max: nat)
    ensures
        crate::text::scan_digits(acc, d, max) matches Ok(v) ==> (v <= max || (d.len() == 0 && v == acc)),
        acc <= max ==> (crate::text::scan_digits(acc, d, max) matches Ok(v) ==> v <= max),
    decreases d.len(),
{
    if d.len() > 0 && crate::text::is_digit(d[0]) && acc * 10 + crate::text::digit_value(d[0]) <= max {
        lemma_scan_le(acc * 10 + crate::text::digit_value(d[0]), d.drop_first(), max);
    }
}

fn range_of_part_exec(part: &Vec<char>) -> (r: Result<Option<(u32, u32)>, IntErrorKind>)
    ensures
        r == range_of_part(part@),
{
    let p = trim_chars(part);
    if p.len() == 0 {
        return Ok(None);
    }
    if crate::text::contains_chars(&p, &chars_of("-")) {
        let q = split_chars(&p, '-');
        assert(q@.len() == split_on(p@, '-').len());
        if q.len() == 2 {
            assert(q@[0]@ == split_on(p@, '-')[0]);
            assert(q@[1]@ == split_on(p@, '-')[1]);
            let a = parse_u32_exec(&trim_chars(&q[0]))?;
            let b = parse_u32_exec(&trim_chars(&q[1]))?;
            Ok(Some((a, b)))
        } else {
            Ok(None)
        }
    } else {
        let a = parse_u32_exec(&p)?;
        Ok(Some((a, a)))
    }
}

/// Reads a page list such as `1-5,10,15-20` into inclusive page ranges, as
/// `page_ranges_of` describes.
pub fn parse_page_ranges(pages: &str) -> (r: Result<Vec<(u32, u32)>, PageRangeError>)
    ensures
        match r {
            Ok(v) => page_ranges_of(pages@) == Ok::<Seq<(u32, u32)>, IntErrorKind>(v@),
            Err(e) => page_ranges_of(pages@) == Err::<Seq<(u32, u32)>, IntErrorKind>(e.kind),
        },
{
    let parts = split_chars(&chars_of(pages), ',');
    let ghost views = parts@.map_values(|p: Vec<char>| p@);
    let mut out: Vec<(u32, u32)> = Vec::new();
    let mut i: usize = 0;
    assert(views.skip(0) =~= views);
    while i < parts.len()
        invariant
            i <= parts.len(),
            views == parts@.map_values(|p: Vec<char>| p@),
            views == split_on(pages@, ','),
            page_ranges_of(pages@) == match ranges_of_parts(views.skip(i as int)) {
                Err(e) => Err::<Seq<(u32, u32)>, IntErrorKind>(e),
                Ok(rest) => Ok(out@ + rest),
            },
        decreases parts.len() - i,
    {
        assert(views.skip(i as int)[0] == parts@[i as int]@);
        assert(views.skip(i as int).drop_first() =~= views.skip(i + 1));
        match range_of_part_exec(&parts[i]) {
            Err(k) => {
                return Err(PageRangeError { kind: k });
            },
            Ok(Some(rg)) => {
                let ghost before = out@;
                out.push(rg);
                proof {
                    match ranges_of_parts(views.skip(i + 1)) {
                        Err(e) => {},
                        Ok(rest) => {
                            assert(before + (seq![rg] + rest) =~= out@ + rest);
                        },
                    }
                }
            },
            Ok(None) => {},
        }
        i = i + 1;
    }
    assert(views.skip(i as int) =~= Seq::<Seq<char>>::empty());
    assert(out@ + Seq::<(u32, u32)>::empty() =~= out@);
    Ok(out)
}

// ---------------------------------------------------------------------------
// Choosing among options
// ---------------------------------------------------------------------------

/// Why an answer does not pick an option.
#[derive(Debug, Clone, Copy, PartialEq, Eq, Structural)]
pub enum ChoiceError {
    /// The answer is not a number.
    NotANumber(IntErrorKind),
    /// The number is not that of an option.
    Invalid,
}

/// The option an answer picks: the trimmed answer is a 1-based option number.
pub open spec fn chosen_option(answer: Seq<char>, n: nat) -> Result<nat, ChoiceError> {
    match parse_unsigned_spec(trim(answer), usize::MAX as nat) {
        Err(k) => Err(ChoiceError::NotANumber(k)),
        Ok(c) => if c < 1 || c > n {
            Err(ChoiceError::Invalid)
        } else {
            Ok((c - 1) as nat)
        },
    }
}

/// The option a typed answer picks, as `chosen_option` describes.
pub fn choose_option(answer: &str, options: &Vec<String>) -> (r: Result<String, ChoiceError>)
    ensures
        match r {
            Ok(o) => chosen_option(answer@, options@.len()) matches Ok(i) && o@ == options@[i as int]@,
            Err(e) => chosen_option(answer@, options@.len()) == Err::<nat, ChoiceError>(e),
        },
{
    let t = trim_chars(&chars_of(answer));
    match parse_unsigned(&t, usize::MAX as u64) {
        Err(k) => Err(ChoiceError::NotANumber(k)),
        Ok(c) => {
            proof {
                lemma_parse_bounded(t@, usize::MAX as nat);
            }
            if c < 1 || c > options.len() as u64 {
                Err(ChoiceError::Invalid)
            } else {
                Ok(options[(c - 1) as usize].clone())
            }
        },
    }
}

// ---------------------------------------------------------------------------
// Provider and API key
// ---------------------------------------------------------------------------

/// The provider a run uses: the named one (an error names an unknown one),
/// or PaddleOCR when none is named.
pub open spec fn resolved_provider(name: Option<Seq<char>>) -> Result<ProviderType, Seq<char>> {
    match name {
        None => Ok(ProviderType::PaddleOcr),
        Some(n) => match provider_from_name(n) {
            Some(p) => Ok(p),
            None => Err(n),
        },
    }
}

/// Picks the provider of a run, as `resolved_provider` describes; the error
/// holds the unknown name.
pub fn resolve_provider(name: Option<&str>) -> (r: Result<ProviderType, String>)
    ensures
        match r {
            Ok(p) => resolved_provider(
                match name {
                    Some(n) => Some(n@),
                    None => None,
                },
            ) == Ok::<ProviderType, Seq<char>>(p),
            Err(n) => resolved_provider(
                match name {
                    Some(n) => Some(n@),
                    None => None,
                },
            ) == Err::<ProviderType, Seq<char>>(n@),
        },
{
    match name {
        None => Ok(ProviderType::default()),
        Some(n) => match ProviderType::from_str(n) {
            Some(p) => Ok(p),
            None => Err(string_of(&chars_of(n))),
        },
    }
}

/// The API key a run uses: the one given on the command line, else the
/// provider's own environment variable (`ZHIPU_API_KEY`,
/// `PADDLE_OCR_API_KEY` or `MINERU_API_KEY`), else `PROVIDER_API_KEY`, else
/// the credential stored under the provider's key. The MinerU agent needs no
/// key: with none found it runs with an empty one.
pub open spec fn resolved_api_key(
    flag: Option<Seq<char>>,
    provider: ProviderType,
    zhipu_env: Option<Seq<char>>,
    paddle_env: Option<Seq<char>>,
    mineru_env: Option<Seq<char>>,
    generic_env: Option<Seq<char>>,
    stored: Map<Seq<char>, Seq<char>>,
) -> Option<Seq<char>> {
    let own = match provider {
        ProviderType::Zhipu(_) => zhipu_env,
        ProviderType::PaddleOcr => paddle_env,
        ProviderType::MinerU(_) => mineru_env,
    };
    let cred = provider_key_of(provider_name(provider));
    if flag is Some {
        flag
    } else if own is Some {
        own
    } else if generic_env is Some {
        generic_env
    } else if stored.dom().contains(cred) {
        Some(stored[cred])
    } else if provider == ProviderType::MinerU(MinerUModel::Agent) {
        Some(Seq::empty())
    } else {
        None
    }
}

/// The characters of an optional string.
pub open spec fn opt_chars(o: Option<String>) -> Option<Seq<char>> {
    match o {
        Some(s) => Some(s@),
        None => None,
    }
}

/// Picks the API key of a run, as `resolved_api_key` describes.
pub fn resolve_api_key(
    flag: Option<String>,
    provider: ProviderType,
    zhipu_env: Option<String>,
    paddle_env: Option<String>,
    mineru_env: Option<String>,
    generic_env: Option<String>,
    store: &CredentialStore,
) -> (r: Option<String>)
    ensures
        opt_chars(r) == resolved_api_key(
            opt_chars(flag),
            provider,
            opt_chars(zhipu_env),
            opt_chars(paddle_env),
            opt_chars(mineru_env),
            opt_chars(generic_env),
            store@,
        ),
{
    if flag.is_some() {
        return flag;
    }
    let own = match provider {
        ProviderType::Zhipu(_) => zhipu_env,
        ProviderType::PaddleOcr => paddle_env,
        ProviderType::MinerU(_) => mineru_env,
    };
    if own.is_some() {
        return own;
    }
    if generic_env.is_some() {
        return generic_env;
    }
    let name = provider.as_str();
    let key = provider_key(name.as_str());
    match get_credential(store, key) {
        Some(k) => Some(k),
        None => match provider {
            ProviderType::MinerU(MinerUModel::Agent) => Some(string_of(&Vec::new())),
            _ => None,
        },
    }
}

/// How a provider is shown to people: `Zhipu (<model>)`, `PaddleOCR` or
/// `MinerU (<variant>)`.
pub open spec fn provider_display_text(p: ProviderType) -> Seq<char> {
    match p {
        ProviderType::Zhipu(m) => "Zhipu ("@ + zhipu_model_name(m) + ")"@,
        ProviderType::PaddleOcr => "PaddleOCR"@,
        ProviderType::MinerU(m) => "MinerU ("@ + mineru_model_name(m) + ")"@,
    }
}

/// The provider's name for people.
pub fn provider_display(p: ProviderType) -> (r: String)
    ensures
        r@ == provider_display_text(p),
{
    match p {
        ProviderType::Zhipu(m) => {
            let mut v = chars_of("Zhipu (");
            append_chars(&mut v, &chars_of(m.as_str()));
            append_chars(&mut v, &chars_of(")"));
            string_of(&v)
        },
        ProviderType::PaddleOcr => string_of(&chars_of("PaddleOCR")),
        ProviderType::MinerU(m) => {
            let mut v = chars_of("MinerU (");
            append_chars(&mut v, &chars_of(m.as_str()));
            append_chars(&mut v, &chars_of(")"));
            string_of(&v)
        },
    }
}

// ---------------------------------------------------------------------------
// Exit codes
// ---------------------------------------------------------------------------

/// How a run ends, for scripts.
#[derive(Debug, Clone, Copy, PartialEq, Eq, Structural)]
pub enum ExitCode {
    Success,
    GeneralFailure,
    UsageError,
    ResourceNotFound,
    PermissionDenied,
    Conflict,
}

/// The process status of each ending: 0 success, 1 failure, 2 usage error,
/// 3 not found, 4 permission denied, 5 conflict.
pub open spec fn exit_status(c: ExitCode) -> i32 {
    match c {
        ExitCode::Success => 0,
        ExitCode::GeneralFailure => 1,
        ExitCode::UsageError => 2,
        ExitCode::ResourceNotFound => 3,
        ExitCode::PermissionDenied => 4,
        ExitCode::Conflict => 5,
    }
}

impl ExitCode {
    /// The process status.
    pub fn code(&self) -> (r: i32)
        ensures
            r == exit_status(*self),
    {
        match self {
            ExitCode::Success => 0,
            ExitCode::GeneralFailure => 1,
            ExitCode::UsageError => 2,
            ExitCode::ResourceNotFound => 3,
            ExitCode::PermissionDenied => 4,
            ExitCode::Conflict => 5,
        }
    }
}

/// Whether a conversion must stop because its output exists: the Markdown
/// file or the images directory is there and overwriting was not asked for.
pub fn output_conflict(overwrite: bool, markdown_exists: bool, images_exist: bool) -> (r: bool)
    ensures
        r == (!overwrite && (markdown_exists || images_exist)),
{
    !overwrite && (markdown_exists || images_exist)
}

// ---------------------------------------------------------------------------
// Metadata for people
// ---------------------------------------------------------------------------

/// One labelled line when the value is there.
pub open spec fn labelled(label: Seq<char>, v: Option<Seq<char>>) -> Seq<(Seq<char>, Seq<char>)> {
    match v {
        Some(x) => seq![(label, x)],
        None => seq![],
    }
}

/// The labelled metadata lines, in the order they are shown: title, author,
/// subject, keywords, creator, producer, creation and modification dates,
/// number of pages; each only when known.
pub open spec fn metadata_lines(m: PdfMetadata) -> Seq<(Seq<char>, Seq<char>)> {
    labelled("Title"@, opt_view(m.title)) + labelled("Author"@, opt_view(m.author)) + labelled(
        "Subject"@,
        opt_view(m.subject),
    ) + labelled("Keywords"@, opt_view(m.keywords)) + labelled("Creator"@, opt_view(m.creator))
        + labelled("Producer"@, opt_view(m.producer)) + labelled("Created"@, opt_view(m.created))
        + labelled("Modified"@, opt_view(m.modified)) + labelled(
        "Pages"@,
        match m.page_count {
            Some(p) => Some(decimal(p as nat)),
            None => None,
        },
    )
}

/// String pairs as values.
pub open spec fn line_pairs(v: Seq<(String, String)>) -> Seq<(Seq<char>, Seq<char>)> {
    v.map_values(|e: (String, String)| (e.0@, e.1@))
}

fn push_labelled(out: &mut Vec<(String, String)>, label: &str, v: &Option<String>)
    ensures
        line_pairs(final(out)@) == line_pairs(old(out)@) + labelled(label@, opt_view(*v)),
{
    match v {
        Some(x) => {
            out.push((string_of(&chars_of(label)), x.clone()));
            assert(line_pairs(out@) =~= line_pairs(old(out)@) + labelled(label@, opt_view(*v)));
        },
        None => {
            assert(line_pairs(out@) =~= line_pairs(old(out)@) + labelled(label@, opt_view(*v)));
        },
    }
}

/// The labelled metadata lines, as `metadata_lines` describes.
pub fn metadata_fields(m: &PdfMetadata) -> (r: Vec<(String, String)>)
    ensures
        line_pairs(r@) == metadata_lines(*m),
{
    let mut out: Vec<(String, String)> = Vec::new();
    assert(line_pairs(out@) =~= Seq::<(Seq<char>, Seq<char>)>::empty());
    push_labelled(&mut out, "Title", &m.title);
    push_labelled(&mut out, "Author", &m.author);
    push_labelled(&mut out, "Subject", &m.subject);
    push_labelled(&mut out, "Keywords", &m.keywords);
    push_labelled(&mut out, "Creator", &m.creator);
    push_labelled(&mut out, "Producer", &m.producer);
    push_labelled(&mut out, "Created", &m.created);
    push_labelled(&mut out, "Modified", &m.modified);
    let pages: Option<String> = match m.page_count {
        Some(p) => Some(string_of(&u64_to_decimal(p as u64))),
        None => None,
    };
    push_labelled(&mut out, "Pages", &pages);
    assert(line_pairs(out@) =~= metadata_lines(*m));
    out
}

proof fn lemma_concat_contains(a: Seq<(Seq<char>, Seq<char>)>, b: Seq<(Seq<char>, Seq<char>)>, x: (Seq<char>, Seq<char>))
    ensures
        (a + b).contains(x) <==> a.contains(x) || b.contains(x),
{
    if a.contains(x) {
        let i = choose|i: int| 0 <= i < a.len() && a[i] == x;
        assert((a + b)[i] == x);
    }
    if b.contains(x) {
        let i = choose|i: int| 0 <= i < b.len() && b[i] == x;
        assert((a + b)[a.len() + i] == x);
    }
    if (a + b).contains(x) {
        let i = choose|i: int| 0 <= i < (a + b).len() && (a + b)[i] == x;
        if i < a.len() {
            assert(a[i] == x);
        } else {
            assert(b[i - a.len()] == x);
        }
    }
}

proof fn lemma_labelled_contains(label: Seq<char>, v: Option<Seq<char>>, x: (Seq<char>, Seq<char>))
    ensures
        labelled(label, v).contains(x) <==> (x.0 == label && v == Some(x.1)),
{
    if v is Some && x.0 == label && v == Some(x.1) {
        assert(labelled(label, v)[0] == x);
    }
}

proof fn lemma_parts_contain(
    parts: Seq<Seq<(Seq<char>, Seq<char>)>>,
    labels: Seq<Seq<char>>,
    values: Seq<Option<Seq<char>>>,
    x: (Seq<char>, Seq<char>),
)
    requires
        parts.len() == 9,
        labels.len() == 9,
        values.len() == 9,
        forall|k: int| 0 <= k < 9 ==> #[trigger] parts[k] == labelled(labels[k], values[k]),
    ensures
        (parts[0] + parts[1] + parts[2] + parts[3] + parts[4] + parts[5] + parts[6] + parts[7]
            + parts[8]).contains(x) <==> exists|k: int|
            0 <= k < 9 && x.0 == labels[k] && values[k] == Some(x.1),
{
    let a1 = parts[0] + parts[1];
    let a2 = a1 + parts[2];
    let a3 = a2 + parts[3];
    let a4 = a3 + parts[4];
    let a5 = a4 + parts[5];
    let a6 = a5 + parts[6];
    let a7 = a6 + parts[7];
    let a8 = a7 + parts[8];
    lemma_concat_contains(parts[0], parts[1], x);
    lemma_concat_contains(a1, parts[2], x);
    lemma_concat_contains(a2, parts[3], x);
    lemma_concat_contains(a3, parts[4], x);
    lemma_concat_contains(a4, parts[5], x);
    lemma_concat_contains(a5, parts[6], x);
    lemma_concat_contains(a6, parts[7], x);
    lemma_concat_contains(a7, parts[8], x);
    assert forall|k: int| 0 <= k < 9 implies (#[trigger] parts[k]).contains(x) <==> (x.0 == labels[k]
        && values[k] == Some(x.1)) by {
        lemma_labelled_contains(labels[k], values[k], x);
    }
    if exists|k: int| 0 <= k < 9 && x.0 == labels[k] && values[k] == Some(x.1) {
        let k = choose|k: int| 0 <= k < 9 && x.0 == labels[k] && values[k] == Some(x.1);
        assert(parts[k].contains(x));
    }
    if a8.contains(x) {
        if parts[0].contains(x) { assert(0 <= 0int < 9 && x.0 == labels[0] && values[0] == Some(x.1)); }
        else if parts[1].contains(x) { assert(x.0 == labels[1] && values[1] == Some(x.1)); }
        else if parts[2].contains(x) { assert(x.0 == labels[2] && values[2] == Some(x.1)); }
        else if parts[3].contains(x) { assert(x.0 == labels[3] && values[3] == Some(x.1)); }
        else if parts[4].contains(x) { assert(x.0 == labels[4] && values[4] == Some(x.1)); }
        else if parts[5].contains(x) { assert(x.0 == labels[5] && values[5] == Some(x.1)); }
        else if parts[6].contains(x) { assert(x.0 == labels[6] && values[6] == Some(x.1)); }
        else if parts[7].contains(x) { assert(x.0 == labels[7] && values[7] == Some(x.1)); }
        else { assert(parts[8].contains(x)); assert(x.0 == labels[8] && values[8] == Some(x.1)); }
    }
}

/// Each labelled metadata line carries the field it names: a line with a
/// label and a value is shown exactly when that field holds that value.
pub proof fn law_metadata_lines_carry_their_fields(m: PdfMetadata, v: Seq<char>)
    ensures
        metadata_lines(m).contains(("Title"@, v)) <==> opt_view(m.title) == Some(v),
        metadata_lines(m).contains(("Author"@, v)) <==> opt_view(m.author) == Some(v),
        metadata_lines(m).contains(("Subject"@, v)) <==> opt_view(m.subject) == Some(v),
        metadata_lines(m).contains(("Keywords"@, v)) <==> opt_view(m.keywords) == Some(v),
        metadata_lines(m).contains(("Creator"@, v)) <==> opt_view(m.creator) == Some(v),
        metadata_lines(m).contains(("Producer"@, v)) <==> opt_view(m.producer) == Some(v),
        metadata_lines(m).contains(("Created"@, v)) <==> opt_view(m.created) == Some(v),
        metadata_lines(m).contains(("Modified"@, v)) <==> opt_view(m.modified) == Some(v),
        metadata_lines(m).contains(("Pages"@, v)) <==> (m.page_count matches Some(p) && v
            == decimal(p as nat)),
{
    reveal_strlit("Title");
    reveal_strlit("Author");
    reveal_strlit("Subject");
    reveal_strlit("Keywords");
    reveal_strlit("Creator");
    reveal_strlit("Producer");
    reveal_strlit("Created");
    reveal_strlit("Modified");
    reveal_strlit("Pages");
    let pages = match m.page_count {
        Some(p) => Some(decimal(p as nat)),
        None => None,
    };
    let parts = seq![
        labelled("Title"@, opt_view(m.title)),
        labelled("Author"@, opt_view(m.author)),
        labelled("Subject"@, opt_view(m.subject)),
        labelled("Keywords"@, opt_view(m.keywords)),
        labelled("Creator"@, opt_view(m.creator)),
        labelled("Producer"@, opt_view(m.producer)),
        labelled("Created"@, opt_view(m.created)),
        labelled("Modified"@, opt_view(m.modified)),
        labelled("Pages"@, pages),
    ];
    let labels = seq!["Title"@, "Author"@, "Subject"@, "Keywords"@, "Creator"@, "Producer"@, "Created"@, "Modified"@, "Pages"@];
    let values = seq![
        opt_view(m.title),
        opt_view(m.author),
        opt_view(m.subject),
        opt_view(m.keywords),
        opt_view(m.creator),
        opt_view(m.producer),
        opt_view(m.created),
        opt_view(m.modified),
        pages,
    ];
    assert(metadata_lines(m) == parts[0] + parts[1] + parts[2] + parts[3] + parts[4] + parts[5]
        + parts[6] + parts[7] + parts[8]);
    assert forall|k: int| 0 <= k < 9 implies #[trigger] parts[k] == labelled(labels[k], values[k]) by {}
    assert forall|k: int, j: int| 0 <= k < 9 && 0 <= j < 9 && k != j implies #[trigger] labels[k] != #[trigger] labels[j] by {
        if labels[k] == labels[j] {
            assert(labels[k].len() == labels[j].len());
            assert(labels[k][0] == labels[j][0]);
            assert(labels[k][5] == labels[j][5]);
        }
    }
    assert forall|x: (Seq<char>, Seq<char>)| #[trigger] metadata_lines(m).contains(x) implies exists|k: int| 0 <= k < 9 && x.0 == labels[k] && values[k] == Some(x.1) by {
        lemma_parts_contain(parts, labels, values, x);
    }
    assert forall|k: int| 0 <= k < 9 && values[k] == Some(v) implies #[trigger] metadata_lines(m).contains((labels[k], v)) by {
        lemma_parts_contain(parts, labels, values, (labels[k], v));
    }
    assert forall|k: int| 0 <= k < 9 implies (metadata_lines(m).contains((#[trigger] labels[k], v)) <==> values[k] == Some(v)) by {
        if metadata_lines(m).contains((labels[k], v)) {
            let j = choose|j: int| 0 <= j < 9 && (labels[k], v).0 == labels[j] && values[j] == Some((labels[k], v).1);
            assert(j == k);
        }
    }
    assert(labels[0] == "Title"@);
    assert(labels[1] == "Author"@);
    assert(labels[2] == "Subject"@);
    assert(labels[3] == "Keywords"@);
    assert(labels[4] == "Creator"@);
    assert(labels[5] == "Producer"@);
    assert(labels[6] == "Created"@);
    assert(labels[7] == "Modified"@);
    assert(labels[8] == "Pages"@);
}

/// `s` repeated `n` times.
pub open spec fn repeat_seq(s: Seq<char>, n: nat) -> Seq<char>
    decreases n,
{
    if n == 0 {
        seq![]
    } else {
        repeat_seq(s, (n - 1) as nat) + s
    }
}

/// A table of contents line: two spaces per level, a dash, the title, and
/// ` (p. N)` when the page is known.
pub open spec fn toc_line_text(title: Seq<char>, level: nat, page: Option<u32>) -> Seq<char> {
    repeat_seq("  "@, level) + "- "@ + title + match page {
        Some(p) => " (p. "@ + decimal(p as nat) + ")"@,
        None => seq![],
    }
}

/// Formats a table of contents line, as `toc_line_text` describes.
pub fn toc_line(e: &TocEntry) -> (r: String)
    ensures
        r@ == toc_line_text(e.title@, e.level as nat, e.page),
{
    let mut v: Vec<char> = Vec::new();
    let mut i: u32 = 0;
    while i < e.level
        invariant
            i <= e.level,
            v@ == repeat_seq("  "@, i as nat),
        decreases e.level - i,
    {
        append_chars(&mut v, &chars_of("  "));
        i = i + 1;
    }
    append_chars(&mut v, &chars_of("- "));
    append_chars(&mut v, &chars_of(e.title.as_str()));
    match e.page {
        Some(p) => {
            append_chars(&mut v, &chars_of(" (p. "));
            append_chars(&mut v, &u64_to_decimal(p as u64));
            append_chars(&mut v, &chars_of(")"));
        },
        None => {},
    }
    string_of(&v)
}


// ---------------------------------------------------------------------------
// Failures of a run
// ---------------------------------------------------------------------------

/// Why a conversion cannot start.
#[derive(Debug)]
pub enum RunFailure {
    /// The input cannot be had (the reason's text).
    InputUnavailable(String),
    /// A dry run names a local file that does not exist (its path as shown).
    InputMissing(String),
    /// The provider named is unknown (the name).
    UnsupportedProvider(String),
    /// The output exists and overwriting was not asked for.
    OutputExists,
    /// No API key was given or found.
    MissingApiKey,
}

/// What a failure is reported as: the exit status, the kind of error, the
/// message, and a suggestion.
#[derive(Debug)]
pub struct FailureReport {
    pub code: i32,
    pub error_type: String,
    pub message: String,
    pub suggestion: String,
}

/// The ending each failure gives: a missing input is not found, an unknown
/// provider or a missing key is a usage error, existing output a conflict.
pub open spec fn failure_exit(f: RunFailure) -> ExitCode {
    match f {
        RunFailure::InputUnavailable(_) => ExitCode::ResourceNotFound,
        RunFailure::InputMissing(_) => ExitCode::ResourceNotFound,
        RunFailure::UnsupportedProvider(_) => ExitCode::UsageError,
        RunFailure::OutputExists => ExitCode::Conflict,
        RunFailure::MissingApiKey => ExitCode::UsageError,
    }
}

/// The kind of error of each failure, as scripts read it.
pub open spec fn failure_type(f: RunFailure) -> Seq<char> {
    match f {
        RunFailure::InputUnavailable(_) => "resource_not_found"@,
        RunFailure::InputMissing(_) => "resource_not_found"@,
        RunFailure::UnsupportedProvider(_) => "usage_error"@,
        RunFailure::OutputExists => "conflict"@,
        RunFailure::MissingApiKey => "usage_error"@,
    }
}

/// The message of each failure in a report.
pub open spec fn failure_message(f: RunFailure) -> Seq<char> {
    match f {
        RunFailure::InputUnavailable(why) => why@,
        RunFailure::InputMissing(path) => "Input file does not exist: "@ + path@,
        RunFailure::UnsupportedProvider(name) => "Unsupported provider: "@ + name@,
        RunFailure::OutputExists => "Output files already exist"@,
        RunFailure::MissingApiKey => "API key must be provided"@,
    }
}

/// The suggestion that goes with each failure.
pub open spec fn failure_suggestion(f: RunFailure) -> Seq<char> {
    match f {
        RunFailure::InputUnavailable(_) => "Check that the file path or URL is correct"@,
        RunFailure::InputMissing(_) => "Check that the file path is correct and the file exists"@,
        RunFailure::UnsupportedProvider(_) => "Supported providers: paddleocr, zhipu/lite, zhipu/expert, zhipu/prime, mineru, mineru/vlm, mineru/pipeline, mineru/agent"@,
        RunFailure::OutputExists => "Use --overwrite to overwrite existing files, or choose a different output directory"@,
        RunFailure::MissingApiKey => "Use --api-key flag or set ZHIPU_API_KEY, PADDLE_OCR_API_KEY, or PROVIDER_API_KEY environment variable"@,
    }
}

/// The message of each failure when no report is asked for.
pub open spec fn failure_text(f: RunFailure) -> Seq<char> {
    match f {
        RunFailure::InputUnavailable(why) => why@,
        RunFailure::InputMissing(path) => "Input file does not exist: "@ + path@,
        RunFailure::UnsupportedProvider(name) => "Unsupported provider: "@ + name@
            + ". Supported providers: paddleocr, zhipu/lite, zhipu/expert, zhipu/prime, mineru, mineru/vlm, mineru/pipeline, mineru/agent"@,
        RunFailure::OutputExists => "Output files already exist. Use --overwrite to overwrite them."@,
        RunFailure::MissingApiKey => "API key must be provided via --api-key or provider-specific environment variable"@,
    }
}

fn owned(s: &str) -> (r: String)
    ensures
        r@ == s@,
{
    string_of(&chars_of(s))
}

fn joined(a: &str, b: &str) -> (r: String)
    ensures
        r@ == a@ + b@,
{
    let mut v = chars_of(a);
    append_chars(&mut v, &chars_of(b));
    string_of(&v)
}

impl RunFailure {
    /// The report of the failure, for `--json`.
    pub fn report(&self) -> (r: FailureReport)
        ensures
            r.code == exit_status(failure_exit(*self)),
            r.error_type@ == failure_type(*self),
            r.message@ == failure_message(*self),
            r.suggestion@ == failure_suggestion(*self),
    {
        match self {
            RunFailure::InputUnavailable(why) => FailureReport {
                code: 3,
                error_type: owned("resource_not_found"),
                message: owned(why.as_str()),
                suggestion: owned("Check that the file path or URL is correct"),
            },
            RunFailure::InputMissing(path) => FailureReport {
                code: 3,
                error_type: owned("resource_not_found"),
                message: joined("Input file does not exist: ", path.as_str()),
                suggestion: owned("Check that the file path is correct and the file exists"),
            },
            RunFailure::UnsupportedProvider(name) => FailureReport {
                code: 2,
                error_type: owned("usage_error"),
                message: joined("Unsupported provider: ", name.as_str()),
                suggestion: owned("Supported providers: paddleocr, zhipu/lite, zhipu/expert, zhipu/prime, mineru, mineru/vlm, mineru/pipeline, mineru/agent"),
            },
            RunFailure::OutputExists => FailureReport {
                code: 5,
                error_type: owned("conflict"),
                message: owned("Output files already exist"),
                suggestion: owned("Use --overwrite to overwrite existing files, or choose a different output directory"),
            },
            RunFailure::MissingApiKey => FailureReport {
                code: 2,
                error_type: owned("usage_error"),
                message: owned("API key must be provided"),
                suggestion: owned("Use --api-key flag or set ZHIPU_API_KEY, PADDLE_OCR_API_KEY, or PROVIDER_API_KEY environment variable"),
            },
        }
    }

    /// The message of the failure, without `--json`.
    pub fn text(&self) -> (r: String)
        ensures
            r@ == failure_text(*self),
    {
        match self {
            RunFailure::InputUnavailable(why) => owned(why.as_str()),
            RunFailure::InputMissing(path) => joined("Input file does not exist: ", path.as_str()),
            RunFailure::UnsupportedProvider(name) => {
                let first = joined("Unsupported provider: ", name.as_str());
                joined(first.as_str(), ". Supported providers: paddleocr, zhipu/lite, zhipu/expert, zhipu/prime, mineru, mineru/vlm, mineru/pipeline, mineru/agent")
            },
            RunFailure::OutputExists => owned("Output files already exist. Use --overwrite to overwrite them."),
            RunFailure::MissingApiKey => owned("API key must be provided via --api-key or provider-specific environment variable"),
        }
    }
}

} // verus!
