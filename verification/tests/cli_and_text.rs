use pdf_to_markdown::cli::{
    choose_option, format_size, int_error_text, metadata_fields, output_conflict,
    parse_page_ranges, provider_display, resolve_api_key, resolve_provider, toc_line,
    ChoiceError, ExitCode, PageRangeError, RunFailure,
};
use pdf_to_markdown::pdf::{PdfMetadata, TocEntry};
use pdf_to_markdown::auth::{set_credential, CredentialStore};
use pdf_to_markdown::provider::{MinerUModel, ProviderType, ZhipuModel};
use pdf_to_markdown::text::IntErrorKind;
use pdf_to_markdown::utils::{is_url, normalize_arxiv_url};

fn reference_size(bytes: u64) -> String {
    const KB: u64 = 1024;
    const MB: u64 = KB * 1024;
    const GB: u64 = MB * 1024;
    if bytes >= GB {
        format!("{:.2} GB", bytes as f64 / GB as f64)
    } else if bytes >= MB {
        format!("{:.2} MB", bytes as f64 / MB as f64)
    } else if bytes >= KB {
        format!("{:.2} KB", bytes as f64 / KB as f64)
    } else {
        format!("{} bytes", bytes)
    }
}

#[test]
fn format_size_small_values() {
    assert_eq!(format_size(0), "0 bytes");
    assert_eq!(format_size(1023), "1023 bytes");
    assert_eq!(format_size(1024), "1.00 KB");
    assert_eq!(format_size(1536), "1.50 KB");
    assert_eq!(format_size(1024 * 1024), "1.00 MB");
    assert_eq!(format_size(5 * 1024 * 1024 * 1024), "5.00 GB");
}

#[test]
fn format_size_matches_float_formatting() {
    for b in 0u64..70_000 {
        assert_eq!(format_size(b), reference_size(b), "bytes = {}", b);
    }
    let mut b: u64 = 1024 * 1024 - 5000;
    while b < 3 * 1024 * 1024 {
        assert_eq!(format_size(b), reference_size(b), "bytes = {}", b);
        b += 37;
    }
    let gb: u64 = 1024 * 1024 * 1024;
    for k in 0u64..4000 {
        let v = gb - 2000 + k * 997;
        assert_eq!(format_size(v), reference_size(v), "bytes = {}", v);
    }
    for v in [u64::MAX, u64::MAX / 3, 1u64 << 60, (1u64 << 53) + 1, 123_456_789_012_345] {
        assert_eq!(format_size(v), reference_size(v), "bytes = {}", v);
    }
}

#[test]
fn page_ranges_parse() {
    assert_eq!(parse_page_ranges("1-5,10").unwrap(), vec![(1, 5), (10, 10)]);
    assert_eq!(parse_page_ranges(" 3 , 7 - 9 ").unwrap(), vec![(3, 3), (7, 9)]);
    assert_eq!(parse_page_ranges("").unwrap(), Vec::<(u32, u32)>::new());
    assert_eq!(parse_page_ranges(",,").unwrap(), Vec::<(u32, u32)>::new());
    // a part with two dashes is skipped
    assert_eq!(parse_page_ranges("1-2-3,4").unwrap(), vec![(4, 4)]);
}

#[test]
fn page_ranges_errors() {
    assert_eq!(
        parse_page_ranges("a"),
        Err(PageRangeError { kind: IntErrorKind::InvalidDigit })
    );
    assert_eq!(
        parse_page_ranges("1-x"),
        Err(PageRangeError { kind: IntErrorKind::InvalidDigit })
    );
    assert_eq!(parse_page_ranges("-3"), Err(PageRangeError { kind: IntErrorKind::Empty }));
    assert_eq!(
        parse_page_ranges("99999999999"),
        Err(PageRangeError { kind: IntErrorKind::PosOverflow })
    );
    assert_eq!(int_error_text(IntErrorKind::InvalidDigit), "invalid digit found in string");
    assert_eq!(int_error_text(IntErrorKind::Empty), "cannot parse integer from empty string");
    assert_eq!(
        int_error_text(IntErrorKind::PosOverflow),
        "number too large to fit in target type"
    );
    assert_eq!("a".parse::<u32>().unwrap_err().to_string(), "invalid digit found in string");
}

#[test]
fn choose_option_picks_by_number() {
    let options = vec!["Yes, clear it".to_string(), "No, cancel".to_string()];
    assert_eq!(choose_option("1\n", &options), Ok("Yes, clear it".to_string()));
    assert_eq!(choose_option(" 2 ", &options), Ok("No, cancel".to_string()));
    assert_eq!(choose_option("3", &options), Err(ChoiceError::Invalid));
    assert_eq!(choose_option("0", &options), Err(ChoiceError::Invalid));
    assert_eq!(
        choose_option("yes", &options),
        Err(ChoiceError::NotANumber(IntErrorKind::InvalidDigit))
    );
    assert_eq!(choose_option("", &options), Err(ChoiceError::NotANumber(IntErrorKind::Empty)));
}

#[test]
fn provider_resolution() {
    assert_eq!(resolve_provider(None), Ok(ProviderType::PaddleOcr));
    assert_eq!(resolve_provider(Some("zhipu/lite")), Ok(ProviderType::Zhipu(ZhipuModel::Lite)));
    assert_eq!(resolve_provider(Some("ZHIPU")), Ok(ProviderType::Zhipu(ZhipuModel::Prime)));
    let e = resolve_provider(Some("foo")).unwrap_err();
    assert_eq!(e, "foo");
    assert_eq!(provider_display(ProviderType::PaddleOcr), "PaddleOCR");
    assert_eq!(provider_display(ProviderType::Zhipu(ZhipuModel::Expert)), "Zhipu (expert)");
    assert_eq!(provider_display(ProviderType::MinerU(MinerUModel::Agent)), "MinerU (agent)");
    assert_eq!(resolve_provider(Some("mineru")), Ok(ProviderType::MinerU(MinerUModel::Vlm)));
}

#[test]
fn api_key_precedence() {
    let z = ProviderType::Zhipu(ZhipuModel::Lite);
    let p = ProviderType::PaddleOcr;
    let m = ProviderType::MinerU(MinerUModel::Vlm);
    let agent = ProviderType::MinerU(MinerUModel::Agent);
    let s = |x: &str| Some(x.to_string());
    let empty = CredentialStore::new();
    let mut stored = CredentialStore::new();
    set_credential(&mut stored, "zhipu", "kz");
    set_credential(&mut stored, "mineru", "km");
    assert_eq!(resolve_api_key(s("flag"), z, s("z"), s("p"), s("m"), s("g"), &stored), s("flag"));
    assert_eq!(resolve_api_key(None, z, s("z"), s("p"), s("m"), s("g"), &stored), s("z"));
    assert_eq!(resolve_api_key(None, p, s("z"), s("p"), s("m"), s("g"), &stored), s("p"));
    assert_eq!(resolve_api_key(None, m, s("z"), s("p"), s("m"), s("g"), &stored), s("m"));
    assert_eq!(resolve_api_key(None, z, None, s("p"), s("m"), s("g"), &stored), s("g"));
    // the stored credential comes last
    assert_eq!(resolve_api_key(None, z, None, None, None, None, &stored), s("kz"));
    assert_eq!(resolve_api_key(None, m, None, None, None, None, &stored), s("km"));
    assert_eq!(resolve_api_key(None, p, None, None, None, None, &stored), None);
    assert_eq!(resolve_api_key(None, p, s("z"), None, None, None, &empty), None);
    // the MinerU agent needs no key
    assert_eq!(resolve_api_key(None, agent, None, None, None, None, &empty), s(""));
    assert_eq!(resolve_api_key(None, agent, None, None, None, None, &stored), s("km"));
}

#[test]
fn exit_codes_and_conflicts() {
    assert_eq!(ExitCode::Success.code(), 0);
    assert_eq!(ExitCode::GeneralFailure.code(), 1);
    assert_eq!(ExitCode::UsageError.code(), 2);
    assert_eq!(ExitCode::ResourceNotFound.code(), 3);
    assert_eq!(ExitCode::PermissionDenied.code(), 4);
    assert_eq!(ExitCode::Conflict.code(), 5);
    assert!(output_conflict(false, true, false));
    assert!(output_conflict(false, false, true));
    assert!(!output_conflict(false, false, false));
    assert!(!output_conflict(true, true, true));
}

#[test]
fn metadata_lines_and_toc() {
    let m = PdfMetadata {
        title: Some("T".to_string()),
        author: None,
        subject: None,
        keywords: Some("k".to_string()),
        creator: None,
        producer: None,
        created: Some("2023-01-15".to_string()),
        modified: None,
        page_count: Some(12),
        table_of_contents: Vec::new(),
    };
    let f = metadata_fields(&m);
    assert_eq!(
        f,
        vec![
            ("Title".to_string(), "T".to_string()),
            ("Keywords".to_string(), "k".to_string()),
            ("Created".to_string(), "2023-01-15".to_string()),
            ("Pages".to_string(), "12".to_string()),
        ]
    );
    let e = TocEntry { title: "Intro".to_string(), level: 2, page: Some(3) };
    assert_eq!(toc_line(&e), "    - Intro (p. 3)");
    let e = TocEntry { title: "End".to_string(), level: 0, page: None };
    assert_eq!(toc_line(&e), "- End");
}

#[test]
fn urls() {
    assert!(is_url("http://x"));
    assert!(is_url("https://x"));
    assert!(!is_url("ftp://x"));
    assert!(!is_url("doc.pdf"));
    assert_eq!(
        normalize_arxiv_url("https://arxiv.org/abs/2301.07041"),
        "https://arxiv.org/pdf/2301.07041.pdf"
    );
    assert_eq!(
        normalize_arxiv_url("http://arxiv.org/abs/cs/0112017v1"),
        "https://arxiv.org/pdf/cs/0112017v1.pdf"
    );
    assert_eq!(
        normalize_arxiv_url("https://example.com/abs/1.pdf"),
        "https://example.com/abs/1.pdf"
    );
}

#[test]
fn run_failures_are_reported() {

    let r = RunFailure::UnsupportedProvider("foo".to_string()).report();
    assert_eq!((r.code, r.error_type.as_str()), (2, "usage_error"));
    assert_eq!(r.message, "Unsupported provider: foo");
    assert_eq!(r.suggestion, "Supported providers: paddleocr, zhipu/lite, zhipu/expert, zhipu/prime, mineru, mineru/vlm, mineru/pipeline, mineru/agent");
    assert_eq!(
        RunFailure::UnsupportedProvider("foo".to_string()).text(),
        "Unsupported provider: foo. Supported providers: paddleocr, zhipu/lite, zhipu/expert, zhipu/prime, mineru, mineru/vlm, mineru/pipeline, mineru/agent"
    );
    let r = RunFailure::OutputExists.report();
    assert_eq!((r.code, r.error_type.as_str(), r.message.as_str()), (5, "conflict", "Output files already exist"));
    assert_eq!(RunFailure::OutputExists.text(), "Output files already exist. Use --overwrite to overwrite them.");
    let r = RunFailure::MissingApiKey.report();
    assert_eq!((r.code, r.error_type.as_str()), (2, "usage_error"));
    let r = RunFailure::InputMissing("a.pdf".to_string()).report();
    assert_eq!((r.code, r.message.as_str()), (3, "Input file does not exist: a.pdf"));
    assert_eq!(r.suggestion, "Check that the file path is correct and the file exists");
    let r = RunFailure::InputUnavailable("boom".to_string()).report();
    assert_eq!((r.code, r.error_type.as_str(), r.message.as_str()), (3, "resource_not_found", "boom"));
    assert_eq!(RunFailure::InputUnavailable("boom".to_string()).text(), "boom");
}
