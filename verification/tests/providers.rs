use pdf_to_markdown::provider::archive::{file_base_name, read_result_archive, scan_entries};
use pdf_to_markdown::provider::mineru::{
    agent_markdown_url, agent_poll_step, agent_request, agent_upload_target, batch_poll_step,
    completion_message, model_version, precision_request, precision_upload_target, result_zip_url,
    select_result, AgentFileData, AgentFileResponse, AgentStatusData, AgentStatusResponse,
    BatchResultsData, BatchResultsResponse, ExtractProgress, ExtractResultItem, FileUrlsBatchData,
    FileUrlsBatchResponse, MinerUConfig, MinerUError,
};
use pdf_to_markdown::provider::paddleocr::{
    assemble_result, job_poll_step, job_submitted_message, nonblank_lines, optional_payload,
    require_result_url, JobPoll, JobStatusData, JsonlLine, JsonlResult, LayoutParsingResult,
    MarkdownData, OptionalPayload, PaddleOcrConfig, PaddleOcrError, ResultUrl,
};
use pdf_to_markdown::provider::traits::{splitting_pages_message, ProgressUpdate, ZhipuConfig};
use pdf_to_markdown::provider::zhipu::{
    classify_package_file, file_extension, first_attempt, polling_message, splitting_message,
    task_created_message, zhipu_markdown, zhipu_next, zhipu_poll_step, PackageFile,
    QueryResultResponse, ZhipuAction, ZhipuError, ZhipuPoll,
};
use pdf_to_markdown::provider::{MinerUModel, ProviderType, ZhipuModel};
use std::io::Write;
use std::path::Path;

#[test]
fn provider_names_round_trip() {
    for p in [
        ProviderType::PaddleOcr,
        ProviderType::Zhipu(ZhipuModel::Lite),
        ProviderType::Zhipu(ZhipuModel::Expert),
        ProviderType::Zhipu(ZhipuModel::Prime),
        ProviderType::MinerU(MinerUModel::Vlm),
        ProviderType::MinerU(MinerUModel::Pipeline),
        ProviderType::MinerU(MinerUModel::Agent),
    ] {
        assert_eq!(ProviderType::from_str(&p.as_str()), Some(p));
    }
    for m in [ZhipuModel::Lite, ZhipuModel::Expert, ZhipuModel::Prime] {
        assert_eq!(ZhipuModel::from_str(m.as_str()), Some(m));
    }
    assert_eq!(ProviderType::from_str("PaddleOCR"), Some(ProviderType::PaddleOcr));
    assert_eq!(ProviderType::from_str("Zhipu/EXPERT"), Some(ProviderType::Zhipu(ZhipuModel::Expert)));
    assert_eq!(ProviderType::from_str("zhipu"), Some(ProviderType::Zhipu(ZhipuModel::Prime)));
    assert_eq!(ProviderType::from_str("zhipu/"), None);
    assert_eq!(ProviderType::from_str("zhipu/max"), None);
    assert_eq!(ProviderType::from_str("mineru"), Some(ProviderType::MinerU(MinerUModel::Vlm)));
    assert_eq!(ProviderType::from_str("mineru/vlm"), Some(ProviderType::MinerU(MinerUModel::Vlm)));
    assert_eq!(ProviderType::from_str("MinerU/Pipeline"), Some(ProviderType::MinerU(MinerUModel::Pipeline)));
    assert_eq!(ProviderType::from_str("mineru/agent"), Some(ProviderType::MinerU(MinerUModel::Agent)));
    assert_eq!(ProviderType::from_str("mineru/"), None);
    assert_eq!(ProviderType::from_str("mineru/fast"), None);
    assert_eq!(ProviderType::MinerU(MinerUModel::Agent).as_str(), "mineru/agent");
    assert_eq!(ProviderType::default(), ProviderType::PaddleOcr);
    assert_eq!(MinerUModel::default(), MinerUModel::Vlm);
    assert_eq!(MinerUModel::Pipeline.as_str(), "pipeline");
    assert_eq!(MinerUModel::Agent.as_str(), "agent");
    assert_eq!(ZhipuModel::from_str("LITE"), Some(ZhipuModel::Lite));
}

#[test]
fn default_configs() {
    let z = ZhipuConfig::default();
    assert_eq!(z.tool_type, "prime");
    assert_eq!(z.max_retries, 60);
    assert_eq!(z.poll_interval_secs, 3);
    let p = PaddleOcrConfig::default();
    assert_eq!(p.layout_merge_bboxes_mode.as_deref(), Some("union"));
    assert_eq!(p.use_layout_detection, Some(true));
    let o = optional_payload(&p);
    assert_eq!(o.layout_nms, Some(true));
    assert_eq!(o.layout_merge_bboxes_mode.as_deref(), Some("union"));
    let d = OptionalPayload::default();
    assert_eq!(d.use_layout_detection, Some(false));
    let m = MinerUConfig::default();
    assert_eq!(m.language.as_deref(), Some("en"));
    let u = ProgressUpdate::new("x".to_string());
    assert_eq!((u.message.as_str(), u.current, u.total), ("x", 0, None));
    assert_eq!(splitting_pages_message(&vec![(1, 5), (10, 10)]), "Splitting PDF to pages [(1, 5), (10, 10)]");
    assert_eq!(splitting_pages_message(&vec![]), format!("Splitting PDF to pages {:?}", Vec::<(u32, u32)>::new()));
}

fn item(state: &str, url: Option<&str>, err: Option<&str>) -> ExtractResultItem {
    ExtractResultItem {
        file_name: "f.pdf".to_string(),
        state: state.to_string(),
        full_zip_url: url.map(|s| s.to_string()),
        extract_progress: Some(ExtractProgress { total_pages: Some(7), extracted_pages: Some(7) }),
        err_msg: err.map(|s| s.to_string()),
    }
}

#[test]
fn mineru_precision_flow() {
    let cfg = MinerUConfig::default();
    let req = precision_request("a.pdf", model_version(MinerUModel::Vlm), &cfg);
    assert_eq!(req.files.len(), 1);
    assert_eq!(req.files[0].name, "a.pdf");
    assert_eq!(req.model_version, "vlm");
    assert_eq!(model_version(MinerUModel::Pipeline), "pipeline");

    let ok = FileUrlsBatchResponse {
        code: 0,
        msg: None,
        data: Some(FileUrlsBatchData { batch_id: "b1".into(), file_urls: vec!["u1".into()] }),
    };
    assert_eq!(precision_upload_target(ok).unwrap(), ("b1".to_string(), "u1".to_string()));
    let bad = FileUrlsBatchResponse { code: -1, msg: Some("no".into()), data: None };
    let e = precision_upload_target(bad).unwrap_err();
    assert_eq!(e.message(), "MinerU file-urls/batch failed: code=-1, msg=Some(\"no\")");
    let empty = FileUrlsBatchResponse {
        code: 0,
        msg: None,
        data: Some(FileUrlsBatchData { batch_id: "b".into(), file_urls: vec![] }),
    };
    assert_eq!(precision_upload_target(empty).unwrap_err().message(), "MinerU file-urls/batch returned empty file_urls");

    let running = BatchResultsResponse {
        code: 0,
        msg: None,
        data: Some(BatchResultsData { batch_id: "b".into(), extract_result: vec![item("running", None, None)] }),
    };
    assert!(batch_poll_step(running).unwrap().is_none());
    let done = BatchResultsResponse {
        code: 0,
        msg: None,
        data: Some(BatchResultsData {
            batch_id: "b".into(),
            extract_result: vec![item("failed", None, Some("bad")), item("done", Some("z"), None)],
        }),
    };
    let d = batch_poll_step(done).unwrap().unwrap();
    let i = select_result(&d).unwrap();
    assert_eq!(i, 1);
    assert_eq!(result_zip_url(&d.extract_result[i]).unwrap(), "z");
    assert_eq!(
        completion_message("Parsing complete! ", &d.extract_result[i].extract_progress),
        "Parsing complete! Total pages: 7"
    );
    let failed = BatchResultsData { batch_id: "b".into(), extract_result: vec![item("failed", None, None)] };
    assert_eq!(select_result(&failed).unwrap_err().message(), "MinerU parsing failed: unknown error");
    let none = BatchResultsData { batch_id: "b".into(), extract_result: vec![] };
    assert_eq!(select_result(&none).unwrap_err().message(), "MinerU parsing did not complete");
    assert_eq!(result_zip_url(&item("done", None, None)).unwrap_err().message(), "No ZIP URL in MinerU result");
    let q = BatchResultsResponse { code: 3, msg: None, data: None };
    assert_eq!(batch_poll_step(q).unwrap_err().message(), "MinerU batch results query failed: code=3, msg=None");
}

#[test]
fn mineru_agent_flow() {
    let cfg = MinerUConfig::default();
    let r = agent_request("x.pdf", &cfg);
    assert_eq!(r.file_name, "x.pdf");
    assert!(r.page_range.is_none());
    let resp = AgentFileResponse { code: 0, data: Some(AgentFileData { task_id: "t".into(), file_url: "u".into() }) };
    assert_eq!(agent_upload_target(resp).unwrap(), ("t".to_string(), "u".to_string()));
    assert_eq!(
        agent_upload_target(AgentFileResponse { code: 9, data: None }).unwrap_err().message(),
        "MinerU Agent API failed: code=9"
    );
    let st = |s: &str| AgentStatusResponse {
        code: 0,
        data: Some(AgentStatusData {
            state: s.to_string(),
            markdown_url: Some("m".into()),
            extract_progress: None,
            err_code: Some(-2),
            err_msg: Some("oops".into()),
        }),
    };
    assert!(agent_poll_step(st("pending")).unwrap().is_none());
    let d = agent_poll_step(st("done")).unwrap().unwrap();
    assert_eq!(agent_markdown_url(&d).unwrap(), "m");
    assert_eq!(agent_poll_step(st("failed")).unwrap_err().message(), "Agent parse failed: code=-2, msg=Some(\"oops\")");
    assert_eq!(agent_poll_step(st("weird")).unwrap_err().message(), "Unknown agent task state: weird");
}

fn build_zip(entries: &[(&str, Option<&[u8]>)]) -> Vec<u8> {
    let mut w = zip::ZipWriter::new(std::io::Cursor::new(Vec::new()));
    let opts = zip::write::SimpleFileOptions::default();
    for (name, data) in entries {
        match data {
            Some(d) => {
                w.start_file(*name, opts).unwrap();
                w.write_all(d).unwrap();
            }
            None => {
                w.add_directory(*name, opts).unwrap();
            }
        }
    }
    w.finish().unwrap().into_inner()
}

#[test]
fn archive_scan_filters_entries() {
    let entries = vec![
        ("root/".to_string(), true),
        ("root/full.md".to_string(), false),
        ("root/images/a.PNG".to_string(), false),
        ("__MACOSX/root/._full.md".to_string(), false),
        (".hidden.md".to_string(), false),
        ("notes.MD".to_string(), false),
        ("root/images/b.webp".to_string(), false),
        ("root/data.json".to_string(), false),
        ("root/figure.png".to_string(), false),
        ("images/c.jpg".to_string(), false),
        ("myimages/d.jpg".to_string(), false),
    ];
    let (md, images) = scan_entries(&entries);
    assert_eq!(md, vec![("root/full.md".to_string(), 1), ("notes.MD".to_string(), 0)]);
    // only images under an images/ directory
    assert_eq!(
        images,
        vec!["root/images/a.PNG".to_string(), "root/images/b.webp".to_string(), "images/c.jpg".to_string()]
    );
    assert_eq!(file_base_name("root/images/a.png"), "a.png");
    assert_eq!(file_base_name("a.png"), "a.png");
}

#[test]
fn archive_reads_first_markdown_and_flattens_images() {
    let bytes = build_zip(&[
        ("batch/", None),
        ("batch/full.md", Some(b"see ![](batch/images/x.png)".as_slice())),
        ("batch/images/x.png", Some(b"PNGDATA".as_slice())),
        ("z.md", Some(b"top ![](batch/images/x.png)".as_slice())),
        ("b/a.md", Some(b"second".as_slice())),
        ("a.md", Some(&[0xff, 0xfe][..])),
        ("batch/other.png", Some(b"skip".as_slice())),
    ]);
    // the first Markdown file: fewest '/', then the least name ("a.md" fails)
    let e = read_result_archive(&bytes).unwrap_err();
    match &e {
        MinerUError::ZipRead(n, _) => assert_eq!(n, "a.md"),
        other => panic!("unexpected {:?}", other),
    }
    let bytes = build_zip(&[
        ("batch/", None),
        ("batch/full.md", Some(b"see ![](batch/images/x.png)".as_slice())),
        ("batch/images/x.png", Some(b"PNGDATA".as_slice())),
        ("z.md", Some(b"top ![](batch/images/x.png)".as_slice())),
        ("b/a.md", Some(b"second".as_slice())),
        ("batch/other.png", Some(b"skip".as_slice())),
    ]);
    let c = read_result_archive(&bytes).unwrap();
    assert_eq!(c.markdown_file, "z.md");
    assert_eq!(c.markdown, "top ![](x.png)");
    assert_eq!(c.images, vec![("x.png".to_string(), b"PNGDATA".to_vec())]);
    let bytes = build_zip(&[("batch/full.md", Some(b"![](batch/images/y.jpg)".as_slice())), ("batch/images/y.jpg", Some(b"J".as_slice()))]);
    let c = read_result_archive(&bytes).unwrap();
    assert_eq!(c.markdown, "![](y.jpg)");
}

#[test]
fn archive_errors() {
    let e = read_result_archive(b"not a zip").unwrap_err();
    assert!(matches!(e, MinerUError::ZipOpen(_)));
    assert!(e.message().starts_with("Failed to open MinerU result ZIP: "));
    let bytes = build_zip(&[("images/a.png", Some(b"x".as_slice())), ("__MACOSX/a.md", Some(b"x".as_slice()))]);
    let e = read_result_archive(&bytes).unwrap_err();
    assert!(matches!(e, MinerUError::NoMarkdownInZip));
    assert_eq!(e.message(), "No markdown file found in MinerU result ZIP");
    let bytes = build_zip(&[("doc.md", Some(&[0xff, 0xfe, 0x00][..]))]);
    let e = read_result_archive(&bytes).unwrap_err();
    match &e {
        MinerUError::ZipRead(n, _) => assert_eq!(n, "doc.md"),
        other => panic!("unexpected {:?}", other),
    }
    assert!(e.message().starts_with("Failed to read ZIP entry 'doc.md': "));
}

fn status(state: &str, progress: Option<(Option<i32>, Option<i32>)>, url: Option<&str>, msg: Option<&str>) -> JobStatusData {
    JobStatusData {
        state: state.to_string(),
        error_msg: msg.map(|s| s.to_string()),
        extract_progress: progress.map(|(t, x)| pdf_to_markdown::provider::paddleocr::ExtractProgress {
            total_pages: t,
            extracted_pages: x,
            start_time: None,
            end_time: None,
        }),
        result_url: url.map(|u| ResultUrl { json_url: u.to_string() }),
    }
}

#[test]
fn paddle_job_polling() {
    match job_poll_step(&status("pending", None, None, None)) {
        JobPoll::Waiting(m) => assert_eq!(m, "Job pending..."),
        other => panic!("{:?}", other),
    }
    match job_poll_step(&status("running", Some((Some(10), Some(3))), None, None)) {
        JobPoll::Waiting(m) => assert_eq!(m, "Processing: 3/10 pages"),
        other => panic!("{:?}", other),
    }
    match job_poll_step(&status("running", Some((None, Some(3))), None, None)) {
        JobPoll::Waiting(m) => assert_eq!(m, "Processing..."),
        other => panic!("{:?}", other),
    }
    match job_poll_step(&status("done", Some((Some(4), Some(4))), Some("j"), None)) {
        JobPoll::Finished(m, u) => {
            assert_eq!(m.as_deref(), Some("Completed! Extracted 4 pages"));
            assert_eq!(u.as_deref(), Some("j"));
        }
        other => panic!("{:?}", other),
    }
    match job_poll_step(&status("done", None, None, None)) {
        JobPoll::Finished(m, u) => {
            assert!(m.is_none());
            let e = require_result_url(u).unwrap_err();
            assert_eq!(e.message(), "No result URL found");
        }
        other => panic!("{:?}", other),
    }
    match job_poll_step(&status("failed", None, None, None)) {
        JobPoll::Failed(e) => assert_eq!(e.message(), "Job failed: Unknown error"),
        other => panic!("{:?}", other),
    }
    match job_poll_step(&status("failed", None, None, Some("quota"))) {
        JobPoll::Failed(e) => assert_eq!(e.message(), "Job failed: quota"),
        other => panic!("{:?}", other),
    }
    match job_poll_step(&status("queued", None, None, None)) {
        JobPoll::Failed(PaddleOcrError::UnknownState(s)) => assert_eq!(s, "queued"),
        other => panic!("{:?}", other),
    }
    assert_eq!(require_result_url(Some("u".into())).unwrap(), "u");
    assert_eq!(job_submitted_message("42"), "Job submitted, job ID: 42");
}

#[test]
fn paddle_lines_like_str_lines() {
    for s in ["", "a", "a\n", "a\r\nb", "\n\n  \n{}\n", "x\r", "a\n\r\n b \r\n", "\r\n\r\n"] {
        let expected: Vec<String> =
            s.lines().filter(|l| !l.trim().is_empty()).map(|l| l.to_string()).collect();
        assert_eq!(nonblank_lines(s), expected, "input {:?}", s);
    }
}

#[test]
fn paddle_assembles_pages() {
    let layout = |text: &str, imgs: Vec<(&str, &str)>, out: Option<Vec<(&str, &str)>>| LayoutParsingResult {
        markdown: MarkdownData {
            text: text.to_string(),
            images: imgs.into_iter().map(|(a, b)| (a.to_string(), b.to_string())).collect(),
        },
        output_images: out.map(|v| v.into_iter().map(|(a, b)| (a.to_string(), b.to_string())).collect()),
    };
    let lines = vec![
        JsonlLine {
            result: JsonlResult {
                layout_parsing_results: vec![
                    layout("A ![](imgs/p.jpg)", vec![("imgs/p.jpg", "http://u/p")], None),
                    layout("B", vec![], Some(vec![("layout_det", "http://u/o")])),
                ],
            },
        },
        JsonlLine { result: JsonlResult { layout_parsing_results: vec![layout("C", vec![], None)] } },
    ];
    let r = assemble_result(&lines);
    assert_eq!(r.markdown, "A ![](image_0_0_imgs_p.jpg)\n\n---\n\nB\n\n---\n\nC");
    assert_eq!(
        r.downloads,
        vec![
            ("image_0_0_imgs_p.jpg".to_string(), "http://u/p".to_string()),
            ("output_0_1_layout_det".to_string(), "http://u/o".to_string()),
        ]
    );
    assert_eq!(assemble_result(&vec![]).markdown, "");
}

#[test]
fn zhipu_decisions() {
    let q = |s: &str| QueryResultResponse {
        status: s.to_string(),
        message: "msg".to_string(),
        content: None,
        task_id: None,
        parsing_result_url: None,
    };
    assert!(matches!(zhipu_poll_step(&q("succeeded")), ZhipuPoll::Succeeded));
    assert!(matches!(zhipu_poll_step(&q("processing")), ZhipuPoll::Processing));
    match zhipu_poll_step(&q("failed")) {
        ZhipuPoll::Failed(e) => assert_eq!(e.message(), "Parsing failed: msg"),
        other => panic!("{:?}", other),
    }
    assert_eq!(zhipu_markdown(Some("c".into()), Some("f".into())).unwrap(), "c");
    assert_eq!(zhipu_markdown(Some("".into()), Some("f".into())).unwrap(), "f");
    assert_eq!(zhipu_markdown(None, Some("f".into())).unwrap(), "f");
    let e = zhipu_markdown(None, Some("".into())).unwrap_err();
    assert!(matches!(e, ZhipuError::NoContent));
    assert_eq!(e.message(), "No content generated");
    assert_eq!(splitting_message(2), "Splitting PDF (2 ranges)...");
    assert_eq!(task_created_message("t1"), "Task created: t1");
    assert_eq!(polling_message(3, 60), "Polling... (attempt 3/60)");
}

#[test]
fn zhipu_polling_steps() {
    assert_eq!(first_attempt(60), Some(1));
    assert_eq!(first_attempt(0), None);
    assert!(matches!(zhipu_next(1, 60, ZhipuPoll::Succeeded), ZhipuAction::Collect));
    assert!(matches!(zhipu_next(1, 60, ZhipuPoll::Processing), ZhipuAction::Wait(Some(2))));
    assert!(matches!(zhipu_next(60, 60, ZhipuPoll::Processing), ZhipuAction::Wait(None)));
    match zhipu_next(3, 60, ZhipuPoll::Failed(ZhipuError::ParseFailed("x".to_string()))) {
        ZhipuAction::Stop(e) => assert_eq!(e.message(), "Parsing failed: x"),
        other => panic!("{:?}", other),
    }
    // the attempts run from 1 to the maximum
    let mut seen = Vec::new();
    let mut next = first_attempt(3);
    while let Some(a) = next {
        seen.push(a);
        next = match zhipu_next(a, 3, ZhipuPoll::Processing) {
            ZhipuAction::Wait(n) => n,
            _ => None,
        };
    }
    assert_eq!(seen, vec![1, 2, 3]);
}

#[test]
fn zhipu_package_files() {

    for n in ["a.md", "a.MD", "img.png", "x.jpeg", "y.jpg", ".md", "..", "a.", "noext", "a.b.md", ".x.png", "a.gif"] {
        let ours = file_extension(n);
        let std_ext = Path::new(n).extension().map(|e| e.to_str().unwrap().to_string());
        assert_eq!(ours, std_ext, "name {:?}", n);
    }
    assert_eq!(classify_package_file("full.md"), PackageFile::Markdown);
    assert_eq!(classify_package_file("full.MD"), PackageFile::Other);
    assert_eq!(classify_package_file("a.jpeg"), PackageFile::Image);
    assert_eq!(classify_package_file("a.gif"), PackageFile::Other);
    assert_eq!(classify_package_file(".png"), PackageFile::Other);
}
