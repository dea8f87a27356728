use pdf_to_markdown::converter::{link_images, markdown_stats, with_frontmatter};
use pdf_to_markdown::pdf::{
    build_dest_map, decode_pdf_string, extract_outlines, parse_pdf_date, select_split_pages,
    PdfDictionary, PdfDocument, PdfMetadata, PdfObject, SplitError,
};
use pdf_to_markdown::pdf_render::{bbox_fields, is_pdf_crop_disabled, PDF_CROP_DISABLE_ENV_VAR};

fn dict(entries: Vec<(&str, PdfObject)>) -> PdfDictionary {
    PdfDictionary { entries: entries.into_iter().map(|(k, v)| (k.as_bytes().to_vec(), v)).collect() }
}

fn s(t: &str) -> PdfObject {
    PdfObject::Str(t.as_bytes().to_vec())
}

fn r(n: u32) -> PdfObject {
    PdfObject::Reference((n, 0))
}

/// A document of three pages (objects 10, 11, 12) with an information
/// dictionary, an outline of two top-level items (one with a child) and a
/// named destination.
fn sample() -> PdfDocument {
    let objects = vec![
        (
            (1, 0),
            PdfObject::Dictionary(dict(vec![
                ("Title", s("Sample")),
                ("Author", s("Ann")),
                ("CreationDate", s("D:20230115120000+08'00'")),
                ("ModDate", s("D:20230116")),
                ("Producer", PdfObject::Integer(3)),
            ])),
        ),
        (
            (2, 0),
            PdfObject::Dictionary(dict(vec![("Outlines", r(3)), ("Names", r(7))])),
        ),
        ((3, 0), PdfObject::Dictionary(dict(vec![("First", r(4))]))),
        (
            (4, 0),
            PdfObject::Dictionary(dict(vec![
                ("Title", s("Chapter 1")),
                ("Dest", PdfObject::Dictionary(dict(vec![("D", PdfObject::Array(vec![r(11)]))]))),
                ("First", r(5)),
                ("Next", r(6)),
            ])),
        ),
        (
            (5, 0),
            PdfObject::Dictionary(dict(vec![
                ("Title", PdfObject::Str(vec![0xFE, 0xFF, 0x00, 0x53, 0x00, 0x65, 0x00, 0x63])),
                ("A", PdfObject::Dictionary(dict(vec![("D", s("named"))]))),
            ])),
        ),
        ((6, 0), PdfObject::Dictionary(dict(vec![("Title", s("Appendix"))]))),
        ((7, 0), PdfObject::Dictionary(dict(vec![("Dests", r(8))]))),
        (
            (8, 0),
            PdfObject::Dictionary(dict(vec![("Names", PdfObject::Array(vec![s("named"), r(9)]))])),
        ),
        ((9, 0), PdfObject::Dictionary(dict(vec![("D", PdfObject::Array(vec![r(12)]))]))),
        ((10, 0), PdfObject::Dictionary(dict(vec![]))),
        ((11, 0), PdfObject::Dictionary(dict(vec![]))),
        ((12, 0), PdfObject::Dictionary(dict(vec![]))),
    ];
    PdfDocument {
        objects,
        trailer: dict(vec![("Info", r(1)), ("Root", r(2))]),
        pages: vec![(1, (10, 0)), (2, (11, 0)), (3, (12, 0))],
    }
}

#[test]
fn metadata_from_document() {
    let doc = sample();
    let m = PdfMetadata::from_pdf(&doc);
    assert_eq!(m.title.as_deref(), Some("Sample"));
    assert_eq!(m.author.as_deref(), Some("Ann"));
    assert_eq!(m.subject, None);
    assert_eq!(m.producer, None);
    assert_eq!(m.created.as_deref(), Some("2023-01-15T12:00:00"));
    assert_eq!(m.modified.as_deref(), Some("2023-01-16"));
    assert_eq!(m.page_count, Some(3));
    let toc: Vec<(String, u32, Option<u32>)> =
        m.table_of_contents.iter().map(|e| (e.title.clone(), e.level, e.page)).collect();
    assert_eq!(
        toc,
        vec![
            ("Chapter 1".to_string(), 0, Some(2)),
            ("Sec".to_string(), 1, Some(3)),
            ("Appendix".to_string(), 0, None),
        ]
    );
    let dests = build_dest_map(&doc);
    assert_eq!(dests, vec![("named".to_string(), (9, 0))]);
    assert_eq!(extract_outlines(&doc, &dests).len(), 3);
}

#[test]
fn document_without_info() {
    let doc = PdfDocument { objects: vec![], trailer: dict(vec![]), pages: vec![] };
    let m = PdfMetadata::from_pdf(&doc);
    assert_eq!(m.title, None);
    assert_eq!(m.page_count, Some(0));
    assert!(m.table_of_contents.is_empty());
}

#[test]
fn pdf_dates() {
    assert_eq!(parse_pdf_date("D:20230115120000Z").as_deref(), Some("2023-01-15T12:00:00"));
    assert_eq!(parse_pdf_date("20230115").as_deref(), Some("2023-01-15"));
    assert_eq!(parse_pdf_date("D:D:2023011512").as_deref(), Some("2023-01-15"));
    assert_eq!(parse_pdf_date("D:2023").as_deref(), None);
    assert_eq!(parse_pdf_date("D:20230115'00").as_deref(), Some("2023-01-15"));
    assert_eq!(parse_pdf_date("").as_deref(), None);
}

#[test]
fn pdf_strings() {
    assert_eq!(decode_pdf_string(&[0xFE, 0xFF, 0x00, 0x41, 0x00, 0x42]), "AB");
    assert_eq!(decode_pdf_string(&[0xFF, 0xFE, 0x41, 0x00, 0x42, 0x00]), "AB");
    assert_eq!(decode_pdf_string(b"plain"), "plain");
    assert_eq!(decode_pdf_string("héllo – ✓".as_bytes()), "héllo – ✓");
    assert_eq!(decode_pdf_string(&[0xFE, 0xFF, 0x00]), String::from_utf8_lossy(&[0xFE, 0xFF, 0x00]));
    assert_eq!(decode_pdf_string(&[0xFE, 0xFF, 0xD8, 0x00]), "\u{FFFD}");
    assert_eq!(decode_pdf_string(&[0xFE, 0xFF, 0xD8, 0x3D, 0xDE, 0x00]), "\u{1F600}");
    assert_eq!(decode_pdf_string(&[0xFE, 0xFF, 0xD8, 0x00, 0x00, 0x41]), "\u{FFFD}A");
    assert_eq!(decode_pdf_string(&[0xFF, 0xFE, 0x00, 0xDC, 0x42, 0x00]), "\u{FFFD}B");
    assert_eq!(decode_pdf_string(&[0x66, 0x80]), "f\u{FFFD}");
}

#[test]
fn split_page_selection() {
    let pages = vec![(1, (10, 0)), (2, (11, 0)), (3, (12, 0))];
    assert_eq!(select_split_pages(&pages, &vec![(2, 3)]).unwrap(), vec![(11, 0), (12, 0)]);
    assert_eq!(select_split_pages(&pages, &vec![(3, 3), (1, 1)]).unwrap(), vec![(10, 0), (12, 0)]);
    assert_eq!(select_split_pages(&pages, &vec![(5, 2)]), Err(SplitError::NoPagesSelected));
    assert_eq!(select_split_pages(&pages, &vec![(7, 9)]), Err(SplitError::NoValidPages));
    assert_eq!(SplitError::NoValidPages.message(), "No valid pages found for extraction");
}

#[test]
fn test_parse_bbox() {
    fn parse(path: &str) -> Option<(f64, f64, f64, f64)> {
        let (a, b, c, d) = bbox_fields(path)?;
        Some((a.parse().ok()?, b.parse().ok()?, c.parse().ok()?, d.parse().ok()?))
    }
    let cases = [
        ("imgs/img_in_chart_box_216_581_964_894.jpg", Some((216.0, 581.0, 964.0, 894.0))),
        ("imgs/img_in_image_box_220_879_1003_1237.jpg", Some((220.0, 879.0, 1003.0, 1237.0))),
        ("imgs_img_in_image_box_216_158_1008_795.jpg", Some((216.0, 158.0, 1008.0, 795.0))),
        ("no_box_here.jpg", None),
        ("img_box_1_2.jpg", None),
    ];
    for (input, expected) in cases {
        assert_eq!(parse(input), expected);
    }
}

#[test]
fn bbox_text_fields() {
    assert_eq!(
        bbox_fields("a_box_1_2_3_4.tar.gz"),
        Some(("1".to_string(), "2".to_string(), "3".to_string(), "tar".to_string()))
    );
    assert_eq!(
        bbox_fields("x_box_9_box_1_2_3_4_5"),
        Some(("1".to_string(), "2".to_string(), "3".to_string(), "4".to_string()))
    );
    assert_eq!(bbox_fields("_box_"), None);
    assert_eq!(PDF_CROP_DISABLE_ENV_VAR, "PDF_TO_MARKDOWN_NO_PDF_CROP");
    assert!(is_pdf_crop_disabled(Some("true")));
    assert!(is_pdf_crop_disabled(Some("1")));
    assert!(!is_pdf_crop_disabled(Some("no")));
    assert!(!is_pdf_crop_disabled(None));
}

#[test]
fn images_linked_under_images_dir() {
    let md = "![](a.png) and ![](b.png)";
    assert_eq!(
        link_images(md, &vec!["a.png".to_string(), "b.png".to_string()]),
        "![](images/a.png) and ![](images/b.png)"
    );
    assert_eq!(link_images("x", &vec![]), "x");
    assert_eq!(with_frontmatter("---\n---\n\n", "# T"), "---\n---\n\n# T");
    for text in ["", "a", "a\n", "a\r\nb\n\n", "é\nü\r", "\n\n"] {
        assert_eq!(markdown_stats(text), (text.lines().count(), text.chars().count()), "{:?}", text);
    }
}
