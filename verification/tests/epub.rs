use miniflux_reader::epub::{
    title_or_stem, local_name, opf_dir_of, parse_container_rootfile, parse_opf, resolve_spine, EpubError, EpubReader,
};
use miniflux_reader::upload::{path_for_safe_name, safe_name_for};
use std::io::{Cursor, Write};

fn build_zip(entries: &[(&str, &[u8])]) -> Vec<u8> {
    let mut buf: Vec<u8> = Vec::new();
    {
        let mut zip = zip::ZipWriter::new(Cursor::new(&mut buf));
        let opts = zip::write::SimpleFileOptions::default();
        zip.start_file(
            "mimetype",
            zip::write::SimpleFileOptions::default().compression_method(zip::CompressionMethod::Stored),
        )
        .unwrap();
        zip.write_all(b"application/epub+zip").unwrap();
        for (name, data) in entries {
            zip.start_file(*name, opts).unwrap();
            zip.write_all(data).unwrap();
        }
        zip.finish().unwrap();
    }
    buf
}

const CONTAINER: &[u8] = br#"<?xml version="1.0"?>
<container version="1.0" xmlns="urn:oasis:names:tc:opendocument:xmlns:container">
  <rootfiles><rootfile full-path="OEBPS/content.opf" media-type="application/oebps-package+xml"/></rootfiles>
</container>"#;

fn build_two_chapter_epub() -> Vec<u8> {
    build_zip(&[
        ("META-INF/container.xml", CONTAINER),
        (
            "OEBPS/content.opf",
            br#"<?xml version="1.0" encoding="UTF-8"?>
<package xmlns="http://www.idpf.org/2007/opf" version="3.0" unique-identifier="bookid">
  <metadata xmlns:dc="http://purl.org/dc/elements/1.1/">
    <dc:title>Two Chapter Book</dc:title><dc:identifier id="bookid">t2</dc:identifier><dc:language>en</dc:language>
  </metadata>
  <manifest>
    <item id="c1" href="c1.xhtml" media-type="application/xhtml+xml"/>
    <item id="c2" href="c2.xhtml" media-type="application/xhtml+xml"/>
  </manifest>
  <spine><itemref idref="c1"/><itemref idref="c2"/></spine>
</package>"#,
        ),
        ("OEBPS/c1.xhtml", b"<html><body><p>Sentence alpha. Sentence beta.</p></body></html>"),
        ("OEBPS/c2.xhtml", b"<html><body><p>Sentence gamma.</p></body></html>"),
    ])
}

fn build_minimal_epub3() -> Vec<u8> {
    build_zip(&[
        (
            "META-INF/container.xml",
            br#"<?xml version="1.0"?>
<container version="1.0" xmlns="urn:oasis:names:tc:opendocument:xmlns:container">
  <rootfiles>
    <rootfile full-path="OEBPS/content.opf" media-type="application/oebps-package+xml"/>
  </rootfiles>
</container>"#,
        ),
        (
            "OEBPS/content.opf",
            br#"<?xml version="1.0" encoding="UTF-8"?>
<package xmlns="http://www.idpf.org/2007/opf" version="3.0" unique-identifier="bookid">
  <metadata xmlns:dc="http://purl.org/dc/elements/1.1/">
    <dc:title>Minimal Test Book</dc:title>
    <dc:creator>Test Author</dc:creator>
    <dc:identifier id="bookid">test-id-001</dc:identifier>
    <dc:language>en</dc:language>
  </metadata>
  <manifest>
    <item id="ch1" href="ch1.xhtml" media-type="application/xhtml+xml"/>
    <item id="ch2" href="ch2.xhtml" media-type="application/xhtml+xml"/>
    <item id="nav" href="nav.xhtml" media-type="application/xhtml+xml" properties="nav"/>
  </manifest>
  <spine>
    <itemref idref="ch1"/>
    <itemref idref="ch2"/>
  </spine>
</package>"#,
        ),
        (
            "OEBPS/ch1.xhtml",
            br#"<?xml version="1.0" encoding="UTF-8"?>
<html xmlns="http://www.w3.org/1999/xhtml"><head><title>Ch1</title></head>
<body><h1>Chapter One</h1><p>Hello world.</p></body></html>"#,
        ),
        (
            "OEBPS/ch2.xhtml",
            br#"<?xml version="1.0" encoding="UTF-8"?>
<html xmlns="http://www.w3.org/1999/xhtml"><head><title>Ch2</title></head>
<body><h1>Chapter Two</h1><p>Good morning.</p></body></html>"#,
        ),
        ("OEBPS/nav.xhtml", b"<html><body><nav/></body></html>"),
    ])
}

#[test]
fn container_rootfile_parse_extracts_path() {
    let xml = r#"<?xml version="1.0"?>
<container version="1.0" xmlns="urn:oasis:names:tc:opendocument:xmlns:container">
  <rootfiles><rootfile full-path="OEBPS/content.opf" media-type="application/oebps-package+xml"/></rootfiles>
</container>"#;
    let p = parse_container_rootfile(xml).expect("parse");
    assert_eq!(p, "OEBPS/content.opf");
}

#[test]
fn container_without_rootfile_is_missing_entry() {
    let r = parse_container_rootfile("<container><rootfiles/></container>");
    assert_eq!(r, Err(EpubError::MissingEntry("no <rootfile> in container.xml".to_string())));
}

#[test]
fn container_syntax_error_is_xml_error() {
    let r = parse_container_rootfile("<container><rootfiles></container>");
    assert!(matches!(r, Err(EpubError::Xml(_))), "got {:?}", r);
}

#[test]
fn opf_parse_collects_metadata_manifest_and_spine() {
    let xml = r#"<package><metadata><dc:title>  T &amp; U </dc:title><dc:title>Second</dc:title><dc:creator>A</dc:creator></metadata>
<manifest><item id="x" href="x.html" media-type="text/html"/><item href="noid.html"/></manifest>
<spine><itemref idref="x"/><itemref idref="y"/></spine></package>"#;
    let ((title, author), manifest, spine) = parse_opf(xml).expect("opf");
    assert_eq!(title, "T & U");
    assert_eq!(author, "A");
    assert_eq!(manifest, vec![("x".to_string(), "x.html".to_string(), "text/html".to_string())]);
    assert_eq!(spine, vec!["x".to_string(), "y".to_string()]);
}

#[test]
fn local_name_takes_part_after_last_colon() {
    assert_eq!(local_name("dc:title"), "title");
    assert_eq!(local_name("a:b:c"), "c");
    assert_eq!(local_name("plain"), "plain");
}

#[test]
fn opf_dir_keeps_up_to_last_slash() {
    assert_eq!(opf_dir_of("OEBPS/text/content.opf"), "OEBPS/text/");
    assert_eq!(opf_dir_of("content.opf"), "");
}

#[test]
fn spine_resolution_joins_dir_and_reports_missing_idref() {
    let manifest = vec![
        ("a".to_string(), "a.xhtml".to_string(), "application/xhtml+xml".to_string()),
        ("a".to_string(), "dup.xhtml".to_string(), "text/plain".to_string()),
    ];
    let ok = resolve_spine("OEBPS/content.opf", &manifest, &vec!["a".to_string()]).unwrap();
    assert_eq!(ok, vec![("OEBPS/a.xhtml".to_string(), "application/xhtml+xml".to_string())]);
    let err = resolve_spine("content.opf", &manifest, &vec!["a".to_string(), "zz".to_string()]).unwrap_err();
    assert_eq!(err, EpubError::MissingEntry("spine idref 'zz' not in manifest".to_string()));
    assert_eq!(err.message(), "missing entry in epub: spine idref 'zz' not in manifest");
}

#[test]
fn chapter_zero_contains_exact_text_from_first_spine_item() {
    let bytes = build_two_chapter_epub();
    let reader = EpubReader::from_bytes(&bytes).expect("parse ok");
    let ch0 = reader.chapter_at(0).expect("chapter 0 exists");
    assert_eq!(ch0.idx, 0);
    assert!(ch0.html_text.contains("Sentence alpha."), "got: {}", ch0.html_text);
    assert!(ch0.html_text.contains("Sentence beta."));
}

#[test]
fn chapter_one_contains_exact_text_from_second_spine_item() {
    let bytes = build_two_chapter_epub();
    let reader = EpubReader::from_bytes(&bytes).expect("parse ok");
    let ch1 = reader.chapter_at(1).expect("chapter 1 exists");
    assert_eq!(ch1.idx, 1);
    assert!(ch1.html_text.contains("Sentence gamma."), "got: {}", ch1.html_text);
}

#[test]
fn chapter_index_out_of_bounds_returns_err() {
    let bytes = build_two_chapter_epub();
    let reader = EpubReader::from_bytes(&bytes).expect("parse ok");
    let result = reader.chapter_at(99);
    assert!(result.is_err(), "OOB chapter index must error, not panic");
}

#[test]
fn chapter_out_of_bounds_message_and_titles() {
    let bytes = build_two_chapter_epub();
    let reader = EpubReader::from_bytes(&bytes).expect("parse ok");
    assert_eq!(
        reader.chapter_at(99).unwrap_err(),
        EpubError::MissingEntry("chapter index 99 out of bounds".to_string())
    );
    let ch = reader.chapter_at(1).unwrap();
    assert_eq!(ch.title, "Chapter 2");
    assert_eq!(ch.html_text, "<html><body><p>Sentence gamma.</p></body></html>");
    assert_eq!(reader.spine[0], ("OEBPS/c1.xhtml".to_string(), "application/xhtml+xml".to_string()));
    assert_eq!(reader.metadata.title, "Two Chapter Book");
    assert_eq!(reader.metadata.author, "");
}

#[test]
fn parse_minimal_epub3_yields_correct_metadata() {
    let bytes = build_minimal_epub3();
    let reader = EpubReader::from_bytes(&bytes).expect("EPUB3 should parse");
    assert_eq!(reader.metadata.title, "Minimal Test Book");
    assert_eq!(reader.metadata.author, "Test Author");
}

#[test]
fn parse_minimal_epub3_reports_two_spine_chapters() {
    let bytes = build_minimal_epub3();
    let reader = EpubReader::from_bytes(&bytes).expect("EPUB3 should parse");
    assert_eq!(reader.metadata.total_chapters, 2, "spine has 2 itemrefs → total_chapters must be 2");
    assert_eq!(reader.spine.len(), 2);
}

#[test]
fn parse_invalid_bytes_returns_err_not_panic() {
    let result = EpubReader::from_bytes(b"definitely not a zip");
    assert!(result.is_err(), "garbage bytes must error, not panic");
}

#[test]
fn invalid_bytes_give_zip_error() {
    assert!(matches!(EpubReader::from_bytes(b"definitely not a zip"), Err(EpubError::Zip(_))));
}

#[test]
fn archive_without_container_reports_missing_entry() {
    let bytes = build_zip(&[("OEBPS/content.opf", b"<package/>")]);
    match EpubReader::from_bytes(&bytes) {
        Err(EpubError::MissingEntry(m)) => assert!(m.starts_with("entry 'META-INF/container.xml': "), "{m}"),
        other => panic!("unexpected {:?}", other.map(|r| r.metadata)),
    }
}

#[test]
fn non_utf8_entry_is_io_error() {
    let bytes = build_zip(&[("META-INF/container.xml", &[0xff, 0xfe, 0x00])]);
    assert!(matches!(EpubReader::from_bytes(&bytes), Err(EpubError::Io(_))));
}

#[test]
fn epub_error_messages() {
    assert_eq!(EpubError::Xml("bad".into()).message(), "opf xml parse error: bad");
    assert_eq!(EpubError::Zip("z".into()).message(), "zip error: z");
    assert_eq!(EpubError::Io("i".into()).message(), "io error: i");
    assert_eq!(EpubError::UnsafeFilename("u".into()).message(), "unsafe filename rejected: u");
}

#[test]
fn basename_only_for_normal_filename() {
    assert_eq!(safe_name_for("book.epub"), "book.epub");
}

#[test]
fn strips_directory_components() {
    assert_eq!(safe_name_for("a/b/c.epub"), "c.epub");
    assert_eq!(safe_name_for("a\\b\\c.epub"), "c.epub");
}

#[test]
fn rejects_dotdot_traversal() {
    let safe = safe_name_for("../../etc/passwd");
    assert!(!safe.contains(".."), "safe name must not contain '..': got {safe}");
    assert!(!safe.contains('/') && !safe.contains('\\'), "got {safe}");
}

#[test]
fn strips_path_and_keeps_basename_for_normal_file() {
    let safe = safe_name_for("my book.epub");
    assert!(safe.contains("my") && safe.contains("book"), "got {safe}");
    assert!(!safe.is_empty());
    assert!(!safe.contains('/') && !safe.contains('\\'), "got {safe}");
}

#[test]
fn rejects_absolute_path() {
    let safe = safe_name_for("/etc/shadow");
    assert!(!safe.starts_with('/'), "absolute path must not leak leading slash: got {safe}");
}

#[test]
fn safe_name_edge_cases() {
    assert_eq!(safe_name_for(""), "unnamed");
    assert_eq!(safe_name_for(".."), "unnamed");
    assert_eq!(safe_name_for("a/b/."), "b");
    assert_eq!(safe_name_for("..hidden..epub"), "hidden_epub");
    assert_eq!(safe_name_for("bad\u{0}name\n.epub"), "bad_name_.epub");
    assert_eq!(safe_name_for("._x"), "x");
}

#[test]
fn safe_names_never_escape() {
    for name in ["../../evil.epub", "..\\..\\x", "/", "....", "a/../b", "\u{7f}.epub"] {
        let s = safe_name_for(name);
        assert!(!s.is_empty() && !s.contains("..") && !s.contains('/') && !s.contains('\\'), "{s}");
        assert!(!s.starts_with('.') && !s.starts_with('_'), "{s}");
    }
}

#[test]
fn path_for_safe_name_joins_like_path_join() {
    assert_eq!(path_for_safe_name("/tmp/books", "a.epub"), "/tmp/books/a.epub");
    assert_eq!(path_for_safe_name("/tmp/books/", "a.epub"), "/tmp/books/a.epub");
    assert_eq!(path_for_safe_name("", "a.epub"), "a.epub");
    assert_eq!(
        path_for_safe_name("/tmp/books", "a.epub"),
        std::path::Path::new("/tmp/books").join("a.epub").to_string_lossy()
    );
}

#[test]
fn missing_title_falls_back_to_file_stem() {
    assert_eq!(title_or_stem(&"Real".to_string(), "x.epub"), "Real");
    for name in ["book.epub", "a.b.epub", ".hidden", "plain", "dot."] {
        let expected = std::path::Path::new(name).file_stem().map(|s| s.to_string_lossy().into_owned()).unwrap_or_default();
        assert_eq!(title_or_stem(&String::new(), name), expected, "{name}");
    }
}

#[test]
fn safe_name_is_idempotent() {
    for name in ["../../evil.epub", "my book.epub", "", "..a..b", "\u{1}x/._y", "unnamed"] {
        let once = safe_name_for(name);
        assert_eq!(safe_name_for(&once), once);
    }
}
