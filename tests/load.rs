use ereader::book::parse_epub;
use ereader::error::LoadError;
use ereader::package::{load_package, resolve_package_path};
use ereader::paths::resolve_path;
use ereader::segment::wrap_words_with_translate;
use ereader::toc::parse_epub_toc;
use std::io::{Cursor, Write};
use zip::write::SimpleFileOptions;
use zip::{CompressionMethod, ZipWriter};

const CONTAINER: &str = r#"<?xml version="1.0"?>
<container version="1.0" xmlns="urn:oasis:names:tc:opendocument:xmlns:container">
  <rootfiles>
    <rootfile full-path="OEBPS/content.opf" media-type="application/oebps-package+xml"/>
  </rootfiles>
</container>"#;

fn archive(entries: &[(&str, &[u8])]) -> Vec<u8> {
    let mut w = ZipWriter::new(Cursor::new(Vec::new()));
    let opts = SimpleFileOptions::default().compression_method(CompressionMethod::Stored);
    for (name, bytes) in entries {
        w.start_file(*name, opts).unwrap();
        w.write_all(bytes).unwrap();
    }
    w.finish().unwrap().into_inner()
}

fn opf(manifest: &str, spine: &str, meta: &str) -> String {
    format!(
        r#"<?xml version="1.0"?>
<package xmlns="http://www.idpf.org/2007/opf" version="2.0">
  <metadata xmlns:dc="http://purl.org/dc/elements/1.1/">{meta}</metadata>
  <manifest>{manifest}</manifest>
  {spine}
</package>"#
    )
}

fn book_archive(opf_text: &str, extra: &[(&str, &[u8])]) -> Vec<u8> {
    let mut entries: Vec<(&str, &[u8])> = vec![
        ("META-INF/container.xml", CONTAINER.as_bytes()),
        ("OEBPS/content.opf", opf_text.as_bytes()),
    ];
    entries.extend_from_slice(extra);
    archive(&entries)
}

const NCX: &str = r#"<?xml version="1.0"?>
<ncx xmlns="http://www.daisy.org/z3986/2005/ncx/" version="2005-1">
  <navMap>
    <navPoint id="n1"><navLabel><text> Chapter One </text></navLabel><content src="text/ch1.xhtml"/></navPoint>
    <navPoint id="n2"><navLabel><text>Chapter Two</text></navLabel><content src="text/ch2.xhtml"/></navPoint>
    <navPoint id="n3"><navLabel><text>Chapter One</text></navLabel><content src="text/ch3.xhtml"/></navPoint>
  </navMap>
</ncx>"#;

#[test]
fn relative_path_resolution() {
    assert_eq!(resolve_path("OEBPS/content.opf", "text/ch1.xhtml"), "OEBPS/text/ch1.xhtml");
}

#[test]
fn path_resolution_applies_dot_segments() {
    assert_eq!(resolve_path("OEBPS/content.opf", "../images/./c.jpg"), "images/c.jpg");
    assert_eq!(resolve_path("a/b/content.opf", "../../x.css"), "x.css");
    assert_eq!(resolve_path("content.opf", "ch1.xhtml"), "ch1.xhtml");
    assert_eq!(resolve_path("content.opf", "../ch1.xhtml"), "ch1.xhtml");
}

#[test]
fn container_names_the_package() {
    let a = archive(&[("META-INF/container.xml", CONTAINER.as_bytes())]);
    assert_eq!(resolve_package_path(&a), Ok("OEBPS/content.opf".to_string()));
}

#[test]
fn missing_container_entry() {
    let a = archive(&[("mimetype", b"application/epub+zip")]);
    assert_eq!(resolve_package_path(&a), Err(LoadError::MissingContainerEntry));
    assert_eq!(parse_epub(&a, None).err(), Some(LoadError::MissingContainerEntry));
}

#[test]
fn container_without_rootfile() {
    let a = archive(&[("META-INF/container.xml", b"<container><rootfiles/></container>")]);
    assert_eq!(resolve_package_path(&a), Err(LoadError::MissingRootfile));
}

#[test]
fn not_an_archive() {
    assert_eq!(resolve_package_path(b"plain text"), Err(LoadError::ArchiveError));
    assert_eq!(parse_epub_toc(b"plain text").err(), Some(LoadError::ArchiveError));
}

#[test]
fn package_entry_missing() {
    let a = archive(&[("META-INF/container.xml", CONTAINER.as_bytes())]);
    assert_eq!(load_package(&a).err(), Some(LoadError::ArchiveError));
}

#[test]
fn malformed_package() {
    let a = book_archive("<package><manifest></package>", &[]);
    assert_eq!(load_package(&a).err(), Some(LoadError::MalformedPackage));
    assert_eq!(parse_epub(&a, None).err(), Some(LoadError::MalformedPackage));
}

#[test]
fn manifest_keeps_complete_items_only() {
    let text = opf(
        r#"<item id="a" href="a.xhtml" media-type="application/xhtml+xml"/>
           <item id="b" href="b.xhtml"/>
           <item href="c.xhtml" media-type="application/xhtml+xml"/>
           <item id="d" href="d.css" media-type="text/css"/>"#,
        "<spine/>",
        "",
    );
    let m = load_package(&book_archive(&text, &[])).unwrap();
    assert_eq!(m.manifest.len(), 2);
    assert_eq!(m.manifest[0].id, "a");
    assert_eq!(m.manifest[0].href, "OEBPS/a.xhtml");
    assert_eq!(m.manifest[1].media_type, "text/css");
}

#[test]
fn spine_keeps_document_order() {
    let text = opf(
        r#"<item id="c1" href="text/ch1.xhtml" media-type="application/xhtml+xml"/>
           <item id="c2" href="text/ch2.xhtml" media-type="application/xhtml+xml"/>
           <item id="c3" href="text/ch3.xhtml" media-type="application/xhtml+xml"/>"#,
        r#"<spine><itemref idref="c3"/><itemref idref="c1"/><itemref idref="c2"/></spine>"#,
        "",
    );
    let a = book_archive(&text, &[]);
    let m = load_package(&a).unwrap();
    assert_eq!(m.spine_refs, vec!["c3".to_string(), "c1".to_string(), "c2".to_string()]);
    let b = parse_epub(&a, None).unwrap();
    let ids: Vec<&str> = b.spine.iter().map(|s| s.id.as_str()).collect();
    assert_eq!(ids, vec!["c3", "c1", "c2"]);
    assert_eq!(b.spine[0].href, "OEBPS/text/ch3.xhtml");
    assert_eq!(b.spine[0].contents, "");
}

#[test]
fn dangling_spine_reference_is_skipped() {
    let text = opf(
        r#"<item id="c1" href="ch1.xhtml" media-type="application/xhtml+xml"/>"#,
        r#"<spine><itemref idref="ghost"/><itemref idref="c1"/></spine>"#,
        "",
    );
    let b = parse_epub(&book_archive(&text, &[]), None).unwrap();
    assert_eq!(b.spine.len(), 1);
    assert_eq!(b.spine[0].id, "c1");
}

#[test]
fn ncx_round_trip() {
    let text = opf(
        r#"<item id="ncx" href="toc.ncx" media-type="application/x-dtbncx+xml"/>"#,
        r#"<spine toc="ncx"></spine>"#,
        "",
    );
    let a = book_archive(&text, &[("OEBPS/toc.ncx", NCX.as_bytes())]);
    let toc = parse_epub_toc(&a).unwrap();
    let got: Vec<(&str, &str)> = toc.iter().map(|e| (e.label.as_str(), e.target.as_str())).collect();
    assert_eq!(
        got,
        vec![
            ("Chapter One", "text/ch1.xhtml"),
            ("Chapter Two", "text/ch2.xhtml"),
            ("Chapter One", "text/ch3.xhtml"),
        ]
    );
    let b = parse_epub(&a, None).unwrap();
    assert_eq!(b.toc.len(), 3);
    assert_eq!(b.toc_error, None);
}

#[test]
fn ncx_point_without_target_is_dropped() {
    let ncx = r#"<ncx><navMap>
        <navPoint><navLabel><text>No target</text></navLabel></navPoint>
        <navPoint><navLabel><text>Kept</text></navLabel><content src="k.xhtml"/></navPoint>
        </navMap></ncx>"#;
    let text = opf(
        r#"<item id="ncx" href="toc.ncx" media-type="application/x-dtbncx+xml"/>"#,
        r#"<spine toc="ncx"></spine>"#,
        "",
    );
    let a = book_archive(&text, &[("OEBPS/toc.ncx", ncx.as_bytes())]);
    let toc = parse_epub_toc(&a).unwrap();
    assert_eq!(toc.len(), 1);
    assert_eq!(toc[0].label, "Kept");
}

#[test]
fn nested_navigation_points_each_give_an_entry() {
    let ncx = r#"<ncx><docTitle><text>The Book</text></docTitle><navMap>
        <navPoint><navLabel><text>Part 1</text></navLabel><content src="p1.xhtml"/>
          <navPoint><navLabel><text>Chapter 1</text></navLabel><content src="c1.xhtml"/></navPoint>
          <navPoint><navLabel><text>Chapter 2</text></navLabel><content src="c2.xhtml"/></navPoint>
        </navPoint>
        <navPoint><navLabel><text>Part 2</text></navLabel><content src="p2.xhtml"/></navPoint>
        </navMap></ncx>"#;
    let text = opf(
        r#"<item id="ncx" href="toc.ncx" media-type="application/x-dtbncx+xml"/>"#,
        r#"<spine toc="ncx"></spine>"#,
        "",
    );
    let a = book_archive(&text, &[("OEBPS/toc.ncx", ncx.as_bytes())]);
    let toc = parse_epub_toc(&a).unwrap();
    let got: Vec<(&str, &str)> = toc.iter().map(|e| (e.label.as_str(), e.target.as_str())).collect();
    assert_eq!(
        got,
        vec![
            ("Part 1", "p1.xhtml"),
            ("Chapter 1", "c1.xhtml"),
            ("Chapter 2", "c2.xhtml"),
            ("Part 2", "p2.xhtml"),
        ]
    );
}

#[test]
fn navigation_document_toc() {
    let nav = r#"<html xmlns="http://www.w3.org/1999/xhtml"><body><nav>
        <h1>Contents</h1>
        <ol><li><a href="ch1.xhtml"> First <b>part</b></a></li><li><a href="ch2.xhtml">Second</a></li></ol>
        </nav></body></html>"#;
    let text = opf(
        r#"<item id="nav" href="nav.xhtml" media-type="application/xhtml+xml" properties="nav"/>"#,
        "<spine></spine>",
        "",
    );
    let a = book_archive(&text, &[("OEBPS/nav.xhtml", nav.as_bytes())]);
    let toc = parse_epub_toc(&a).unwrap();
    let got: Vec<(&str, &str)> = toc.iter().map(|e| (e.label.as_str(), e.target.as_str())).collect();
    assert_eq!(got, vec![("First part", "ch1.xhtml"), ("Second", "ch2.xhtml")]);
}

#[test]
fn missing_toc_is_not_fatal() {
    let text = opf(
        r#"<item id="c1" href="ch1.xhtml" media-type="application/xhtml+xml"/>"#,
        r#"<spine><itemref idref="c1"/></spine>"#,
        "",
    );
    let a = book_archive(&text, &[("OEBPS/ch1.xhtml", b"<p>Hi</p>")]);
    assert_eq!(parse_epub_toc(&a).err(), Some(LoadError::TocNotFound));
    let b = parse_epub(&a, None).unwrap();
    assert!(b.toc.is_empty());
    assert_eq!(b.toc_error, Some(LoadError::TocNotFound));
    assert_eq!(b.spine.len(), 1);
}

#[test]
fn malformed_toc() {
    let text = opf(
        r#"<item id="ncx" href="toc.ncx" media-type="application/x-dtbncx+xml"/>"#,
        r#"<spine toc="ncx"></spine>"#,
        "",
    );
    let a = book_archive(&text, &[("OEBPS/toc.ncx", b"<ncx><navMap></ncx>")]);
    assert_eq!(parse_epub_toc(&a).err(), Some(LoadError::MalformedToc));
    let b = parse_epub(&a, None).unwrap();
    assert!(b.toc.is_empty());
    assert_eq!(b.toc_error, Some(LoadError::MalformedToc));
}

#[test]
fn paragraph_words_are_wrapped() {
    let out = wrap_words_with_translate(r#"<div class="x"><b>keep</b> this</div><p id="p1">w1  w2
w3</p>"#);
    let span = r#"<span onclick="window.translate(this.innerText)">"#;
    assert_eq!(
        out,
        format!(
            r#"<div class="x"><b>keep</b> this</div><p id="p1">{span}w1</span> {span}w2</span> {span}w3</span></p>"#
        )
    );
    assert_eq!(out.matches(span).count(), 3);
}

#[test]
fn attributes_keep_source_order() {
    for _ in 0..20 {
        let out = wrap_words_with_translate(r#"<p id="a" class="b" lang="c" dir="ltr">x</p>"#);
        let span = r#"<span onclick="window.translate(this.innerText)">"#;
        assert_eq!(out, format!(r#"<p id="a" class="b" lang="c" dir="ltr">{span}x</span></p>"#));
    }
}

#[test]
fn nested_inline_keeps_own_text_only() {
    let out = wrap_words_with_translate("<h2>A <em>big <b>bold</b> word</em></h2>");
    let span = r#"<span onclick="window.translate(this.innerText)">"#;
    assert_eq!(out, format!("<h2>{span}A</span><em>big  word</em></h2>"));
}

#[test]
fn empty_element_has_empty_body() {
    assert_eq!(wrap_words_with_translate("<p></p><hr>"), "<p></p><hr></hr>");
    assert_eq!(wrap_words_with_translate(""), "");
}

#[test]
fn cover_resolution() {
    let text = opf(
        r#"<item id="img1" href="images/cover.jpg" media-type="image/jpeg"/>"#,
        "<spine/>",
        r#"<meta name="cover" content="img1"/>"#,
    );
    let jpeg: &[u8] = &[0xff, 0xd8, 0xff, 0x00, 0x80, 0x01];
    let a = book_archive(&text, &[("OEBPS/images/cover.jpg", jpeg)]);
    let b = parse_epub(&a, None).unwrap();
    assert_eq!(b.cover_image, Some(jpeg.to_vec()));
}

#[test]
fn contents_css_and_language() {
    let text = opf(
        r#"<item id="c1" href="ch1.xhtml" media-type="application/xhtml+xml"/>
           <item id="t" href="notes.txt" media-type="text/plain"/>
           <item id="s" href="style.css" media-type="text/css"/>
           <item id="gone" href="missing.xhtml" media-type="application/xhtml+xml"/>"#,
        r#"<spine><itemref idref="c1"/><itemref idref="t"/><itemref idref="gone"/></spine>"#,
        "<dc:language>fr</dc:language>",
    );
    let a = book_archive(
        &text,
        &[
            ("OEBPS/ch1.xhtml", b"<p>Bonjour monde</p>"),
            ("OEBPS/notes.txt", b"<p>raw text</p>"),
            ("OEBPS/style.css", b"p { margin: 0 }"),
        ],
    );
    let b = parse_epub(&a, None).unwrap();
    let span = r#"<span onclick="window.translate(this.innerText)">"#;
    assert_eq!(b.spine[0].contents, format!("<p>{span}Bonjour</span> {span}monde</span></p>"));
    assert_eq!(b.spine[1].contents, "<p>raw text</p>");
    assert_eq!(b.spine[2].contents, "");
    assert_eq!(b.css, vec!["p { margin: 0 }".to_string()]);
    assert_eq!(b.language, "fr");
    assert_eq!(b.cover_image, None);
    assert_eq!(b.skipped, vec!["OEBPS/missing.xhtml".to_string()]);
    assert_eq!(b.toc_error, Some(LoadError::TocNotFound));
    assert_eq!(parse_epub(&a, Some("French".to_string())).unwrap().language, "French");
}

#[test]
fn language_unknown_by_default() {
    let text = opf("", "<spine/>", "");
    let b = parse_epub(&book_archive(&text, &[]), None).unwrap();
    assert_eq!(b.language, "unknown");
}

#[test]
fn error_messages() {
    assert!(!LoadError::TocNotFound.message().is_empty());
}
