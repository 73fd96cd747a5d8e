use ereader::language::{detection_prompt, language_from_reply, language_sample, reply_text};
use ereader::error::LoadError;
use ereader::speech::{voice_for, Voice};
use std::io::{Cursor, Write};
use zip::write::SimpleFileOptions;
use zip::{CompressionMethod, ZipWriter};

fn archive(entries: &[(&str, &[u8])]) -> Vec<u8> {
    let mut w = ZipWriter::new(Cursor::new(Vec::new()));
    let opts = SimpleFileOptions::default().compression_method(CompressionMethod::Stored);
    for (name, bytes) in entries {
        w.start_file(*name, opts).unwrap();
        w.write_all(bytes).unwrap();
    }
    w.finish().unwrap().into_inner()
}

#[test]
fn sample_is_the_sixth_entry_when_markup() {
    let long = "é".repeat(6000);
    let a = archive(&[
        ("mimetype", b"x"),
        ("META-INF/container.xml", b"x"),
        ("OEBPS/content.opf", b"x"),
        ("OEBPS/a.css", b"x"),
        ("OEBPS/b.xhtml", b"x"),
        ("OEBPS/c.xhtml", long.as_bytes()),
    ]);
    let s = language_sample(&a).unwrap();
    assert_eq!(s.len(), 5000);
    assert_eq!(s.chars().count(), 2500);
    assert!(s.chars().all(|c| c == 'é'));
}

#[test]
fn sample_is_empty_for_other_entries() {
    let a = archive(&[
        ("a", b"x"),
        ("b", b"x"),
        ("c", b"x"),
        ("d", b"x"),
        ("e", b"x"),
        ("f.jpg", b"<p>not markup</p>"),
    ]);
    assert_eq!(language_sample(&a), Ok(String::new()));
    assert_eq!(language_sample(&archive(&[("a.xhtml", b"<p>x</p>")])), Ok(String::new()));
    assert_eq!(language_sample(b"not a zip"), Err(LoadError::ArchiveError));
}

#[test]
fn short_sample_is_whole() {
    let a = archive(&[("a", b"x"), ("b", b"x"), ("c", b"x"), ("d", b"x"), ("e", b"x"), ("f.html", b"<p>Hola</p>")]);
    assert_eq!(language_sample(&a), Ok("<p>Hola</p>".to_string()));
}

#[test]
fn sample_stops_before_a_split_character() {
    let text = format!("{}é", "a".repeat(4999));
    let a = archive(&[("a", b"x"), ("b", b"x"), ("c", b"x"), ("d", b"x"), ("e", b"x"), ("f.xhtml", text.as_bytes())]);
    assert_eq!(language_sample(&a), Ok("a".repeat(4999)));
}

#[test]
fn prompt_ends_with_sample() {
    let p = detection_prompt("<p>Hola</p>");
    assert!(p.starts_with("You are a language detector."));
    assert!(p.ends_with("\n\nHtml: <p>Hola</p>\n"));
}

#[test]
fn reply_quotes_are_removed() {
    assert_eq!(reply_text("\"Spanish\""), "Spanish");
    assert_eq!(reply_text("a\"b\"c"), "abc");
    assert_eq!(reply_text(""), "");
}

#[test]
fn unknown_language_is_none() {
    assert_eq!(language_from_reply("\"unknown\""), None);
    assert_eq!(language_from_reply("\"French\""), Some("French".to_string()));
}

#[test]
fn voices_by_language() {
    assert_eq!(voice_for("en"), Some(Voice::Matthew));
    assert_eq!(voice_for("English"), Some(Voice::Matthew));
    assert_eq!(voice_for("es"), Some(Voice::Enrique));
    assert_eq!(voice_for("French"), Some(Voice::Mathieu));
    assert_eq!(voice_for("de"), Some(Voice::Hans));
    assert_eq!(voice_for("it"), None);
}
