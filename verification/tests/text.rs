use share_clip::hashing::hash_bytes;
use share_clip::text::html::html_to_plain_text;
use share_clip::text::rtf::rtf_to_plain_text;

#[test]
fn rtf_plain_text_removes_control_words() {
    let rtf = r"{\rtf1\ansi\b Bold\b0  text\par Title}";

    assert_eq!(rtf_to_plain_text(rtf), "Bold text Title");
}

#[test]
fn html_plain_text_does_not_emit_markdown_markers() {
    let html = "<h1>Title</h1><p><strong>Bold</strong> text</p>";
    let plain = html_to_plain_text(html);

    assert!(plain.contains("Title"));
    assert!(plain.contains("Bold text"));
    assert!(!plain.contains("# Title"));
    assert!(!plain.contains("**Bold**"));
}

#[test]
fn rtf_hex_escapes_are_decoded() {
    assert_eq!(rtf_to_plain_text(r"{\'41BC}"), "ABC");
}

#[test]
fn rtf_invalid_hex_escape_keeps_its_digits() {
    assert_eq!(rtf_to_plain_text(r"\'zz"), "zz");
}

#[test]
fn rtf_escaped_backslash_and_braces_are_dropped() {
    assert_eq!(rtf_to_plain_text(r"a\\b\{c\}"), "abc");
}

#[test]
fn rtf_non_breaking_space_separates_words() {
    assert_eq!(rtf_to_plain_text(r"x\~y"), "x y");
}

#[test]
fn rtf_empty_document_is_empty() {
    assert_eq!(rtf_to_plain_text(""), "");
    assert_eq!(rtf_to_plain_text(r"{\rtf1}"), "");
}

#[test]
fn html_to_plain_text_of_plain_paragraph() {
    let plain = html_to_plain_text("<p>hello</p>");
    assert_eq!(plain.trim(), "hello");
}

#[test]
fn hash_bytes_is_blake3_hex() {
    let h = hash_bytes(b"abc");
    assert_eq!(h, "6437b3ac38465133ffb63b75273a8db548c558465d79db03fd359c6cd5bd9d85");
    assert_eq!(h.len(), 64);
    assert_ne!(hash_bytes(b"abd"), h);
}
