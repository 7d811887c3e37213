use oxidian::link::{Dimensions, FileType, Link, LinkType};

#[test]
fn link_test_from_obsidian_standard() {
    let test_string = "link_to_note";
    let expected_link = Link {
        target: String::from("link_to_note.md"),
        subtarget: None,
        alias: None,
        is_attachment: false,
        source_string: format!("[[{}]]", test_string),
        broken: false,
    };
    let got_link = Link::from_obsidian_link(test_string, false).unwrap();
    assert_eq!(expected_link, got_link);
}

#[test]
fn test_from_obsidian_blockref() {
    let test_string = "link_to_note#^someblock";
    let expected_link = Link {
        target: String::from("link_to_note.md"),
        subtarget: Some(String::from("someblock")),
        alias: None,
        is_attachment: false,
        source_string: format!("[[{}]]", test_string),
        broken: false,
    };
    let got_link = Link::from_obsidian_link(test_string, false).unwrap();
    assert_eq!(expected_link, got_link);
    assert_eq!(got_link.link_type(), LinkType::Note);
}

#[test]
fn test_from_obsidian_header() {
    let test_string = "link_to_note#someblock";
    let expected_link = Link {
        target: String::from("link_to_note.md"),
        subtarget: Some(String::from("someblock")),
        alias: None,
        is_attachment: false,
        source_string: format!("[[{}]]", test_string),
        broken: false,
    };
    let got_link = Link::from_obsidian_link(test_string, false).unwrap();
    assert_eq!(expected_link, got_link);
    assert_eq!(got_link.link_type(), LinkType::Note);
}

#[test]
fn link_test_from_obsidian_with_spaces() {
    let test_string = "link to note";
    let expected_link = Link {
        target: String::from("link to note.md"),
        subtarget: None,
        alias: None,
        is_attachment: false,
        source_string: format!("[[{}]]", test_string),
        broken: false,
    };
    let got_link = Link::from_obsidian_link(test_string, false).unwrap();
    assert_eq!(expected_link, got_link);
}

#[test]
fn link_test_from_obsidian_with_leading_spaces() {
    let test_string = " link to note";
    let expected_link = Link {
        target: String::from("link to note.md"),
        subtarget: None,
        alias: None,
        is_attachment: false,
        source_string: format!("[[{}]]", test_string),
        broken: false,
    };
    let got_link = Link::from_obsidian_link(test_string, false).unwrap();
    assert_eq!(expected_link, got_link);
}

#[test]
fn test_from_obsidian_no_file() {
    let test_string = "#internal_id";
    let expected_link = Link {
        target: String::from(""),
        subtarget: Some(String::from("internal_id")),
        alias: None,
        is_attachment: false,
        source_string: format!("[[{}]]", test_string),
        broken: false,
    };
    let got_link = Link::from_obsidian_link(test_string, false).unwrap();
    assert_eq!(expected_link, got_link);
}

#[test]
fn link_test_from_obsidian_with_trailing_spaces() {
    let test_string = "link to note ";
    let expected_link = Link {
        target: String::from("link to note.md"),
        subtarget: None,
        alias: None,
        is_attachment: false,
        source_string: format!("[[{}]]", test_string),
        broken: false,
    };
    let got_link = Link::from_obsidian_link(test_string, false).unwrap();
    assert_eq!(expected_link, got_link);
}

#[test]
fn link_test_from_obsidian_with_alias() {
    let test_string = "link to note|the note I want to mention";
    let expected_link = Link {
        target: String::from("link to note.md"),
        subtarget: None,
        alias: Some(String::from("the note I want to mention")),
        is_attachment: false,
        source_string: format!("[[{}]]", test_string),
        broken: false,
    };
    let got_link = Link::from_obsidian_link(test_string, false).unwrap();
    assert_eq!(expected_link, got_link);
}

#[test]
fn link_test_from_obsidian_with_subtarget() {
    let test_string = "link to note#header1|the note I want to mention";
    let expected_link = Link {
        target: String::from("link to note.md"),
        subtarget: Some(String::from("header1")),
        alias: Some(String::from("the note I want to mention")),
        is_attachment: false,
        source_string: format!("[[{}]]", test_string),
        broken: false,
    };
    let got_link = Link::from_obsidian_link(test_string, false).unwrap();
    assert_eq!(expected_link, got_link);
}

#[test]
fn internal_link_has_internal_type() {
    let got = Link::from_obsidian_link("#internal", false).unwrap();
    assert_eq!(got.target, "");
    assert_eq!(got.subtarget, Some(String::from("internal")));
    assert_eq!(got.link_type(), LinkType::Internal);
    assert!(!got.broken);
}

#[test]
fn note_link_gets_markdown_extension() {
    let got = Link::from_obsidian_link("note", false).unwrap();
    assert_eq!(got.target, "note.md");
    assert_eq!(got.subtarget, None);
    assert_eq!(got.alias, None);
    assert!(!got.broken);
}

#[test]
fn blockref_caret_is_stripped() {
    let got = Link::from_obsidian_link("note#^block", false).unwrap();
    assert_eq!(got.subtarget, Some(String::from("block")));
}

#[test]
fn heading_with_alias() {
    let got = Link::from_obsidian_link("note#heading|Shown", false).unwrap();
    assert_eq!(got.subtarget, Some(String::from("heading")));
    assert_eq!(got.alias, Some(String::from("Shown")));
}

#[test]
fn malformed_link_is_an_error() {
    assert!(Link::from_obsidian_link("a^b", false).is_err());
    assert!(Link::from_obsidian_link("a|", false).is_err());
    assert!(Link::from_obsidian_link("a#", false).is_err());
}

#[test]
fn html_target_keeps_its_extension() {
    let got = Link::from_obsidian_link("page.html", false).unwrap();
    assert_eq!(got.target, "page.html");
    let other = Link::from_obsidian_link("notes.v2", false).unwrap();
    assert_eq!(other.target, "notes.v2.md");
}

#[test]
fn attachment_kinds() {
    let img = Link::from_obsidian_link("pic.PNG", true).unwrap();
    assert_eq!(img.link_type(), LinkType::Attachment(FileType::Image));
    assert_eq!(img.source_string, "![[pic.PNG]]");
    let vid = Link::from_obsidian_link("clip.mp4", true).unwrap();
    assert_eq!(vid.link_type(), LinkType::Attachment(FileType::Video));
    let aud = Link::from_obsidian_link("song.mp3", true).unwrap();
    assert_eq!(aud.link_type(), LinkType::Attachment(FileType::Audio));
    let pdf = Link::from_obsidian_link("paper.pdf", true).unwrap();
    assert_eq!(pdf.link_type(), LinkType::Attachment(FileType::Pdf));
    let long = Link::from_obsidian_link("file.abcdef", true).unwrap();
    assert_eq!(long.link_type(), LinkType::Attachment(FileType::Misc));
    let ext = Link::new("site", "https://example.org");
    assert_eq!(ext.link_type(), LinkType::External);
}

#[test]
fn link_text_defaults() {
    let l = Link::from_obsidian_link("dir/some note", false).unwrap();
    assert_eq!(l.link_text(), "some note");
    let i = Link::from_obsidian_link("#part", false).unwrap();
    assert_eq!(i.link_text(), "part");
}

#[test]
fn dims_of_attachment_alias() {
    let l = Link::from_obsidian_link("pic.png|300x200", true).unwrap();
    assert_eq!(l.parse_dims(), Some(Dimensions::new_with_details(300, 200)));
    let w = Link::from_obsidian_link("pic.png|300", true).unwrap();
    assert_eq!(w.parse_dims(), Some(Dimensions::new(300)));
    let bad = Link::from_obsidian_link("pic.png|wide", true).unwrap();
    assert_eq!(bad.parse_dims(), None);
}

#[test]
fn markdown_link_splits_subtarget() {
    let l = Link::from_md_link("[a](b.md#c)", "b.md#c", Some("a"), false);
    assert_eq!(l.target, "b.md");
    assert_eq!(l.subtarget, Some(String::from("c")));
    assert_eq!(l.alias, Some(String::from("a")));
}
