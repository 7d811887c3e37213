use oxidian::extract::Tag;
use oxidian::formatting::{format_tag_path, link_to_html, link_to_md, tag_to_md};
use oxidian::link::Link;
use oxidian::slug::slugify_path;

struct TestCase {
    input_link: Link,
    expected_output: String,
}

fn create_note_link() -> TestCase {
    let slug_name = slugify_path("path_to_note", Some("html")).unwrap();
    TestCase {
        input_link: Link::from_obsidian_link("path_to_note|alias", false).unwrap(),
        expected_output: format!("[alias]({})", slug_name),
    }
}

fn create_note_in_dir_link() -> TestCase {
    let slug_name = slugify_path("subdir/path_to_note", Some("html")).unwrap();
    TestCase {
        input_link: Link::from_obsidian_link("subdir/path_to_note", false).unwrap(),
        expected_output: format!("[path_to_note]({})", slug_name),
    }
}

fn create_note_in_dir_sublink() -> TestCase {
    let slug_name = slugify_path("subdir/path_to_note", Some("html")).unwrap();
    TestCase {
        input_link: Link::from_obsidian_link("subdir/path_to_note#heading|alias", false).unwrap(),
        expected_output: format!("[alias]({}#heading)", slug_name),
    }
}

fn create_image_link() -> TestCase {
    let slug_name = slugify_path("path_to_image.png", None).unwrap();
    TestCase {
        input_link: Link::from_obsidian_link("path_to_image.png", true).unwrap(),
        expected_output: format!("<img src=\"{}\">  </img>", slug_name),
    }
}

fn basic_test(case: &TestCase) {
    let link_html = link_to_md(&case.input_link);
    assert_eq!(link_html, case.expected_output);
}

#[test]
fn formatting_test_regular_note_link() {
    basic_test(&create_note_link());
}

#[test]
fn formatting_test_nested_note_link() {
    basic_test(&create_note_in_dir_link());
}

#[test]
fn formatting_test_image_link() {
    basic_test(&create_image_link());
}

#[test]
fn formatting_test_note_in_dir_sublink() {
    basic_test(&create_note_in_dir_sublink());
}

#[test]
fn slugs_of_paths() {
    assert_eq!(slugify_path("path_to_note", Some("html")).unwrap(), "path-to-note.html");
    assert_eq!(slugify_path("/Dir One/My Note.md", Some("html")).unwrap(), "/dir-one/my-note.html");
    assert_eq!(slugify_path("a/./b.PNG", None).unwrap(), "a/b.PNG");
}

#[test]
fn broken_note_link_is_marked() {
    let mut l = Link::from_obsidian_link("missing", false).unwrap();
    l.set_broken(true);
    assert_eq!(link_to_md(&l), "<a href=\"missing.html\" class=\"broken\"> missing </a>");
    assert_eq!(link_to_html(&l), "<a href=\"missing.html\" class=\"broken\"> missing </a>");
}

#[test]
fn block_and_heading_anchors() {
    let l = Link::from_obsidian_link("note#^blk", false).unwrap();
    assert_eq!(link_to_html(&l), "<a href=\"note.html#blk\"> note </a>");
    let h = Link::from_obsidian_link("note#My Heading", false).unwrap();
    assert_eq!(link_to_html(&h), "<a href=\"note.html#my-heading\"> note </a>");
    let i = Link::from_obsidian_link("#local", false).unwrap();
    assert_eq!(link_to_md(&i), "[local](#local)");
}

#[test]
fn video_with_size() {
    let l = Link::from_obsidian_link("clip.mp4|640x480", true).unwrap();
    assert_eq!(link_to_md(&l), "<video src=\"clip.mp4\" controls=\"\" width=\"640\" height=\"480\">  </video>");
}

#[test]
fn tag_pages() {
    let t = Tag { tag_path: "a/b/c".to_string(), source: "#a/b/c".to_string() };
    assert_eq!(format_tag_path(&t), "/tags/a/b/tag-c.html");
    let s = Tag { tag_path: "solo".to_string(), source: "#solo".to_string() };
    assert_eq!(tag_to_md(&s), "<span class=\"tag\"> <a href=\"/tags/tag-solo.html\"> solo </a> </span>");
}
