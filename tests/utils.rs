use oxidian::frontmatter::{extract_yaml_frontmatter, git_creation_date, remove_first_n_lines};
use oxidian::html::{img_tag, video_tag, HtmlTag, TagType};
use oxidian::link::{Dimensions, Link};
use oxidian::paths::{move_to, prepend_slash, relative_to, relative_to_with_info};
use oxidian::utils::{capitalize_first, initial, parse_dims, render_full_tag_link};

#[test]
fn initials_and_capitals() {
    assert_eq!(initial("  42 Éclair"), 'É');
    assert_eq!(initial("123"), ' ');
    assert_eq!(capitalize_first("hELLO"), "Hello");
    assert_eq!(capitalize_first("élan VITAL"), "Élan vital");
    assert_eq!(capitalize_first(""), "");
}

#[test]
fn full_tag_links() {
    assert_eq!(render_full_tag_link("topic/sub", "/tags"), "<a href=\"/tags/topic/tag-sub.html\"> Sub </a>");
}

#[test]
fn frontmatter_blocks() {
    assert_eq!(extract_yaml_frontmatter("---\na: 1\nb: 2\n---\nbody"), Some("a: 1\nb: 2\n".to_string()));
    assert_eq!(extract_yaml_frontmatter("no\n---\n"), None);
    assert_eq!(extract_yaml_frontmatter("---\nnever closed\n"), None);
    assert_eq!(remove_first_n_lines("one\ntwo\nthree", 2), "three");
    assert_eq!(remove_first_n_lines("one\ntwo", 5), "");
}

#[test]
fn path_helpers() {
    assert_eq!(relative_to("vault/dir/a.md", "vault"), "dir/a.md");
    assert_eq!(relative_to("other/a.md", "vault"), "other/a.md");
    assert_eq!(relative_to_with_info("vault/a.md", "vault/"), ("a.md".to_string(), true));
    assert_eq!(prepend_slash("a/b"), "/a/b");
    assert_eq!(prepend_slash("/a"), "/a");
    assert_eq!(move_to("indir/subdir/file.txt", "indir", "outdir").unwrap(), "outdir/subdir/file.txt");
    assert!(move_to("elsewhere/file.txt", "indir", "outdir").is_err());
    let l = Link::new("t", "vault/n.md").set_relative("vault");
    assert_eq!(l.target, "/n.md");
}

#[test]
fn html_elements() {
    assert_eq!(img_tag("a.png"), "<img src=\"a.png\"></img>");
    assert_eq!(video_tag("a.mp4"), "<video src=\"a.mp4\"></video>");
    let t = HtmlTag::span().with_class("x").with_class("y").with_class("x").with_id("i").with_attr("k", "1").with_attr("k", "2");
    assert_eq!(t.wrap("c"), "<span class=\"x y\" id=\"i\" k=\"2\"> c </span>");
    let h = HtmlTag::new(TagType::Header(2));
    assert_eq!(h.wrap("T"), "<h2>\nT\n</h2>");
    assert_eq!(oxidian::html::header(3, "x", "id=\"a\""), "<h3 id=\"a\">x</h3>");
}

#[test]
fn dims_parse() {
    assert_eq!(parse_dims("+12x"), Some(oxidian::link::Dimensions { width: 12, height: None }));
    assert_eq!(parse_dims("4294967296"), None);
}

#[test]
fn git_dates() {
    assert_eq!(git_creation_date("2021-03-04 05:06:07 +0100\n"), Some((2021, 3, 4)));
    assert_eq!(git_creation_date("\n"), None);
    assert_eq!(git_creation_date("garbage here"), None);
}

#[test]
fn dims_with_blanks_around_x() {

    assert_eq!(parse_dims("100"), Some(Dimensions::new(100)));
    assert_eq!(parse_dims("100x200"), Some(Dimensions::new_with_details(100, 200)));
    assert_eq!(parse_dims("100 x 200"), Some(Dimensions::new_with_details(100, 200)));
    assert_eq!(parse_dims("100 x"), Some(Dimensions { width: 100, height: None }));
    assert_eq!(parse_dims("abc"), None);
}

#[test]
fn heading_ids() {
    assert_eq!(oxidian::slug::heading_id("My Heading"), Some("my-heading".to_string()));
    assert_eq!(oxidian::slug::heading_id("!!"), None);
}
