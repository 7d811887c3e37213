use oxidian::extract::{find_labels, find_markdown_links, find_obsidian_links, find_tags, Tag};
use oxidian::link::{FileType, Link, LinkType};

fn test_multiple_links(content: &str, links: Vec<&str>) {
    let found_links = find_obsidian_links(content);
    assert_eq!(found_links.len(), links.len());
    for (found_link, given_link) in found_links
        .iter()
        .zip(links.iter().map(|link_str| Link::from_obsidian_link(link_str, false).unwrap()))
    {
        assert_eq!(*found_link, given_link);
    }
}

#[test]
fn test_basic_link() {
    test_multiple_links("some line with a simple [[link]] to another file.", vec!["link"]);
}

#[test]
fn test_basic_link_spaces() {
    test_multiple_links("some line with a simple [[ link ]] to another file.", vec![" link "]);
}

#[test]
fn test_basic_link_subpath() {
    test_multiple_links("some line with a simple [[ link#header ]] to another file.", vec![" link#header "]);
}

#[test]
fn test_basic_link_alias() {
    test_multiple_links(
        "some line with a simple [[ link#header | alias ]] to another file.",
        vec![" link#header | alias "],
    );
}

#[test]
fn test_double_link_with_false_positive() {
    test_multiple_links("some line with a simple [[ link#header | alias ]] to another file. Here is another link [[ But this one is fake , and then a [[real_link]]", vec![" link#header | alias ", "real_link"]);
}

#[test]
fn test_basic_link_attachment() {
    let found_links = find_obsidian_links("A line with an ![[attachment.png]]");
    assert_eq!(found_links.len(), 1);
    assert_eq!(found_links[0].link_type(), LinkType::Attachment(FileType::Image));
}

#[test]
fn malformed_obsidian_link_is_skipped() {
    let found = find_obsidian_links("[[bad^link]] and [[good]]");
    assert_eq!(found.len(), 1);
    assert_eq!(found[0].target, "good.md");
}

#[test]
fn markdown_links_are_found() {
    let found = find_markdown_links("see [the docs](https://example.org/x#y) and ![pic](img.png)");
    assert_eq!(found.len(), 2);
    assert_eq!(found[0].target, "https://example.org/x");
    assert_eq!(found[0].subtarget, Some(String::from("y")));
    assert_eq!(found[0].alias, Some(String::from("the docs")));
    assert_eq!(found[0].source_string, "[the docs](https://example.org/x#y)");
    assert_eq!(found[0].link_type(), LinkType::External);
    assert!(found[1].is_attachment);
    assert_eq!(found[1].source_string, "![pic](img.png)");
}

fn test_multiple_tags(content: &str, tags: Vec<Tag>) {
    let found_tags = find_tags(content);
    assert_eq!(found_tags.len(), tags.len());
    found_tags.iter().zip(tags.iter()).for_each(|(found_tag, given_tag)| {
        assert_eq!(found_tag, given_tag);
    });
}

fn tag(path: &str, source: &str) -> Tag {
    Tag { tag_path: path.to_string(), source: source.to_string() }
}

#[test]
fn test_basic_tag() {
    test_multiple_tags("some line with a #tag.", vec![tag("tag", "#tag")]);
}

#[test]
fn test_basic_tag_with_space() {
    test_multiple_tags(
        "Something with a false # postiive and a #true_positive",
        vec![tag("true_positive", "#true_positive")],
    );
}

#[test]
fn test_basic_tag_linebreak() {
    test_multiple_tags("A line with a #tag\nthat is at the end of a line", vec![tag("tag", "#tag")]);
}

#[test]
fn test_tag_special_characters() {
    test_multiple_tags(
        "A line with a #tag2 and #tag_2 and #tag3#tag4 and #tag\\5",
        vec![
            tag("tag_2", "#tag_2"),
            tag("tag2", "#tag2"),
            tag("tag3", "#tag3"),
            tag("tag4", "#tag4"),
            tag("tag", "#tag"),
        ],
    );
}

#[test]
fn invalid_tags() {
    test_multiple_tags(
        "A line with an invalid #2 and valid #tag2 and another #1902 invalid one: #@test or ##not-a-tag",
        vec![tag("tag2", "#tag2")],
    );
}

#[test]
fn tags_longest_first() {
    let found: Vec<String> = find_tags("a #tag2 and #tag_2 and #tag3#tag4 and #tag")
        .into_iter()
        .map(|t| t.tag_path)
        .collect();
    assert_eq!(found, vec!["tag_2", "tag2", "tag3", "tag4", "tag"]);
}

#[test]
fn nested_tags_are_lowercased() {
    test_multiple_tags("#Topic/Sub_Topic here", vec![tag("topic/sub_topic", "#Topic/Sub_Topic")]);
}

#[test]
fn block_labels_at_line_ends() {
    let found = find_labels("para\n^first-1\ntext ^no\n  ^second\n^last");
    assert_eq!(found.len(), 2);
    assert_eq!(found[0].label, "first-1");
    assert_eq!(found[0].source, "^first-1");
    assert_eq!(found[1].label, "second");
}
