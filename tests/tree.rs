use oxidian::link::Link;
use oxidian::tag_tree::Tree;

#[test]
fn tree_chain_from_branch() {
    let names = vec!["a".to_string(), "b".to_string(), "c".to_string()];
    let t = Tree::from_iter(&names).unwrap();
    assert_eq!(t.name, "a");
    assert!(!t.is_leaf());
    assert!(Tree::from_iter(&Vec::new()).is_none());
    let leaf = Tree::new("x");
    assert!(leaf.is_leaf());
    assert_eq!(leaf.get_count_recursive(), 0);
}

fn create_first_tree() -> Tree {
    let mut root = Tree::new("root");
    let mut a = Tree::new("a");
    let mut b = Tree::new("b");
    let c = Tree::new("c");
    b.add_child(c);
    a.add_child(b);
    root.add_child(a);
    let mut a2 = Tree::new("a");
    let d = Tree::new("d");
    a2.add_child(d);
    root.add_child(a2);
    root
}

fn create_second_tree() -> Tree {
    let mut root = Tree::new("root");
    let mut a = Tree::new("a");
    let mut b = Tree::new("b");
    let c = Tree::new("c");
    b.add_child(c);
    a.add_child(b);
    let d = Tree::new("d");
    a.add_child(d);
    root.add_child(a);
    root
}

#[test]
fn tag_tree_add_existing_child() {
    let tree1 = create_first_tree();
    let tree2 = create_second_tree();
    assert_eq!(tree1, tree2);
}

fn branch(path: &str) -> Tree {
    let names: Vec<String> = path.split('/').map(|s| s.to_string()).collect();
    Tree::from_iter(&names).unwrap()
}

#[test]
fn insertion_order_does_not_matter() {
    let mut t1 = Tree::new("Tags");
    t1.add_child(branch("a/b/c"));
    t1.add_child(branch("a/d"));
    let mut t2 = Tree::new("Tags");
    t2.add_child(branch("a/d"));
    t2.add_child(branch("a/b/c"));
    assert_eq!(t1, t2);
    let mut t3 = Tree::new("Tags");
    t3.add_child(branch("a/d"));
    assert_ne!(t1, t3);
}

#[test]
fn links_are_merged_not_dropped() {

    let names = vec!["a".to_string()];
    let mut t = Tree::new("Tags");
    t.add_child(Tree::from_iter_payload(&names, &vec![Link::new("one", "/one.md")]).unwrap());
    t.add_child(Tree::from_iter_payload(&names, &vec![Link::new("two", "/two.md")]).unwrap());
    assert_eq!(t.get_contents_recursive().len(), 2);
    assert_eq!(t.get_count_recursive(), 2);
}

#[test]
fn navigation_lists_children_by_name() {
    let mut t1 = Tree::new("Tags");
    t1.add_child(branch("a/d"));
    t1.add_child(branch("a/b/c"));
    let mut t2 = Tree::new("Tags");
    t2.add_child(branch("a/b/c"));
    t2.add_child(branch("a/d"));
    let html = t1.to_html();
    assert_eq!(html, t2.to_html());
    assert!(html.starts_with("<details>\n<summary>\nTags\n</summary><ul class=\"nav_tag_list\" id=\"nav_tag_list\">"));
    let b = html.find("href=\"/tags/a/tag-b.html\"").unwrap();
    let c = html.find("href=\"/tags/a/b/tag-c.html\"").unwrap();
    let d = html.find("href=\"/tags/a/tag-d.html\"").unwrap();
    assert!(b < c && c < d);
    assert!(html.contains("<span class=\"tag-count\" style=\"float: right\"> 0 </span>"));
    assert_eq!(Tree::new("Tags").to_html(), "Tags");
    let names = vec!["a".to_string()];
    assert_eq!(t1.children(&names), vec!["b".to_string(), "d".to_string()]);
}

#[test]
fn index_pages_for_every_tag() {
    let names = vec!["a".to_string(), "b".to_string()];
    let mut t = Tree::new("Tags");
    t.add_child(Tree::from_iter_payload(&names, &vec![Link::new("Note One", "/one.md"), Link::new("Note One", "/one.md")]).unwrap());
    t.add_child(branch("c"));
    let pages = t.build_index_pages("tags", "<title>{{title}}</title>{{content}}{{backlinks}}");
    let paths: Vec<&str> = pages.iter().map(|(p, _)| p.as_str()).collect();
    assert_eq!(paths, vec!["tags/tag-a.html", "tags/a/tag-b.html", "tags/tag-c.html"]);
    let b = &pages[1].1;
    assert!(b.starts_with("<title>Tag - a / b</title><h1>\nIndex of b\n</h1>"));
    assert!(b.contains("<ul class=\"breadcrumbs\"><li> <a href=\"/tags/tag-a.html\" >a</a>\n<li> b</ul>"));
    assert_eq!(b.matches("Note One").count(), 1);
    assert!(b.ends_with("</ul>"));
}
