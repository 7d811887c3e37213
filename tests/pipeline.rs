use oxidian::admonitions::{AdmonitionParser, AdmonitionState, ParseOutput};
use oxidian::config::ExportConfig;
use oxidian::exporter::{Action, Exporter, FsEvent, FsEventKind, ModifyKind, RemoveKind, RenameMode};
use oxidian::filesys::{resolve_path, ResolvedPath, VaultIndex};
use oxidian::headers::HeaderParser;
use oxidian::note::{replace_obs_highlights, Note};
use oxidian::raw_html::RawHTMLParser;
use oxidian::sanitization::{apply, restore, Sanitization};
use oxidian::text::{chars_of, string_of};

fn vault(files: &[&str]) -> VaultIndex {
    VaultIndex::new(files.iter().map(|f| f.to_string()).collect())
}

#[test]
fn search_fallback_finds_nested_target() {
    let v = vault(&["note.md", "subdir/target.md"]);
    let none: Vec<String> = vec![];
    assert_eq!(resolve_path("target.md", "", &v, true, &none), ResolvedPath::Updated("/subdir/target.md".to_string()));
    assert_eq!(resolve_path("target.md", "", &v, false, &none), ResolvedPath::Broken);
}

#[test]
fn resolution_cases() {
    let v = vault(&["a.md", "dir/b.md", "dir/c.md"]);
    let none: Vec<String> = vec![];
    assert_eq!(resolve_path("", "dir", &v, true, &none), ResolvedPath::Unchanged);
    assert_eq!(resolve_path("/dir/b.md", "", &v, true, &none), ResolvedPath::Unchanged);
    assert_eq!(resolve_path("/nope.md", "", &v, true, &none), ResolvedPath::Broken);
    assert_eq!(resolve_path("c.md", "dir", &v, true, &none), ResolvedPath::Unchanged);
    assert_eq!(resolve_path("a.md", "dir", &v, true, &none), ResolvedPath::Updated("/a.md".to_string()));
    assert_eq!(resolve_path("x/c.md", "", &v, true, &none), ResolvedPath::Broken);
    let ignore = vec!["dir".to_string()];
    assert_eq!(resolve_path("c.md", "", &v, true, &ignore), ResolvedPath::Broken);
}

#[test]
fn resolving_a_resolved_target_keeps_it() {
    let v = vault(&["subdir/target.md"]);
    let none: Vec<String> = vec![];
    let first = resolve_path("target.md", "", &v, true, &none);
    match first {
        ResolvedPath::Updated(p) => assert_eq!(resolve_path(&p, "", &v, true, &none), ResolvedPath::Unchanged),
        other => panic!("unexpected {:?}", other),
    }
}

#[test]
fn placeholder_round_trip() {
    let content = chars_of("before `x` and `x` after");
    let rec = Sanitization::new("`x`", "<code>x</code>", true);
    let recs = vec![rec];
    let hidden = apply(&content, &recs);
    assert!(!string_of(&hidden).contains("`x`"));
    let back = restore(&hidden, &recs, true);
    assert_eq!(string_of(&back), "before <code>x</code> and <code>x</code> after");
    let other = restore(&hidden, &recs, false);
    assert_eq!(other, hidden);
    let twin = Sanitization::new("`x`", "<code>x</code>", true);
    assert_eq!(recs[0].get_placeholder(), twin.get_placeholder());
    let differ = Sanitization::new("`x`", "<code>x</code>", false);
    assert_ne!(recs[0].get_placeholder(), differ.get_placeholder());
}

#[test]
fn admonition_opens_and_closes_once_at_heading() {
    let mut p = AdmonitionParser::new();
    let open = p.process_line("[!NOTE] Title");
    match open {
        ParseOutput::Placeholder { replacement, placeholder: Some(rec) } => {
            assert_eq!(replacement, rec.get_placeholder());
            assert_eq!(rec.original, "[!NOTE] Title");
            assert_eq!(
                rec.replacement,
                "<div class=\"admonition admonition-note note\">\n<div class=\"admonition-title note\"> Title</div><div class=\"admonition-content\">"
            );
            assert!(!rec.before_markdown);
        }
        other => panic!("unexpected {:?}", other),
    }
    assert_eq!(p.state, AdmonitionState::Body);
    let body = p.process_line("> Body");
    assert_eq!(body, ParseOutput::Placeholder { replacement: " Body".to_string(), placeholder: None });
    let heading = p.process_line("# Next");
    match heading {
        ParseOutput::Placeholder { replacement, placeholder: Some(rec) } => {
            assert_eq!(rec.original, "</div></div>");
            assert_eq!(replacement, format!("{}\n# Next", rec.get_placeholder()));
        }
        other => panic!("unexpected {:?}", other),
    }
    assert_eq!(p.state, AdmonitionState::Idle);
    assert_eq!(p.process_line("plain"), ParseOutput::Keep);
}

#[test]
fn admonition_closes_after_two_plain_lines() {
    let mut p = AdmonitionParser::new();
    let _ = p.process_line("[!tip] T");
    assert_eq!(p.process_line(""), ParseOutput::Keep);
    assert_eq!(p.state, AdmonitionState::SingleBreak);
    match p.process_line("text") {
        ParseOutput::Placeholder { placeholder: Some(rec), .. } => assert_eq!(rec.replacement, "</div></div>"),
        other => panic!("unexpected {:?}", other),
    }
    assert_eq!(p.state, AdmonitionState::Idle);
}

#[test]
fn admonition_page_has_one_wrapper() {
    let v = vault(&["n.md"]);
    let none: Vec<String> = vec![];
    let note = Note::new("n.md", "[!note] Title\n> Body\n# Heading\n", &v, true, &none);
    let md = note.markdown_source();
    assert!(md.contains(" Body"));
    assert!(!md.contains("> Body"));
    let page = note.render_page(&md, "{{content}}");
    assert_eq!(page.matches("<div class=\"admonition admonition-note note\">").count(), 1);
    assert_eq!(page.matches("<div class=\"admonition-title note\"> Title</div>").count(), 1);
    assert_eq!(page.matches("</div></div>").count(), 1);
    assert!(page.contains("# Heading"));
}

#[test]
fn raw_html_lines_are_hidden() {
    let mut p = RawHTMLParser::new();
    match p.process_line("%%RAW_HTML") {
        oxidian::raw_html::ParseOutput::Placeholder { placeholder: Some(rec), .. } => assert_eq!(rec.replacement, ""),
        other => panic!("unexpected {:?}", other),
    }
    match p.process_line("<b>x</b>") {
        oxidian::raw_html::ParseOutput::Placeholder { placeholder: Some(rec), .. } => {
            assert_eq!(rec.replacement, "<b>x</b>");
            assert!(!rec.before_markdown);
        }
        other => panic!("unexpected {:?}", other),
    }
    let _ = p.process_line("  %%RAW_HTML");
    assert_eq!(p.process_line("after"), oxidian::raw_html::ParseOutput::Keep);
}

#[test]
fn headers_get_a_blank_line() {
    let mut h = HeaderParser::new();
    assert_eq!(h.process_line("text"), None);
    assert_eq!(h.process_line("# Head"), Some("\n# Head".to_string()));
    assert_eq!(h.process_line(""), None);
    assert_eq!(h.process_line("## Next"), None);
}

#[test]
fn highlights_become_spans() {
    assert_eq!(replace_obs_highlights("a ==b== c"), "a <span class=\"highlight\"> b </span> c");
}

#[test]
fn comments_are_cut() {
    assert_eq!(oxidian::comments::process_line("keep %%%% drop"), "keep ");
    assert_eq!(oxidian::comments::process_line("all"), "all");
}

fn exporter() -> Exporter {
    Exporter::new("", "out", ExportConfig::default(), "<h1>{{title}}</h1>{{content}}<nav>{{backlinks}}</nav>{{date}}")
}

#[test]
fn two_note_vault_backlinks() {
    let v = vault(&["A.md", "B.md"]);
    let none: Vec<String> = vec![];
    let mut a = Note::new("A.md", "Go to [[B]].\n", &v, true, &none);
    let mut b = Note::new("B.md", "No links here.\n", &v, true, &none);
    let ex = exporter();
    let notes = vec![Note::new("A.md", "Go to [[B]].\n", &v, true, &none), Note::new("B.md", "No links here.\n", &v, true, &none)];
    let index = ex.generate_backlinks_from_notes(&notes);
    ex.add_backlinks_to_note(&mut a, &index);
    ex.add_backlinks_to_note(&mut b, &index);
    assert_eq!(a.backlinks.len(), 0);
    assert_eq!(b.backlinks.len(), 1);
    assert_eq!(b.backlinks[0].target, "/A.md");
    assert_eq!(b.backlinks[0].alias, Some("A".to_string()));
    let page_b = b.render_page("<p>No links here.</p>", "{{backlinks}}");
    assert!(page_b.contains("<a href=\"/a.html\" >A</a>"));
    let page_a = a.render_page("", "{{backlinks}}");
    assert_eq!(page_a, "");
}

#[test]
fn note_pipeline_collects_parts() {
    let v = vault(&["n.md", "other.md"]);
    let none: Vec<String> = vec![];
    let raw = "---\ntitle: My Title\nauthors:\n  - Ada\nyear: \"1843\"\ndate_created: 2020-01-02\n---\nSee [[other]] and [[missing]] #topic/sub $#notatag$\n^label1\n";
    let mut n = Note::new("n.md", raw, &v, true, &none);
    assert_eq!(n.title, "Ada (1843) -My Title");
    assert_eq!(n.links.len(), 2);
    assert_eq!(n.links[0].target, "other.md");
    assert!(!n.links[0].broken);
    assert!(n.links[1].broken);
    let tags: Vec<String> = n.tags.iter().map(|t| t.tag_path.clone()).collect();
    assert_eq!(tags, vec!["topic/sub".to_string()]);
    n.cache_creation_time(Some((1999, 9, 9)));
    assert_eq!(n.get_creation_date(), Some((2020, 1, 2)));
    let md = n.markdown_source();
    assert!(md.contains("<a href=\"other.html\"> other </a>"));
    assert!(md.contains("class=\"broken\""));
    assert!(md.contains("/tags/topic/tag-sub.html"));
    let page = n.render_page(&md, "{{date}}|{{content}}|{{title}}");
    assert!(page.contains("2-1-2020"));
    assert!(page.ends_with("|Ada (1843) -My Title"));
    assert!(page.contains("$#notatag$"));
    assert!(page.contains("<span id=\"label1\">  </span>"));
}

#[test]
fn title_falls_back_to_file_stem() {
    let v = vault(&["dir/My Note.md"]);
    let none: Vec<String> = vec![];
    let mut n = Note::new("dir/My Note.md", "text", &v, true, &none);
    assert_eq!(n.title, "My Note");
    n.cache_creation_time(Some((2001, 2, 3)));
    assert_eq!(n.get_creation_date(), Some((2001, 2, 3)));
}

#[test]
fn incremental_events() {
    let ex = exporter();
    let modify = FsEvent { kind: FsEventKind::Modify(ModifyKind::Data), paths: vec!["a.md".to_string(), "img.png".to_string()] };
    assert_eq!(ex.handle_event(&modify, false), vec![Action::Recompile("a.md".to_string())]);
    assert_eq!(ex.handle_event(&modify, true), vec![Action::FullRebuild]);
    let rename = FsEvent { kind: FsEventKind::Modify(ModifyKind::Name(RenameMode::Both)), paths: vec!["a.md".to_string(), "b.md".to_string()] };
    assert_eq!(ex.handle_event(&rename, false), vec![Action::Move { from: "out/a.html".to_string(), to: "out/b.html".to_string() }]);
    let half = FsEvent { kind: FsEventKind::Modify(ModifyKind::Name(RenameMode::Both)), paths: vec!["a.md".to_string()] };
    assert_eq!(ex.handle_event(&half, false), vec![]);
    let remove = FsEvent { kind: FsEventKind::Remove(RemoveKind::File), paths: vec!["Sub Dir/c.md".to_string()] };
    assert_eq!(ex.handle_event(&remove, false), vec![Action::Delete("out/sub-dir/c.html".to_string())]);
    let folder = FsEvent { kind: FsEventKind::Remove(RemoveKind::Folder), paths: vec!["dir".to_string()] };
    assert_eq!(ex.handle_event(&folder, false), vec![]);
    let other = FsEvent { kind: FsEventKind::Other, paths: vec!["a.md".to_string()] };
    assert_eq!(ex.handle_event(&other, true), vec![]);
}

#[test]
fn template_fillers() {
    let mut ex = Exporter::new("", "out", ExportConfig::default(), "{{name}}|{{root}}|{{SEARCH_BAR}}|{{MATH_ENGINE}}|{{tag_nav}}");
    ex.set_title();
    ex.set_base_dir();
    ex.set_search_component("<search/>");
    ex.set_math_loading_snip("katex", "mathjax");
    ex.set_tag_nav("<ul/>");
    assert_eq!(ex.note_template, "NOTES|<base href=\"/\"/>|<search/>|mathjax|<ul/>");
    assert_eq!(ex.get_archive_dir(), "out/archive.html");
    assert_eq!(ex.output_static_path(), "out/static");
}

#[test]
fn compile_note_counts_and_skips() {
    let v = vault(&["n.md"]);
    let none: Vec<String> = vec![];
    let mut ex = exporter();
    let mut n = Note::new("n.md", "![[pic.png]]", &v, true, &none);
    let index = oxidian::exporter::Backlinks::new();
    assert_eq!(ex.compile_note(&mut n, &index, true), None);
    assert_eq!(ex.stats.skipped_notes, 1);
    assert_eq!(ex.compile_note(&mut n, &index, false), Some("out/n.html".to_string()));
    assert_eq!(ex.stats.note_count, 2);
    assert_eq!(ex.stats.attachment_count, 2);
}

#[test]
fn bare_addresses_become_links() {
    let v = vault(&["n.md"]);
    let none: Vec<String> = vec![];
    let n = Note::new("n.md", "see https://example.org/x now and [site](http://a.b)\n", &v, true, &none);
    assert_eq!(n.links.len(), 2);
    assert_eq!(n.links[0].target, "http://a.b");
    assert_eq!(n.links[1].target, "https://example.org/x");
    assert_eq!(n.links[1].link_type(), oxidian::link::LinkType::External);
    let md = n.markdown_source();
    assert!(md.contains("[https://example.org/x](https://example.org/x)"));
    assert!(md.contains("[site](http://a.b)"));
}

#[test]
fn quoted_line_resets_the_break() {
    let mut p = AdmonitionParser::new();
    let _ = p.process_line("[!note] T");
    assert!(matches!(p.process_line("> a"), ParseOutput::Placeholder { placeholder: None, .. }));
    assert_eq!(p.process_line("plain"), ParseOutput::Keep);
    assert!(matches!(p.process_line("> b"), ParseOutput::Placeholder { placeholder: None, .. }));
    assert_eq!(p.state, AdmonitionState::Body);
    assert_eq!(p.process_line("x"), ParseOutput::Keep);
    match p.process_line("y") {
        ParseOutput::Placeholder { placeholder: Some(rec), .. } => assert_eq!(rec.original, "</div></div>"),
        other => panic!("unexpected {:?}", other),
    }
}

#[test]
fn code_is_restored_after_conversion() {
    let v = vault(&["n.md"]);
    let none: Vec<String> = vec![];
    let n = Note::new("n.md", "use `#not_a_tag` here\n", &v, true, &none);
    assert_eq!(n.tags.len(), 0);
    let md = n.markdown_source();
    assert!(!md.contains("`#not_a_tag`"));
    let page = n.render_page(&md, "{{content}}");
    assert!(page.contains("`#not_a_tag`"));
}

#[test]
fn compiled_note_gets_its_backlinks() {
    let v = vault(&["A.md", "B.md"]);
    let none: Vec<String> = vec![];
    let notes = vec![Note::new("A.md", "[[B]]\n", &v, true, &none), Note::new("B.md", "text\n", &v, true, &none)];
    let mut ex = exporter();
    let index = ex.generate_backlinks_from_notes(&notes);
    let mut b = Note::new("B.md", "text\n", &v, true, &none);
    assert_eq!(ex.compile_note(&mut b, &index, false), Some("out/b.html".to_string()));
    assert_eq!(b.backlinks.len(), 1);
    assert_eq!(b.backlinks[0].target, "/A.md");
}

#[test]
fn tokens_inside_admonition_titles_are_restored() {
    let v = vault(&["n.md", "B.md"]);
    let none: Vec<String> = vec![];
    let n = Note::new("n.md", "[!note] Title `x` and [[B]]\n> body\n", &v, true, &none);
    let md = n.markdown_source();
    let page = n.render_page(&md, "{{content}}");
    for rec in &n.placeholders {
        assert!(!page.contains(&rec.get_placeholder()), "token of {:?} left", rec.original);
    }
    assert!(page.contains("<div class=\"admonition-title note\"> Title `x` and [[B]]</div>"));
}

#[test]
fn tokens_are_decimal_hashes() {
    let a = Sanitization::new("o", "r", true);
    let b = Sanitization::new("o", "r", true);
    let t = a.get_placeholder();
    assert_eq!(t, b.get_placeholder());
    assert!(!t.is_empty() && t.chars().all(|c| c.is_ascii_digit()));
}

#[test]
fn numeric_year_gives_the_prefix() {
    let v = vault(&["n.md"]);
    let none: Vec<String> = vec![];
    let n = Note::new("n.md", "---\ntitle: T\nauthors:\n  - Ada\nyear: 1843\n---\nbody\n", &v, true, &none);
    assert_eq!(n.title, "Ada (1843) -T");
}
