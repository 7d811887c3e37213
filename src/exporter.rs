//! The build of a vault: the backlink index, the note template, the mapping
//! of vault paths to output paths, and the rules of the incremental rebuild.
use vstd::prelude::*;
use crate::config::{ExportConfig, MathEngine};
use crate::errors::NotePathError;
use crate::filesys::{is_ignored, ignored};
use crate::link::{link_type_of, opt_view, Link, LinkType};
use crate::note::{dir_of, strings_of, Note};
use crate::paths::{extension, join, relative, strip_base, with_slash, without_extension};
use crate::slug::slug_path;
use crate::tag_tree::{grafted, link_set, link_view, merged, names_view, LinkView, Tree, TreeModel};
use crate::text::{chars_of, push_all, push_str, replace_all, replaced, slice, string_of};

verus! {

/// Counts of a build.
#[derive(Debug, PartialEq, Eq, Structural, Clone, Copy)]
pub struct ExportStats {
    pub note_count: u32,
    pub skipped_notes: u32,
    pub skipped_attachments: u32,
    pub attachment_count: u32,
}

impl ExportStats {
    pub fn new() -> (r: ExportStats)
        ensures
            r == (ExportStats { note_count: 0, skipped_notes: 0, skipped_attachments: 0, attachment_count: 0 }),
    {
        ExportStats { note_count: 0, skipped_notes: 0, skipped_attachments: 0, attachment_count: 0 }
    }
}

/// One more, stopping at the largest count.
pub open spec fn bump(x: u32) -> u32 {
    if x < u32::MAX { (x + 1) as u32 } else { x }
}

/// `x` counted up once for each attachment among the links.
pub open spec fn bump_attachments(x: u32, links: Seq<Link>) -> u32
    decreases links.len(),
{
    if links.len() == 0 {
        x
    } else {
        let prev = bump_attachments(x, links.drop_last());
        if links.last().is_attachment { bump(prev) } else { prev }
    }
}

fn bumped(x: u32) -> (r: u32)
    ensures
        r == bump(x),
{
    if x < u32::MAX { x + 1 } else { x }
}

/// The backlink index: pairs of a target path (absolute, with the markdown
/// extension) and a link to a note that refers to it, each pair once.
#[derive(Debug)]
pub struct Backlinks {
    pub entries: Vec<(String, Link)>,
}

impl Backlinks {
    pub open spec fn view(&self) -> Set<(Seq<char>, LinkView)> {
        Set::new(|e: (Seq<char>, LinkView)| exists|i: int| 0 <= i < self.entries@.len() && (self.entries@[i].0@, link_view(self.entries@[i].1)) == e)
    }

    pub fn new() -> (r: Backlinks)
        ensures
            r@ == Set::<(Seq<char>, LinkView)>::empty(),
    {
        let r = Backlinks { entries: Vec::new() };
        assert(r@ =~= Set::<(Seq<char>, LinkView)>::empty());
        r
    }

    /// Whether `link` is recorded for `key`.
    pub fn contains(&self, key: &str, link: &Link) -> (r: bool)
        ensures
            r == self@.contains((key@, link_view(*link))),
    {
        let ghost e = (key@, link_view(*link));
        let k = chars_of(key);
        let mut i: usize = 0;
        while i < self.entries.len()
            invariant
                i <= self.entries.len(),
                k@ == key@,
                e == (key@, link_view(*link)),
                forall|j: int| 0 <= j < i ==> (self.entries@[j].0@, link_view(self.entries@[j].1)) != e,
            decreases self.entries.len() - i,
        {
            let ek = chars_of(self.entries[i].0.as_str());
            let same_key = crate::text::same(&ek, &k);
            let same_l = same_link(&self.entries[i].1, link);
            if same_key && same_l {
                assert((self.entries@[i as int].0@, link_view(self.entries@[i as int].1)) == e);
                return true;
            }
            assert((self.entries@[i as int].0@, link_view(self.entries@[i as int].1)) != e);
            i = i + 1;
        }
        false
    }

    /// Records that `link` refers to `key`.
    pub fn insert(&mut self, key: &str, link: Link)
        ensures
            final(self)@ == old(self)@.insert((key@, link_view(link))),
    {
        let ghost e = (key@, link_view(link));
        if self.contains(key, &link) {
            assert(self@.insert(e) =~= self@);
            return;
        }
        let ghost before = self@;
        let ghost old_entries = self.entries@;
        self.entries.push((key.to_owned(), link));
        assert(self@ =~= before.insert(e)) by {
            assert forall|x: (Seq<char>, LinkView)| self@.contains(x) <==> before.insert(e).contains(x) by {
                if self@.contains(x) {
                    let j = choose|j: int| 0 <= j < self.entries@.len() && (self.entries@[j].0@, link_view(self.entries@[j].1)) == x;
                    if j < self.entries@.len() - 1 {
                        assert(self.entries@[j] == old_entries[j]);
                        assert(before.contains(x));
                    }
                }
                if before.contains(x) {
                    let j = choose|j: int| 0 <= j < old_entries.len() && (old_entries[j].0@, link_view(old_entries[j].1)) == x;
                    assert(self.entries@[j] == old_entries[j]);
                }
                if x == e {
                    assert(self.entries@[self.entries@.len() - 1].0@ == key@);
                }
            }
        }
    }

    /// The links recorded for `key`.
    pub fn get(&self, key: &str) -> (r: Vec<Link>)
        ensures
            link_set(r@) == Set::new(|v: LinkView| self@.contains((key@, v))),
    {
        let k = chars_of(key);
        let mut out: Vec<Link> = Vec::new();
        let mut i: usize = 0;
        while i < self.entries.len()
            invariant
                i <= self.entries.len(),
                k@ == key@,
                link_set(out@) == Set::new(|v: LinkView| exists|j: int| 0 <= j < i && self.entries@[j].0@ == key@ && link_view(self.entries@[j].1) == v),
            decreases self.entries.len() - i,
        {
            let ghost o0 = out@;
            let ek = chars_of(self.entries[i].0.as_str());
            let is_key = crate::text::same(&ek, &k);
            if is_key {
                out.push(self.entries[i].1.duplicate());
                proof { crate::tag_tree::lemma_link_set_push(o0, out@[o0.len() as int]); }
                assert(out@ =~= o0.push(out@[o0.len() as int]));
            }
            assert(link_set(out@) =~= Set::new(|v: LinkView| exists|j: int| 0 <= j < i + 1 && self.entries@[j].0@ == key@ && link_view(self.entries@[j].1) == v));
            i = i + 1;
        }
        assert(link_set(out@) =~= Set::new(|v: LinkView| self@.contains((key@, v))));
        out
    }
}

fn same_opt(a: &Option<String>, b: &Option<String>) -> (r: bool)
    ensures
        r == (opt_view(*a) == opt_view(*b)),
{
    match (a, b) {
        (Some(x), Some(y)) => {
            let xv = chars_of(x.as_str());
            let yv = chars_of(y.as_str());
            crate::text::same(&xv, &yv)
        },
        (None, None) => true,
        _ => false,
    }
}

/// Whether two links are equal field by field.
pub fn same_link(a: &Link, b: &Link) -> (r: bool)
    ensures
        r == (link_view(*a) == link_view(*b)),
{
    let at = chars_of(a.target.as_str());
    let bt = chars_of(b.target.as_str());
    let asrc = chars_of(a.source_string.as_str());
    let bsrc = chars_of(b.source_string.as_str());
    crate::text::same(&at, &bt) && same_opt(&a.subtarget, &b.subtarget) && same_opt(&a.alias, &b.alias)
        && crate::text::same(&asrc, &bsrc) && a.is_attachment == b.is_attachment && a.broken == b.broken
}

/// A path with the markdown extension in place of its own.
pub open spec fn md_path(p: Seq<char>) -> Seq<char> {
    without_extension(p) + ".md"@
}

/// The index key of a link target written in the note at `note_path`: the
/// target as an absolute vault path with the markdown extension.
pub open spec fn backlink_key(note_path: Seq<char>, target: Seq<char>) -> Seq<char> {
    if target.len() > 0 && target[0] == '/' {
        md_path(target)
    } else {
        md_path(with_slash(join(dir_of(note_path), target)))
    }
}

/// The link to a note that its backlinks show: its absolute path and its title.
pub open spec fn note_link_view(n: Note) -> LinkView {
    (with_slash(n.path@), None, Some(n.title@), Seq::empty(), false, false)
}

/// Whether a link counts for the backlink index: a note link, not broken.
pub open spec fn indexed(l: Link) -> bool {
    link_type_of(l.target@, l.is_attachment) == LinkType::Note && !l.broken
}

/// The index entries that a note contributes.
pub open spec fn note_entries(n: Note) -> Set<(Seq<char>, LinkView)> {
    Set::new(|e: (Seq<char>, LinkView)| exists|i: int| 0 <= i < n.links@.len() && indexed(n.links@[i])
        && e == (backlink_key(n.path@, n.links@[i].target@), note_link_view(n)))
}

/// The index entries of all notes.
pub open spec fn all_entries(notes: Seq<Note>) -> Set<(Seq<char>, LinkView)>
    decreases notes.len(),
{
    if notes.len() == 0 {
        Set::empty()
    } else {
        all_entries(notes.drop_last()).union(note_entries(notes.last()))
    }
}

/// The link to a note that backlinks show.
pub fn link_from_note(n: &Note) -> (r: Link)
    ensures
        link_view(r) == note_link_view(*n),
{
    let p = crate::paths::prepend_slash(n.path.as_str());
    let l = Link::new(n.title.as_str(), p.as_str());
    l
}

fn key_of(note_path: &str, target: &str) -> (r: String)
    ensures
        r@ == backlink_key(note_path@, target@),
{
    let t = chars_of(target);
    let abs = if t.len() > 0 && t[0] == '/' {
        t
    } else {
        let d = chars_of(crate::note::directory_of(note_path).as_str());
        crate::paths::slash_prefixed(&crate::paths::join_paths(&d, &t))
    };
    let mut out = crate::paths::without_extension_of(&abs);
    push_str(&mut out, ".md");
    string_of(&out)
}

/// A build of the vault at `input_dir` into `output_dir`.
pub struct Exporter {
    pub input_dir: String,
    pub output_dir: String,
    pub cfg: ExportConfig,
    pub stats: ExportStats,
    pub note_template: String,
}

/// Where the output of the vault file `path` goes.
pub open spec fn output_of(input_dir: Seq<char>, output_dir: Seq<char>, path: Seq<char>, ext: Option<Seq<char>>) -> Seq<char> {
    join(output_dir, slug_path(relative(path, input_dir), ext))
}

/// Whether a path is a note: the extension `md` or `html` in any case, and
/// not under an ignored directory.
pub open spec fn is_note_path(p: Seq<char>, ignore: Seq<Seq<char>>) -> bool {
    match extension(p) {
        Some(e) => (crate::chars::lower_seq(e) == "md"@ || crate::chars::lower_seq(e) == "html"@) && !is_ignored(p, ignore),
        None => false,
    }
}

pub fn is_note(path: &str, ignore: &Vec<String>) -> (r: bool)
    ensures
        r == is_note_path(path@, strings_of(ignore@)),
{
    let p = chars_of(path);
    match crate::paths::extension_of(&p) {
        None => false,
        Some(e) => {
            let x = crate::chars::lower_all(&e);
            let md = chars_of("md");
            let html = chars_of("html");
            let is_ext = crate::text::same(&x, &md) || crate::text::same(&x, &html);
            let ig = ignored(&p, ignore);
            assert(Seq::new(ignore@.len(), |k: int| ignore@[k]@) == strings_of(ignore@));
            is_ext && !ig
        },
    }
}

/// A filesystem event, its paths relative to the vault root.
#[derive(Debug, PartialEq, Eq)]
pub struct FsEvent {
    pub kind: FsEventKind,
    pub paths: Vec<String>,
}

#[derive(Debug, PartialEq, Eq, Structural, Clone, Copy)]
pub enum RenameMode {
    Both,
    Other,
}

#[derive(Debug, PartialEq, Eq, Structural, Clone, Copy)]
pub enum ModifyKind {
    Name(RenameMode),
    Data,
    Other,
}

#[derive(Debug, PartialEq, Eq, Structural, Clone, Copy)]
pub enum RemoveKind {
    File,
    Folder,
    Other,
}

#[derive(Debug, PartialEq, Eq, Structural, Clone, Copy)]
pub enum FsEventKind {
    Modify(ModifyKind),
    Remove(RemoveKind),
    Other,
}

/// What the watcher must do for an event.
#[derive(Debug, PartialEq, Eq)]
pub enum Action {
    /// Build the whole vault again.
    FullRebuild,
    /// Compile this note again, with the current backlink index.
    Recompile(String),
    /// Move a compiled page.
    Move { from: String, to: String },
    /// Delete a compiled page.
    Delete(String),
}

pub open spec fn action_view(a: Action) -> (int, Seq<char>, Seq<char>) {
    match a {
        Action::FullRebuild => (0, Seq::empty(), Seq::empty()),
        Action::Recompile(p) => (1, p@, Seq::empty()),
        Action::Move { from, to } => (2, from@, to@),
        Action::Delete(p) => (3, p@, Seq::empty()),
    }
}

/// Notes among `paths`, each mapped by `f`.
pub open spec fn note_actions(paths: Seq<Seq<char>>, ignore: Seq<Seq<char>>, tag: int, input_dir: Seq<char>, output_dir: Seq<char>) -> Seq<(int, Seq<char>, Seq<char>)>
    decreases paths.len(),
{
    if paths.len() == 0 {
        Seq::empty()
    } else {
        let prev = note_actions(paths.drop_last(), ignore, tag, input_dir, output_dir);
        let p = paths.last();
        if !is_note_path(p, ignore) {
            prev
        } else if tag == 1 {
            prev.push((1, p, Seq::empty()))
        } else {
            prev.push((3, output_of(input_dir, output_dir, p, Some("html"@)), Seq::empty()))
        }
    }
}

/// The actions for an event: a full rebuild on a change or removal when full
/// rebuilds are asked for; else a recompile of each changed note, a move of
/// the page of a renamed note, a deletion of the page of a removed note, and
/// nothing for anything else.
pub open spec fn event_actions(kind: FsEventKind, paths: Seq<Seq<char>>, full_rebuild: bool, ignore: Seq<Seq<char>>, input_dir: Seq<char>, output_dir: Seq<char>) -> Seq<(int, Seq<char>, Seq<char>)> {
    if full_rebuild {
        match kind {
            FsEventKind::Modify(_) | FsEventKind::Remove(_) => seq![(0, Seq::empty(), Seq::empty())],
            FsEventKind::Other => Seq::empty(),
        }
    } else {
        match kind {
            FsEventKind::Modify(ModifyKind::Name(RenameMode::Both)) => if paths.len() == 2 && is_note_path(paths[0], ignore) && is_note_path(paths[1], ignore) {
                seq![(2, output_of(input_dir, output_dir, paths[0], Some("html"@)), output_of(input_dir, output_dir, paths[1], Some("html"@)))]
            } else {
                Seq::empty()
            },
            FsEventKind::Modify(ModifyKind::Name(RenameMode::Other)) => Seq::empty(),
            FsEventKind::Modify(_) => note_actions(paths, ignore, 1, input_dir, output_dir),
            FsEventKind::Remove(RemoveKind::File) => note_actions(paths, ignore, 3, input_dir, output_dir),
            _ => Seq::empty(),
        }
    }
}

impl Exporter {
    /// A build with the given note template.
    pub fn new(input_dir: &str, output_dir: &str, cfg: ExportConfig, template: &str) -> (r: Exporter)
        ensures
            r.input_dir@ == input_dir@,
            r.output_dir@ == output_dir@,
            r.cfg == cfg,
            r.stats == ExportStats::new_spec(),
            r.note_template@ == template@,
    {
        Exporter {
            input_dir: input_dir.to_owned(),
            output_dir: output_dir.to_owned(),
            cfg,
            stats: ExportStats::new(),
            note_template: template.to_owned(),
        }
    }

    pub fn input_directory(&self) -> (r: &str)
        ensures
            r@ == self.input_dir@,
    {
        self.input_dir.as_str()
    }

    pub fn config(&self) -> (r: &ExportConfig)
        ensures
            *r == self.cfg,
    {
        &self.cfg
    }

    /// The directories no note is taken from: attachments, static files,
    /// templates and the ignored ones, as the configuration writes them. Like
    /// every path of the vault index, they are relative to the vault root, so
    /// they are not joined with the input directory.
    pub fn get_excluded(&self) -> (r: Vec<String>)
        ensures
            strings_of(r@) == (match self.cfg.attachment_dir { Some(d) => seq![d@], None => Seq::empty() })
                + (match self.cfg.static_dir { Some(d) => seq![d@], None => Seq::empty() })
                + (match self.cfg.template_dir { Some(d) => seq![d@], None => Seq::empty() })
                + strings_of(self.cfg.ignored@),
    {
        let mut out: Vec<String> = Vec::new();
        match &self.cfg.attachment_dir {
            Some(d) => out.push(d.clone()),
            None => {},
        }
        match &self.cfg.static_dir {
            Some(d) => out.push(d.clone()),
            None => {},
        }
        match &self.cfg.template_dir {
            Some(d) => out.push(d.clone()),
            None => {},
        }
        let ghost head = strings_of(out@);
        let mut i: usize = 0;
        while i < self.cfg.ignored.len()
            invariant
                i <= self.cfg.ignored.len(),
                strings_of(out@) =~= head + strings_of(self.cfg.ignored@).subrange(0, i as int),
            decreases self.cfg.ignored.len() - i,
        {
            let ghost o0 = out@;
            out.push(self.cfg.ignored[i].clone());
            assert(strings_of(out@) =~= strings_of(o0).push(self.cfg.ignored@[i as int]@));
            i = i + 1;
        }
        assert(strings_of(self.cfg.ignored@).subrange(0, self.cfg.ignored@.len() as int) =~= strings_of(self.cfg.ignored@));
        out
    }

    /// Adds the entries of one note to the backlink index.
    pub fn update_backlinks(&self, backlinks: &mut Backlinks, note: &Note)
        ensures
            final(backlinks)@ == old(backlinks)@.union(note_entries(*note)),
    {
        let ghost start = backlinks@;
        let mut i: usize = 0;
        while i < note.links.len()
            invariant
                i <= note.links.len(),
                backlinks@ == start.union(Set::new(|e: (Seq<char>, LinkView)| exists|j: int| 0 <= j < i && indexed(note.links@[j])
                    && e == (backlink_key(note.path@, note.links@[j].target@), note_link_view(*note)))),
            decreases note.links.len() - i,
        {
            let l = &note.links[i];
            let ghost b0 = backlinks@;
            if l.link_type() == LinkType::Note && !l.broken {
                let key = key_of(note.path.as_str(), l.target.as_str());
                backlinks.insert(key.as_str(), link_from_note(note));
            }
            proof {
                let s_old = Set::new(|e: (Seq<char>, LinkView)| exists|j: int| 0 <= j < i && indexed(note.links@[j])
                    && e == (backlink_key(note.path@, note.links@[j].target@), note_link_view(*note)));
                let s_new = Set::new(|e: (Seq<char>, LinkView)| exists|j: int| 0 <= j < i + 1 && indexed(note.links@[j])
                    && e == (backlink_key(note.path@, note.links@[j].target@), note_link_view(*note)));
                let e_i = (backlink_key(note.path@, note.links@[i as int].target@), note_link_view(*note));
                if indexed(note.links@[i as int]) {
                    assert(s_new =~= s_old.insert(e_i));
                    assert(backlinks@ =~= start.union(s_new));
                } else {
                    assert(s_new =~= s_old);
                }
            }
            i = i + 1;
        }
        proof {
            let s = Set::new(|e: (Seq<char>, LinkView)| exists|j: int| 0 <= j < note.links@.len() && indexed(note.links@[j])
                && e == (backlink_key(note.path@, note.links@[j].target@), note_link_view(*note)));
            assert(s =~= note_entries(*note));
        }
    }

    /// The backlink index of all notes.
    pub fn generate_backlinks_from_notes(&self, notes: &Vec<Note>) -> (r: Backlinks)
        ensures
            r@ == all_entries(notes@),
    {
        let mut b = Backlinks::new();
        let mut i: usize = 0;
        while i < notes.len()
            invariant
                i <= notes.len(),
                b@ == all_entries(notes@.subrange(0, i as int)),
            decreases notes.len() - i,
        {
            self.update_backlinks(&mut b, &notes[i]);
            proof {
                let pre = notes@.subrange(0, i + 1);
                assert(pre.drop_last() =~= notes@.subrange(0, i as int));
            }
            i = i + 1;
        }
        assert(notes@.subrange(0, notes@.len() as int) =~= notes@);
        b
    }

    /// Gives the note the links of the notes that refer to it.
    pub fn add_backlinks_to_note(&self, note: &mut Note, backlinks: &Backlinks)
        ensures
            final(note).backlinks@.len() >= old(note).backlinks@.len(),
            final(note).backlinks@.subrange(0, old(note).backlinks@.len() as int) == old(note).backlinks@,
            link_set(final(note).backlinks@.subrange(old(note).backlinks@.len() as int, final(note).backlinks@.len() as int))
                == Set::new(|v: LinkView| backlinks@.contains((md_path(with_slash(old(note).path@)), v))),
            final(note).path == old(note).path,
            final(note).content == old(note).content,
            final(note).placeholders == old(note).placeholders,
            final(note).title == old(note).title,
            final(note).links == old(note).links,
            final(note).tags == old(note).tags,
            final(note).creation_date == old(note).creation_date,
    {
        let p = chars_of(crate::paths::prepend_slash(note.path.as_str()).as_str());
        let mut k = crate::paths::without_extension_of(&p);
        push_str(&mut k, ".md");
        let key = string_of(&k);
        let found = backlinks.get(key.as_str());
        let ghost start = note.backlinks@;
        let mut i: usize = 0;
        while i < found.len()
            invariant
                i <= found.len(),
                note.backlinks@.len() == start.len() + i,
                note.backlinks@.subrange(0, start.len() as int) == start,
                link_set(note.backlinks@.subrange(start.len() as int, note.backlinks@.len() as int)) == link_set(found@.subrange(0, i as int)),
                note.path == old(note).path,
                note.content == old(note).content,
                note.placeholders == old(note).placeholders,
                note.title == old(note).title,
                note.links == old(note).links,
                note.tags == old(note).tags,
                note.creation_date == old(note).creation_date,
                start == old(note).backlinks@,
            decreases found.len() - i,
        {
            let ghost b0 = note.backlinks@;
            let l = found[i].duplicate();
            let ghost lv = link_view(l);
            note.add_backlink(l);
            proof {
                assert(note.backlinks@.subrange(0, start.len() as int) =~= b0.subrange(0, start.len() as int));
                let tail0 = b0.subrange(start.len() as int, b0.len() as int);
                let tail1 = note.backlinks@.subrange(start.len() as int, note.backlinks@.len() as int);
                assert(tail1 =~= tail0.push(note.backlinks@[note.backlinks@.len() - 1]));
                crate::tag_tree::lemma_link_set_push(tail0, note.backlinks@[note.backlinks@.len() - 1]);
                let f0 = found@.subrange(0, i as int);
                assert(found@.subrange(0, i + 1) =~= f0.push(found@[i as int]));
                crate::tag_tree::lemma_link_set_push(f0, found@[i as int]);
            }
            i = i + 1;
        }
        assert(found@.subrange(0, found@.len() as int) =~= found@);
    }

    /// The output path of the vault file `path`.
    pub fn input_to_output(&self, path: &str, extension: Option<&str>) -> (r: String)
        ensures
            r@ == output_of(self.input_dir@, self.output_dir@, path@, match extension {
                Some(e) => Some(e@),
                None => None::<Seq<char>>,
            }),
    {
        let rel = crate::paths::relative_to(path, self.input_dir.as_str());
        let slugged = chars_of(crate::slug::output_path(rel.as_str(), extension).as_str());
        let out = chars_of(self.output_dir.as_str());
        string_of(&crate::paths::join_paths(&out, &slugged))
    }

    /// The slugged form of `path`, kept below the input directory when it lies there.
    pub fn slugify_path(&self, path: &str, extension: Option<&str>) -> (r: Result<String, NotePathError>)
        ensures
            r matches Ok(s) && s@ == ({
                let e = match extension {
                    Some(e) => Some(e@),
                    None => None::<Seq<char>>,
                };
                let inner = slug_path(relative(path@, self.input_dir@), e);
                if strip_base(path@, self.input_dir@) is Some { join(self.input_dir@, inner) } else { inner }
            }),
    {
        let (internal, has_prefix) = crate::paths::relative_to_with_info(path, self.input_dir.as_str());
        let slugged = chars_of(crate::slug::output_path(internal.as_str(), extension).as_str());
        if has_prefix {
            let base = chars_of(self.input_dir.as_str());
            Ok(string_of(&crate::paths::join_paths(&base, &slugged)))
        } else {
            Ok(string_of(&slugged))
        }
    }

    /// Counts the note and its attachments, and decides whether it is
    /// compiled: it is skipped when unchanged notes may be skipped and its
    /// page is newer than its source. A compiled note gets its backlinks; the
    /// result is then the path its page goes to.
    pub fn compile_note(&mut self, note: &mut Note, backlinks: &Backlinks, page_is_newer: bool) -> (r: Option<String>)
        ensures
            final(self).stats.note_count == bump(old(self).stats.note_count),
            final(self).stats.attachment_count == bump_attachments(old(self).stats.attachment_count, old(note).links@),
            (old(self).cfg.performance.skip_unchanged_notes && page_is_newer) ==> (r is None && final(self).stats.skipped_notes == bump(old(self).stats.skipped_notes)
                && final(note).backlinks == old(note).backlinks),
            !(old(self).cfg.performance.skip_unchanged_notes && page_is_newer) ==> (r matches Some(p) && p@ == output_of(
                old(self).input_dir@, old(self).output_dir@, old(note).path@, Some("html"@))
                && final(self).stats.skipped_notes == old(self).stats.skipped_notes
                && final(note).backlinks@.len() >= old(note).backlinks@.len()
                && final(note).backlinks@.subrange(0, old(note).backlinks@.len() as int) == old(note).backlinks@
                && link_set(final(note).backlinks@.subrange(old(note).backlinks@.len() as int, final(note).backlinks@.len() as int))
                == Set::new(|v: LinkView| backlinks@.contains((md_path(with_slash(old(note).path@)), v)))),
            final(self).input_dir == old(self).input_dir,
            final(self).output_dir == old(self).output_dir,
            final(self).cfg == old(self).cfg,
            final(self).note_template == old(self).note_template,
    {
        self.stats.note_count = bumped(self.stats.note_count);
        let mut i: usize = 0;
        while i < note.links.len()
            invariant
                i <= note.links.len(),
                self.stats.note_count == bump(old(self).stats.note_count),
                self.stats.skipped_notes == old(self).stats.skipped_notes,
                self.stats.attachment_count == bump_attachments(old(self).stats.attachment_count, note.links@.subrange(0, i as int)),
                self.input_dir == old(self).input_dir,
                self.output_dir == old(self).output_dir,
                self.cfg == old(self).cfg,
                self.note_template == old(self).note_template,
            decreases note.links.len() - i,
        {
            proof {
                let pre = note.links@.subrange(0, i + 1);
                assert(pre.drop_last() =~= note.links@.subrange(0, i as int));
            }
            if note.links[i].is_attachment {
                self.stats.attachment_count = bumped(self.stats.attachment_count);
            }
            i = i + 1;
        }
        assert(note.links@.subrange(0, note.links@.len() as int) =~= note.links@);
        if self.cfg.performance.skip_unchanged_notes && page_is_newer {
            self.stats.skipped_notes = bumped(self.stats.skipped_notes);
            return None;
        }
        self.add_backlinks_to_note(note, backlinks);
        proof { reveal_strlit("html"); }
        Some(self.input_to_output(note.path.as_str(), Some("html")))
    }

    /// Replaces a marker of the note template.
    fn fill_template(&mut self, marker: &str, value: &str)
        ensures
            final(self).note_template@ == replaced(old(self).note_template@, marker@, value@),
            final(self).input_dir == old(self).input_dir,
            final(self).output_dir == old(self).output_dir,
            final(self).cfg == old(self).cfg,
            final(self).stats == old(self).stats,
    {
        let t = chars_of(self.note_template.as_str());
        let m = chars_of(marker);
        let v = chars_of(value);
        self.note_template = string_of(&replace_all(&t, &m, &v));
    }

    /// Puts the snippet that loads the search engine in the template, or
    /// nothing when search is off.
    pub fn set_search_loading_snip(&mut self, snippet: &str)
        ensures
            final(self).note_template@ == replaced(old(self).note_template@, "{{SEARCH_SCRIPT}}"@, if old(self).cfg.search.enable { snippet@ } else { ""@ }),
            final(self).cfg == old(self).cfg,
    {
        let v = if self.cfg.search.enable { snippet } else { "" };
        self.fill_template("{{SEARCH_SCRIPT}}", v);
    }

    /// Puts the search bar in the template, or nothing when search is off.
    pub fn set_search_component(&mut self, snippet: &str)
        ensures
            final(self).note_template@ == replaced(old(self).note_template@, "{{SEARCH_BAR}}"@, if old(self).cfg.search.enable { snippet@ } else { ""@ }),
            final(self).cfg == old(self).cfg,
    {
        let v = if self.cfg.search.enable { snippet } else { "" };
        self.fill_template("{{SEARCH_BAR}}", v);
    }

    /// Puts the snippet that loads the configured math engine in the
    /// template, or nothing when math is off.
    pub fn set_math_loading_snip(&mut self, katex: &str, mathjax: &str)
        ensures
            final(self).note_template@ == replaced(old(self).note_template@, "{{MATH_ENGINE}}"@, if !old(self).cfg.math.enable {
                ""@
            } else if old(self).cfg.math.engine == MathEngine::Katex {
                katex@
            } else {
                mathjax@
            }),
            final(self).cfg == old(self).cfg,
    {
        let v = if !self.cfg.math.enable {
            ""
        } else {
            match self.cfg.math.engine {
                MathEngine::Katex => katex,
                MathEngine::Mathjax => mathjax,
            }
        };
        self.fill_template("{{MATH_ENGINE}}", v);
    }

    /// Puts the base address of the site in the template, when one is configured.
    pub fn set_base_dir(&mut self)
        ensures
            final(self).note_template@ == (match old(self).cfg.root_path {
                Some(root) => replaced(old(self).note_template@, "{{root}}"@, "<base href=\""@ + root@ + "\"/>"@),
                None => old(self).note_template@,
            }),
            final(self).cfg == old(self).cfg,
    {
        match &self.cfg.root_path {
            Some(root) => {
                let mut v: Vec<char> = Vec::new();
                push_str(&mut v, "<base href=\"");
                push_str(&mut v, root.as_str());
                push_str(&mut v, "\"/>");
                let vs = string_of(&v);
                self.fill_template("{{root}}", vs.as_str());
            },
            None => {},
        }
    }

    /// Puts the vault's title in the template.
    pub fn set_title(&mut self)
        ensures
            final(self).note_template@ == replaced(old(self).note_template@, "{{name}}"@, old(self).cfg.title@),
            final(self).cfg == old(self).cfg,
    {
        let t = self.cfg.title.clone();
        self.fill_template("{{name}}", t.as_str());
    }

    /// Puts the tag navigation in the template.
    pub fn set_tag_nav(&mut self, tree_html: &str)
        ensures
            final(self).note_template@ == replaced(old(self).note_template@, "{{tag_nav}}"@, tree_html@),
            final(self).cfg == old(self).cfg,
    {
        self.fill_template("{{tag_nav}}", tree_html);
    }

    /// The root of the tag tree.
    pub fn initialize_tag_tree() -> (r: Tree)
        ensures
            r.name@ == "Tags"@,
            r.model() == Map::<Seq<Seq<char>>, Set<LinkView>>::empty().insert(Seq::empty(), Set::empty()),
    {
        Tree::new("Tags")
    }

    /// Where the archive page goes.
    pub fn get_archive_dir(&self) -> (r: String)
        ensures
            r@ == join(self.output_dir@, "archive.html"@),
    {
        let o = chars_of(self.output_dir.as_str());
        let a = chars_of("archive.html");
        string_of(&crate::paths::join_paths(&o, &a))
    }

    /// Where static files go: the configured static directory, or `static`,
    /// below the output directory.
    pub fn output_static_path(&self) -> (r: String)
        ensures
            r@ == join(self.output_dir@, match self.cfg.static_dir { Some(d) => d@, None => "static"@ }),
    {
        let o = chars_of(self.output_dir.as_str());
        let d = match &self.cfg.static_dir {
            Some(d) => chars_of(d.as_str()),
            None => chars_of("static"),
        };
        string_of(&crate::paths::join_paths(&o, &d))
    }

    /// Whether an unchanged note may be skipped: only when the configuration
    /// allows it and its page is newer than its source.
    pub fn should_skip_note(&self, page_is_newer: bool) -> (r: bool)
        ensures
            r == (self.cfg.performance.skip_unchanged_notes && page_is_newer),
    {
        self.cfg.performance.skip_unchanged_notes && page_is_newer
    }

    /// Whether a cached attachment may be skipped: only when the configuration
    /// allows it and its copy is newer than its source.
    pub fn should_skip_attachment(&self, copy_is_newer: bool) -> (r: bool)
        ensures
            r == (self.cfg.performance.skip_cached_attachments && copy_is_newer),
    {
        self.cfg.performance.skip_cached_attachments && copy_is_newer
    }

    /// Source and output paths of an attachment that a link names.
    pub fn get_paths_of_linked_attach(&self, link: &Link) -> (r: (String, String))
        ensures
            r.0@ == join(self.input_dir@, match self.cfg.attachment_dir {
                Some(d) => join(d@, link.target@),
                None => link.target@,
            }),
            r.1@ == output_of(self.input_dir@, self.output_dir@, link.target@, None),
    {
        let out = self.input_to_output(link.target.as_str(), None);
        let t = chars_of(link.target.as_str());
        let inner = match &self.cfg.attachment_dir {
            Some(d) => crate::paths::join_paths(&chars_of(d.as_str()), &t),
            None => t,
        };
        let i = chars_of(self.input_dir.as_str());
        (string_of(&crate::paths::join_paths(&i, &inner)), out)
    }

    /// Merges every tag of every note into the tag tree: each tag's path is
    /// a chain of nodes below the root, and its last node holds a link to
    /// the note.
    pub fn generate_tag_tree_from_notes(&self, notes: &Vec<Note>) -> (r: Tree)
        ensures
            r.name@ == "Tags"@,
            r.model() == notes_tags_model(notes@),
    {
        let mut tree = Self::initialize_tag_tree();
        let mut i: usize = 0;
        while i < notes.len()
            invariant
                i <= notes.len(),
                tree.name@ == "Tags"@,
                tree.model() == notes_tags_model(notes@.subrange(0, i as int)),
            decreases notes.len() - i,
        {
            let n = &notes[i];
            let ghost start = tree.model();
            let mut k: usize = 0;
            while k < n.tags.len()
                invariant
                    k <= n.tags.len(),
                    tree.name@ == "Tags"@,
                    tree.model() == note_tags_model(start, *n, n.tags@.subrange(0, k as int)),
                decreases n.tags.len() - k,
            {
                let parts = crate::text::split_char(&chars_of(n.tags[k].tag_path.as_str()), '/');
                let mut names: Vec<String> = Vec::new();
                let mut q: usize = 0;
                while q < parts.len()
                    invariant
                        q <= parts.len(),
                        names_view(names@) =~= Seq::new(q as nat, |j: int| parts@[j]@),
                    decreases parts.len() - q,
                {
                    let ghost n0 = names@;
                    let x = string_of(&parts[q]);
                    names.push(x);
                    proof { crate::tag_tree::lemma_names_push(n0, x); }
                    q = q + 1;
                }
                assert(names_view(names@) =~= crate::text::split_on(n.tags@[k as int].tag_path@, '/'));
                let mut links: Vec<Link> = Vec::new();
                let l = link_from_note(n);
                let ghost lv = link_view(l);
                links.push(l);
                proof {
                    assert(link_set(links@) =~= set![note_link_view(*n)]) by {
                        assert(link_view(links@[0]) == lv);
                    }
                    let pre = n.tags@.subrange(0, k + 1);
                    assert(pre.drop_last() =~= n.tags@.subrange(0, k as int));
                }
                match Tree::from_iter_payload(&names, &links) {
                    Some(sub) => tree.add_child(sub),
                    None => {},
                }
                k = k + 1;
            }
            proof {
                assert(n.tags@.subrange(0, n.tags@.len() as int) =~= n.tags@);
                let pre = notes@.subrange(0, i + 1);
                assert(pre.drop_last() =~= notes@.subrange(0, i as int));
            }
            i = i + 1;
        }
        assert(notes@.subrange(0, notes@.len() as int) =~= notes@);
        tree
    }

    /// The actions that the event asks for.
    pub fn handle_event(&self, event: &FsEvent, full_rebuild: bool) -> (r: Vec<Action>)
        ensures
            Seq::new(r@.len(), |i: int| action_view(r@[i])) == event_actions(
                event.kind,
                strings_of(event.paths@),
                full_rebuild,
                strings_of(self.excluded_spec()),
                self.input_dir@,
                self.output_dir@,
            ),
    {
        let mut out: Vec<Action> = Vec::new();
        if full_rebuild {
            match event.kind {
                FsEventKind::Modify(_) | FsEventKind::Remove(_) => out.push(Action::FullRebuild),
                FsEventKind::Other => {},
            }
            assert(Seq::new(out@.len(), |i: int| action_view(out@[i])) =~= event_actions(event.kind, strings_of(event.paths@), full_rebuild, strings_of(self.excluded_spec()), self.input_dir@, self.output_dir@));
            return out;
        }
        let ignored_dirs = self.get_excluded();
        assert(strings_of(ignored_dirs@) == strings_of(self.excluded_spec()));
        proof { reveal_strlit("html"); }
        match event.kind {
            FsEventKind::Modify(ModifyKind::Name(RenameMode::Both)) => {
                if event.paths.len() == 2 && is_note(event.paths[0].as_str(), &ignored_dirs) && is_note(event.paths[1].as_str(), &ignored_dirs) {
                    let from = self.input_to_output(event.paths[0].as_str(), Some("html"));
                    let to = self.input_to_output(event.paths[1].as_str(), Some("html"));
                    out.push(Action::Move { from, to });
                }
            },
            FsEventKind::Modify(ModifyKind::Name(RenameMode::Other)) => {},
            FsEventKind::Modify(_) => {
                out = self.note_actions_exec(&event.paths, &ignored_dirs, true);
            },
            FsEventKind::Remove(RemoveKind::File) => {
                out = self.note_actions_exec(&event.paths, &ignored_dirs, false);
            },
            _ => {},
        }
        assert(Seq::new(out@.len(), |i: int| action_view(out@[i])) =~= event_actions(event.kind, strings_of(event.paths@), full_rebuild, strings_of(self.excluded_spec()), self.input_dir@, self.output_dir@));
        out
    }

    /// The excluded directories.
    pub open spec fn excluded_spec(&self) -> Seq<String> {
        (match self.cfg.attachment_dir { Some(d) => seq![d], None => Seq::empty() })
            + (match self.cfg.static_dir { Some(d) => seq![d], None => Seq::empty() })
            + (match self.cfg.template_dir { Some(d) => seq![d], None => Seq::empty() })
            + self.cfg.ignored@
    }

    fn note_actions_exec(&self, paths: &Vec<String>, ignore: &Vec<String>, recompile: bool) -> (r: Vec<Action>)
        ensures
            Seq::new(r@.len(), |i: int| action_view(r@[i])) == note_actions(strings_of(paths@), strings_of(ignore@), if recompile { 1 } else { 3 }, self.input_dir@, self.output_dir@),
    {
        let mut out: Vec<Action> = Vec::new();
        let mut i: usize = 0;
        proof { reveal_strlit("html"); }
        while i < paths.len()
            invariant
                i <= paths.len(),
                "html"@ == seq!['h', 't', 'm', 'l'],
                Seq::new(out@.len(), |j: int| action_view(out@[j])) =~= note_actions(strings_of(paths@).subrange(0, i as int), strings_of(ignore@), if recompile { 1 } else { 3 }, self.input_dir@, self.output_dir@),
            decreases paths.len() - i,
        {
            proof {
                let pre = strings_of(paths@).subrange(0, i + 1);
                assert(pre.drop_last() =~= strings_of(paths@).subrange(0, i as int));
            }
            if is_note(paths[i].as_str(), ignore) {
                if recompile {
                    out.push(Action::Recompile(paths[i].clone()));
                } else {
                    out.push(Action::Delete(self.input_to_output(paths[i].as_str(), Some("html"))));
                }
            }
            i = i + 1;
        }
        assert(strings_of(paths@).subrange(0, paths@.len() as int) =~= strings_of(paths@));
        out
    }
}

impl ExportStats {
    pub open spec fn new_spec() -> ExportStats {
        ExportStats { note_count: 0, skipped_notes: 0, skipped_attachments: 0, attachment_count: 0 }
    }

    /// The counts as a report.
    pub fn summary(&self) -> (r: String)
        ensures
            r@ == "Total nb of notes: "@ + crate::sanitization::decimal(self.note_count as nat) + " ("@
                + crate::sanitization::decimal(self.skipped_notes as nat) + " skipped)\nTotal attachment files: "@
                + crate::sanitization::decimal(self.attachment_count as nat) + " ("@ + crate::sanitization::decimal(
                self.skipped_attachments as nat) + " skipped)\n"@,
    {
        let mut out: Vec<char> = Vec::new();
        push_str(&mut out, "Total nb of notes: ");
        crate::sanitization::push_decimal(&mut out, self.note_count as u64);
        push_str(&mut out, " (");
        crate::sanitization::push_decimal(&mut out, self.skipped_notes as u64);
        push_str(&mut out, " skipped)\nTotal attachment files: ");
        crate::sanitization::push_decimal(&mut out, self.attachment_count as u64);
        push_str(&mut out, " (");
        crate::sanitization::push_decimal(&mut out, self.skipped_attachments as u64);
        push_str(&mut out, " skipped)\n");
        string_of(&out)
    }
}

/// The branch that a tag of a note adds to the tag tree: the chain of its
/// path segments, the last one holding a link to the note.
pub open spec fn tag_branch(tag_path: Seq<char>, n: Note) -> TreeModel {
    let parts = crate::text::split_on(tag_path, '/');
    grafted(parts[0], crate::tag_tree::chain_model(parts, set![note_link_view(n)]))
}

/// `acc` with the branches of the given tags of a note merged in, in order.
pub open spec fn note_tags_model(acc: TreeModel, n: Note, tags: Seq<crate::extract::Tag>) -> TreeModel
    decreases tags.len(),
{
    if tags.len() == 0 {
        acc
    } else {
        merged(note_tags_model(acc, n, tags.drop_last()), tag_branch(tags.last().tag_path@, n))
    }
}

/// The tag tree of the notes: the root, then every tag branch of every note.
pub open spec fn notes_tags_model(notes: Seq<Note>) -> TreeModel
    decreases notes.len(),
{
    if notes.len() == 0 {
        Map::<Seq<Seq<char>>, Set<LinkView>>::empty().insert(Seq::empty(), Set::empty())
    } else {
        note_tags_model(notes_tags_model(notes.drop_last()), notes.last(), notes.last().tags@)
    }
}

} // verus!
