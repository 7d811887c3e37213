//! Build configuration. Directories are given relative to the vault root.
use vstd::prelude::*;

verus! {

#[derive(Debug, PartialEq, Eq, Structural, Clone, Copy)]
pub enum MathEngine {
    Katex,
    Mathjax,
}

#[derive(Debug, PartialEq, Eq)]
pub struct SearchConfig {
    pub max_len: usize,
    pub enable: bool,
}

#[derive(Debug, PartialEq, Eq)]
pub struct MathConfig {
    pub enable: bool,
    pub engine: MathEngine,
    pub preamble_path: Option<String>,
}

#[derive(Debug, PartialEq, Eq, Structural, Clone, Copy)]
pub struct PerformanceConfig {
    pub skip_unchanged_notes: bool,
    pub skip_cached_attachments: bool,
    pub search_for_links: bool,
    pub build_search_index: bool,
}

#[derive(Debug, PartialEq, Eq, Structural, Clone, Copy)]
pub struct CreationDateConfig {
    pub use_git: bool,
}

#[derive(Debug, PartialEq, Eq)]
pub struct ExportConfig {
    pub attachment_dir: Option<String>,
    pub template_dir: Option<String>,
    pub ignored: Vec<String>,
    pub static_dir: Option<String>,
    pub generate_nav: bool,
    pub generate_tag_index: bool,
    pub generate_archive: bool,
    pub creation_date: CreationDateConfig,
    pub performance: PerformanceConfig,
    pub search: SearchConfig,
    pub math: MathConfig,
    pub root_path: Option<String>,
    pub title: String,
}

impl Default for MathConfig {
    fn default() -> (r: MathConfig)
        ensures
            r.enable && r.engine == MathEngine::Mathjax && r.preamble_path is None,
    {
        MathConfig { enable: true, engine: MathEngine::Mathjax, preamble_path: None }
    }
}

impl Default for CreationDateConfig {
    fn default() -> (r: CreationDateConfig)
        ensures
            !r.use_git,
    {
        CreationDateConfig { use_git: false }
    }
}

impl Default for SearchConfig {
    fn default() -> (r: SearchConfig)
        ensures
            r.max_len == 200 && r.enable,
    {
        SearchConfig { max_len: 200, enable: true }
    }
}

impl Default for PerformanceConfig {
    fn default() -> (r: PerformanceConfig)
        ensures
            r.skip_unchanged_notes && r.skip_cached_attachments && r.search_for_links && r.build_search_index,
    {
        PerformanceConfig {
            skip_unchanged_notes: true,
            skip_cached_attachments: true,
            search_for_links: true,
            build_search_index: true,
        }
    }
}

impl Default for ExportConfig {
    fn default() -> (r: ExportConfig)
        ensures
            r.attachment_dir is None,
            r.template_dir is None,
            r.static_dir is None,
            r.ignored@.len() == 0,
            r.generate_nav && r.generate_tag_index && r.generate_archive,
            !r.creation_date.use_git,
            r.performance.skip_unchanged_notes && r.performance.skip_cached_attachments
                && r.performance.search_for_links && r.performance.build_search_index,
            r.search.max_len == 200 && r.search.enable,
            r.math.enable && r.math.engine == MathEngine::Mathjax && r.math.preamble_path is None,
            r.root_path matches Some(p) && p@ == "/"@,
            r.title@ == "NOTES"@,
    {
        ExportConfig {
            attachment_dir: None,
            template_dir: None,
            static_dir: None,
            generate_nav: true,
            generate_tag_index: true,
            generate_archive: true,
            ignored: Vec::new(),
            creation_date: CreationDateConfig::default(),
            performance: PerformanceConfig::default(),
            search: SearchConfig::default(),
            math: MathConfig::default(),
            root_path: Some("/".to_owned()),
            title: "NOTES".to_owned(),
        }
    }
}

} // verus!
