//! Project configuration and its defaults.
use vstd::prelude::*;
use crate::text::owned;

verus! {

/// Configuration of a project (`.wm/config.json`).
#[derive(Clone, Debug)]
pub struct ProjectConfig {
    pub project_name: String,
    pub schema_version: u32,
    pub embedding: EmbeddingConfig,
    pub permissions: PermissionsConfig,
    pub custom_edge_types: Vec<String>,
    pub source_dirs: Vec<String>,
    pub source_extensions: Vec<String>,
    pub search: SearchConfig,
}

/// Embedding model settings.
#[derive(Clone, Debug)]
pub struct EmbeddingConfig {
    pub model_name: String,
    pub dimensions: u32,
    pub batch_size: u32,
}

/// Tool permission preset.
#[derive(Clone, Debug)]
pub struct PermissionsConfig {
    pub preset: String,
}

/// Search defaults.
#[derive(Clone, Debug)]
pub struct SearchConfig {
    pub default_mode: String,
    pub default_limit: u32,
    pub rrf_k: u32,
}

/// The default embedding settings.
pub open spec fn default_embedding(e: EmbeddingConfig) -> bool {
    e.model_name@ == "bge-small-en-v1.5"@ && e.dimensions == 384 && e.batch_size == 32
}

/// The default permission settings.
pub open spec fn default_permissions(p: PermissionsConfig) -> bool {
    p.preset@ == "read-write"@
}

/// The default search settings.
pub open spec fn default_search(s: SearchConfig) -> bool {
    s.default_mode@ == "hybrid"@ && s.default_limit == 20 && s.rrf_k == 60
}

impl Default for EmbeddingConfig {
    fn default() -> (res: Self)
        ensures
            default_embedding(res),
    {
        EmbeddingConfig { model_name: owned("bge-small-en-v1.5"), dimensions: 384, batch_size: 32 }
    }
}

impl Default for PermissionsConfig {
    fn default() -> (res: Self)
        ensures
            default_permissions(res),
    {
        PermissionsConfig { preset: owned("read-write") }
    }
}

impl Default for SearchConfig {
    fn default() -> (res: Self)
        ensures
            default_search(res),
    {
        SearchConfig { default_mode: owned("hybrid"), default_limit: 20, rrf_k: 60 }
    }
}

impl Default for ProjectConfig {
    fn default() -> (res: Self)
        ensures
            res.project_name@ == Seq::<char>::empty(),
            res.schema_version == 1,
            default_embedding(res.embedding),
            default_permissions(res.permissions),
            res.custom_edge_types@.len() == 0,
            res.source_dirs@.len() == 2,
            res.source_dirs@[0]@ == "docs/"@,
            res.source_dirs@[1]@ == "specs/"@,
            res.source_extensions@.len() == 3,
            res.source_extensions@[0]@ == "md"@,
            res.source_extensions@[1]@ == "yaml"@,
            res.source_extensions@[2]@ == "txt"@,
            default_search(res.search),
    {
        let mut source_dirs: Vec<String> = Vec::new();
        source_dirs.push(owned("docs/"));
        source_dirs.push(owned("specs/"));
        let mut source_extensions: Vec<String> = Vec::new();
        source_extensions.push(owned("md"));
        source_extensions.push(owned("yaml"));
        source_extensions.push(owned("txt"));
        ProjectConfig {
            project_name: String::new(),
            schema_version: 1,
            embedding: EmbeddingConfig::default(),
            permissions: PermissionsConfig::default(),
            custom_edge_types: Vec::new(),
            source_dirs,
            source_extensions,
            search: SearchConfig::default(),
        }
    }
}

} // verus!
