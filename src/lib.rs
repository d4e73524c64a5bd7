//! Build-time asset compilation: classification of resource files, stable
//! identifiers derived from their paths, the decisions of the compression
//! cache, and the generation of source bindings that serve each resource.

mod text;
pub mod classify;
pub mod slug;
pub mod resource;
pub mod cache;
pub mod codegen;

pub use classify::{ContentType, FileType};
pub use slug::{normalize_lowered, slugify};
pub use resource::{ResourceFile, find_slug_collision, path_without_extension, to_ascii_uppercase};
pub use cache::{
    artifact_name, artifact_path, cache_action, compress_contents, plan_cache, total_sizes,
    CacheAction, ModTime,
};
pub use codegen::{
    find_handler_collision, generate_code, generate_module, generate_rocket_code, route_plan, string_literal, Route,
};
