//! Indexing of slash-delimited paths and glob queries over them.
mod text;
mod segment;
mod rule;
mod key;
mod index;
mod wildcardable;
mod datapath;
mod laws;

pub use segment::{PathSegment, SegmentView, skeleton_of};
pub use rule::{Rule, RegexSegment, SegSpec, has_edge_slash, compiles};
pub use key::query_to_key;
pub use index::{DatapathIndex, IndexBuilder};
pub use wildcardable::Wildcardable;
pub use datapath::{Datapath, DatapathFile, SchemaDatapath};
pub use laws::{law_index_lists, law_query_deterministic, law_query_results_match, law_query_finds_match};
