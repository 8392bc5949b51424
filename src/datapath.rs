use vstd::prelude::*;

verus! {

/// A typed path with a fixed pattern of constant segments and `key=value` partitions.
pub trait Datapath where Self: Send + Sync + 'static, Self: Clone + Sized, Self: Eq + PartialEq + core::hash::Hash, Self: core::fmt::Debug {
    /// The pattern the type was defined from.
    const PATTERN: &'static str;

    /// The partition values, in the order they appear in the pattern.
    type Tuple;

    /// [`Datapath::Tuple`], each value wrapped in a [`crate::Wildcardable`].
    type WildcardableTuple;

    fn from_tuple(tuple: Self::Tuple) -> Self;

    fn to_tuple(self) -> Self::Tuple;

    /// The path text with wildcarded partitions written `*`.
    fn from_wildcardable(tuple: Self::WildcardableTuple) -> String;

    /// This path with the given file under it.
    fn with_file(&self, file: String) -> DatapathFile<Self>;

    /// Parses a path with a file under it, possibly empty; `None` when the text does not
    /// fit the pattern.
    fn parse(path: &str) -> Option<DatapathFile<Self>>;

    /// The value of the named field as text, if the path has such a field.
    fn field(&self, name: &str) -> Option<String>;
}

/// A datapath with an associated schema. A datapath has at most one schema; a schema may
/// serve many datapaths.
pub trait SchemaDatapath where Self: Datapath {
    type Schema;
}

/// A file under a datapath.
#[derive(Debug, Clone, PartialEq, Eq, Hash)]
pub struct DatapathFile<D: Datapath> {
    pub path: D,
    pub file: String,
}

impl<D: Datapath> DatapathFile<D> {
    /// Parses a path with a file under it through [`Datapath::parse`].
    pub fn from_text(s: &str) -> (r: Result<Self, ()>) {
        match D::parse(s) {
            Some(f) => Ok(f),
            None => Err(()),
        }
    }
}

} // verus!
