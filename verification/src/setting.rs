//! The structure of a setting: where to look, what to match, and how to
//! place a rendered value.

use vstd::prelude::*;

verus! {

/// The matching strategy: a single-line pattern, or a start/end pair of
/// patterns bounding a region.
#[derive(Debug, Clone)]
pub enum Pattern {
    Region([String; 2]),
    Line(String),
}

/// Which physical line receives the rendered value relative to a line match.
#[derive(Debug, Clone, Copy, PartialEq, Eq, Structural)]
pub enum Replace {
    LineAbove,
    LineBelow,
    MatchedText,
}

/// A named rule describing where and how to find or replace a value in a
/// file. `replace` defaults to `MatchedText`, `read_value_path` and
/// `multiple` default to `false`.
#[derive(Debug, Clone)]
pub struct Setting {
    pub name: String,
    pub file: String,
    pub pattern: Pattern,
    pub substitute: String,
    pub replace: Option<Replace>,
    pub read_value_path: Option<bool>,
    pub multiple: Option<bool>,
    pub before: Option<String>,
    pub after: Option<String>,
}

impl Setting {
    /// The placement rule, with its default applied.
    pub open spec fn replace_rule_spec(&self) -> Replace {
        match self.replace {
            None => Replace::MatchedText,
            Some(r) => r,
        }
    }

    /// Whether every match is processed, with the default applied.
    pub open spec fn multiple_spec(&self) -> bool {
        match self.multiple {
            None => false,
            Some(b) => b,
        }
    }

    /// Whether the value argument names a file whose contents are spliced.
    pub open spec fn read_value_path_spec(&self) -> bool {
        match self.read_value_path {
            None => false,
            Some(b) => b,
        }
    }

    /// The placement rule, with its default applied.
    pub fn replace_rule(&self) -> (r: Replace)
        ensures
            r == self.replace_rule_spec(),
    {
        match self.replace {
            None => Replace::MatchedText,
            Some(r) => r,
        }
    }

    /// Whether every match is processed, with the default applied.
    pub fn is_multiple(&self) -> (r: bool)
        ensures
            r == self.multiple_spec(),
    {
        match self.multiple {
            None => false,
            Some(b) => b,
        }
    }

    /// Whether the value argument names a file whose contents are spliced.
    pub fn reads_value_path(&self) -> (r: bool)
        ensures
            r == self.read_value_path_spec(),
    {
        match self.read_value_path {
            None => false,
            Some(b) => b,
        }
    }
}

} // verus!
