//! An earlier, name-keyed registry format: a setting names its file, a
//! value type, a placement, and a match pattern.

use vstd::prelude::*;

verus! {

/// How a value handed to this kind of setting is interpreted.
#[derive(Debug, PartialEq, Eq, Structural, Clone, Copy)]
pub enum ValueType {
    Bool,
    File,
    Text,
}

/// Whether the pattern names a single line or a region.
#[derive(Debug, PartialEq, Eq, Structural, Clone, Copy)]
pub enum MatchType {
    Line,
    Region,
}

/// Which line, relative to the match, receives the replacement.
#[derive(Debug, PartialEq, Eq, Structural, Clone, Copy)]
pub enum ReplaceLine {
    Above,
    Below,
    Matched,
}

/// One setting of the name-keyed registry format.
#[derive(Debug, Clone)]
pub struct Setting {
    pub file: String,
    pub value_type: ValueType,
    pub replace_with: String,
    pub replace_line: ReplaceLine,
    pub match_pattern: String,
    pub match_type: MatchType,
}

impl PartialEq for Setting {
    fn eq(&self, other: &Setting) -> (r: bool) {
        self.file == other.file && self.value_type == other.value_type && self.replace_with
            == other.replace_with && self.replace_line == other.replace_line && self.match_pattern
            == other.match_pattern && self.match_type == other.match_type
    }
}

impl vstd::std_specs::cmp::PartialEqSpecImpl for Setting {
    open spec fn obeys_eq_spec() -> bool {
        true
    }

    open spec fn eq_spec(&self, other: &Setting) -> bool {
        &&& self.file@ == other.file@
        &&& self.value_type == other.value_type
        &&& self.replace_with@ == other.replace_with@
        &&& self.replace_line == other.replace_line
        &&& self.match_pattern@ == other.match_pattern@
        &&& self.match_type == other.match_type
    }
}

} // verus!
