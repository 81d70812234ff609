//! The per-render formatting context.

use vstd::prelude::*;
use vstd::string::StringExecFns;

verus! {

/// Transient configuration for one render call: indentation unit width, the
/// current nesting depth (raised while children are rendered and restored on
/// unwind), an advisory maximum line width that the core algorithm does not
/// consult, the attribute layout mode, and the line separator.
#[derive(Debug, Clone)]
#[verifier::ext_equal]
pub struct TagFormatter {
    pub tab_size: usize,
    pub indent: usize,
    pub max_width: usize,
    pub newline_on_prop: bool,
    pub line_sep: String,
}

impl Default for TagFormatter {
    /// Four-space indentation at depth zero, an advisory width of 120,
    /// compact attribute layout, and newline separators.
    fn default() -> (r: Self)
        ensures
            r.tab_size == 4,
            r.indent == 0,
            r.max_width == 120,
            r.newline_on_prop == false,
            r.line_sep@ == "\n"@,
    {
        TagFormatter {
            tab_size: 4,
            indent: 0,
            max_width: 120,
            newline_on_prop: false,
            line_sep: String::from_str("\n"),
        }
    }
}

impl TagFormatter {
    /// The number of padding spaces at the current nesting depth.
    pub fn pad_size(&self) -> (r: usize)
        requires
            self.indent * self.tab_size <= usize::MAX,
        ensures
            r == self.indent * self.tab_size,
    {
        self.indent * self.tab_size
    }
}

} // verus!
