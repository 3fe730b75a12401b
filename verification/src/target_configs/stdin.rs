//! Parameters of the target that reads its mirror list from standard input.

use vstd::prelude::*;

verus! {

/// Parameters of the target that reads its mirror list from standard input.
#[derive(Clone, Debug, PartialEq, Eq)]
pub struct StdinTarget {
    /// Path to be joined to a mirror url and used for speed testing.
    pub path_to_test: String,
    /// Path to be joined to a mirror url before returning results.
    pub path_to_return: String,
    /// Comment prefix to use when printing debug info.
    pub comment_prefix: String,
    /// Output prefix to use when printing results.
    pub output_prefix: String,
    /// Input separator to use when parsing the mirrors list.
    pub input_separator: String,
}

impl Default for StdinTarget {
    /// Empty paths and output prefix, `# ` as the comment prefix and a tab
    /// as the input separator.
    fn default() -> (target: StdinTarget)
        ensures
            target.path_to_test@ == ""@,
            target.path_to_return@ == ""@,
            target.comment_prefix@ == "# "@,
            target.output_prefix@ == ""@,
            target.input_separator@ == "\t"@,
    {
        StdinTarget {
            path_to_test: "".to_owned(),
            path_to_return: "".to_owned(),
            comment_prefix: "# ".to_owned(),
            output_prefix: "".to_owned(),
            input_separator: "\t".to_owned(),
        }
    }
}

} // verus!
