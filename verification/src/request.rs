//! What one invocation asks for: the pattern, the target, the flags and the
//! color mode.

use vstd::prelude::*;
use crate::encoding::lemma_encode_injective;
use crate::substring::matches_at;

verus! {

/// When matched spans are written in color.
#[derive(Clone, Copy, Debug, PartialEq, Eq, Structural)]
pub enum ColorMode {
    /// In color where the output goes to an interactive terminal.
    Auto,
    /// Always in color.
    Always,
    /// Never in color.
    Never,
}

/// The color mode that a mode word stands for: `always` and `never` for
/// themselves, every other word for `auto`.
pub open spec fn color_mode_of(mode: Seq<char>) -> ColorMode {
    if mode == "always"@ {
        ColorMode::Always
    } else if mode == "never"@ {
        ColorMode::Never
    } else {
        ColorMode::Auto
    }
}

/// Tells whether two texts are the same.
pub fn same_text(one: &str, other: &str) -> (same: bool)
    ensures
        same == (one@ == other@),
{
    let left = one.as_bytes();
    let right = other.as_bytes();
    if left.len() != right.len() {
        return false;
    }
    let same = matches_at(left, right, 0);
    proof {
        assert(left@.subrange(0, left@.len() as int) =~= left@);
        if same {
            lemma_encode_injective(one@, other@);
        }
    }
    same
}

/// Reads the word given for the color option. A word that is none of
/// `auto`, `always` and `never` means `auto`.
pub fn color_choice(mode: &str) -> (choice: ColorMode)
    ensures
        choice == color_mode_of(mode@),
{
    if same_text(mode, "always") {
        ColorMode::Always
    } else if same_text(mode, "never") {
        ColorMode::Never
    } else {
        ColorMode::Auto
    }
}

/// The configuration of one invocation. It is made once and only read
/// afterwards.
pub struct SearchRequest {
    /// The literal text that is looked for.
    pub pattern: String,
    /// The file or directory to search.
    pub path: String,
    /// Compare without regard to case.
    pub ignore_case: bool,
    /// Show the number of each matching line.
    pub line_numbers: bool,
    /// Descend into directories.
    pub recursive: bool,
    /// Show the number of matching lines of each file, not the lines.
    pub count_only: bool,
    /// Show the names of the files with a match, not the lines.
    pub files_with_matches: bool,
    /// When to write in color.
    pub color: ColorMode,
}

} // verus!
