//! Command-line decisions: daemon mode and the layout override.

use vstd::prelude::*;

use crate::via::Layout;

verus! {

/// The views of the arguments.
pub open spec fn arg_views(args: Seq<String>) -> Seq<Seq<char>> {
    args.map_values(|s: String| s@)
}

/// Whether an argument asks for daemon mode.
pub open spec fn is_daemon_flag(a: Seq<char>) -> bool {
    a == "--daemon"@ || a == "-d"@
}

/// The layout that a `--layout` flag at or after position `i` selects: the
/// first flag followed by `mac` or `windows` wins; a flag followed by another
/// word takes that word with it, and a flag at the end selects nothing.
pub open spec fn layout_override_from(args: Seq<Seq<char>>, i: int) -> Option<Layout>
    decreases args.len() - i,
{
    if i < 0 || i >= args.len() {
        None
    } else if args[i] == "--layout"@ {
        if i + 1 >= args.len() {
            None
        } else if args[i + 1] == "mac"@ {
            Some(Layout::Mac)
        } else if args[i + 1] == "windows"@ {
            Some(Layout::Windows)
        } else {
            layout_override_from(args, i + 2)
        }
    } else {
        layout_override_from(args, i + 1)
    }
}

/// Whether `arg` is exactly `word`.
fn is_word(arg: &String, word: &str) -> (r: bool)
    ensures
        r == (arg@ == word@),
{
    *arg == word.to_owned()
}

/// Returns true if the given args request daemon mode (--daemon or -d).
pub fn want_daemon(args: &[String]) -> (r: bool)
    ensures
        r == exists|i: int| 0 <= i < args@.len() && is_daemon_flag(#[trigger] args@[i]@),
{
    let mut i: usize = 0;
    while i < args.len()
        invariant
            i <= args@.len(),
            forall|j: int| 0 <= j < i ==> !is_daemon_flag(#[trigger] args@[j]@),
        decreases args.len() - i,
    {
        if is_word(&args[i], "--daemon") || is_word(&args[i], "-d") {
            return true;
        }
        i = i + 1;
    }
    false
}

/// Parses an optional `--layout mac|windows` override from args.
/// When present, this overrides the platform default.
pub fn parse_layout_override(args: &[String]) -> (r: Option<Layout>)
    ensures
        r == layout_override_from(arg_views(args@), 0),
{
    let ghost v = arg_views(args@);
    let mut i: usize = 0;
    while i < args.len()
        invariant
            i <= args@.len() + 1,
            v == arg_views(args@),
            layout_override_from(v, i as int) == layout_override_from(v, 0),
        decreases args.len() - i,
    {
        assert(v[i as int] == args@[i as int]@);
        if is_word(&args[i], "--layout") {
            if i + 1 >= args.len() {
                return None;
            }
            assert(v[i + 1] == args@[i + 1]@);
            if is_word(&args[i + 1], "mac") {
                return Some(Layout::Mac);
            } else if is_word(&args[i + 1], "windows") {
                return Some(Layout::Windows);
            }
            i = i + 2;
        } else {
            i = i + 1;
        }
    }
    None
}

} // verus!
