//! The atomic replacement of a post's content, over a model of the directory
//! as a map from file names to contents. An update writes a temporary
//! sibling first and only then renames it onto the target, so a reader sees
//! the old content in full or the new content in full, never a mixture.

use vstd::prelude::*;

verus! {

/// A directory as the store sees it: file names to file contents.
pub open spec fn dir_has(dir: Map<Seq<char>, Seq<char>>, name: Seq<char>) -> bool {
    dir.contains_key(name)
}

/// The directory after the temporary sibling is written and synced, before
/// the rename: an interruption leaves the update here.
pub open spec fn after_interrupted_update(
    dir: Map<Seq<char>, Seq<char>>,
    temp: Seq<char>,
    content: Seq<char>,
) -> Map<Seq<char>, Seq<char>> {
    dir.insert(temp, content)
}

/// The directory after the rename: the temporary is gone and the target
/// holds the new content.
pub open spec fn after_completed_update(
    dir: Map<Seq<char>, Seq<char>>,
    temp: Seq<char>,
    target: Seq<char>,
    content: Seq<char>,
) -> Map<Seq<char>, Seq<char>> {
    dir.insert(temp, content).remove(temp).insert(target, content)
}

/// A read immediately after a completed update returns exactly the new
/// content, and no temporary is left behind.
pub proof fn lemma_completed_update_reads_new(
    dir: Map<Seq<char>, Seq<char>>,
    temp: Seq<char>,
    target: Seq<char>,
    content: Seq<char>,
)
    requires
        temp != target,
    ensures
        after_completed_update(dir, temp, target, content).contains_key(target),
        after_completed_update(dir, temp, target, content)[target] == content,
        !after_completed_update(dir, temp, target, content).contains_key(temp),
{
}

/// A failure before the rename leaves the target untouched: it exists
/// exactly as before, with the same content.
pub proof fn lemma_interrupted_update_keeps_old(
    dir: Map<Seq<char>, Seq<char>>,
    temp: Seq<char>,
    target: Seq<char>,
    content: Seq<char>,
)
    requires
        temp != target,
    ensures
        after_interrupted_update(dir, temp, content).contains_key(target) == dir.contains_key(
            target,
        ),
        dir.contains_key(target) ==> after_interrupted_update(dir, temp, content)[target]
            == dir[target],
{
}

} // verus!
