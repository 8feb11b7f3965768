//! Summing what a recursive walk of a directory found.

use vstd::prelude::*;

verus! {

/// What a stat says an entry is.
#[derive(Clone, Copy, Debug, PartialEq, Eq, Structural)]
pub enum FileKind {
    /// A regular file.
    File,
    /// A directory.
    Directory,
    /// Anything else: a symbolic link, a device, a socket.
    Other,
}

/// What a stat returned for one entry.
#[derive(Clone, Copy, Debug, PartialEq, Eq, Structural)]
pub struct Metadata {
    pub kind: FileKind,
    pub len: u64,
}

/// The bytes that one visited entry adds to a directory's size. An entry that
/// could not be read (`None`) and one that is no regular file add nothing.
pub open spec fn file_len(visited: Option<Metadata>) -> nat {
    match visited {
        Some(m) => if m.kind == FileKind::File {
            m.len as nat
        } else {
            0
        },
        None => 0,
    }
}

/// The sum of the lengths of the regular files among the visited entries.
pub open spec fn file_bytes(walk: Seq<Option<Metadata>>) -> nat
    decreases walk.len(),
{
    if walk.len() == 0 {
        0
    } else {
        file_bytes(walk.drop_last()) + file_len(walk.last())
    }
}

/// A part of a walk never sums to more than the whole.
pub proof fn lemma_file_bytes_prefix(walk: Seq<Option<Metadata>>, n: int)
    requires
        0 <= n <= walk.len(),
    ensures
        file_bytes(walk.take(n)) <= file_bytes(walk),
    decreases walk.len(),
{
    if n == walk.len() {
        assert(walk.take(n) =~= walk);
    } else {
        lemma_file_bytes_prefix(walk.drop_last(), n);
        assert(walk.drop_last().take(n) =~= walk.take(n));
    }
}

/// The size of a directory whose recursive walk yielded `walk`, one element
/// for each descendant: the sum of the lengths of the regular files, or
/// `None` where that sum does not fit in 64 bits.
pub fn checked_size_of_directory(walk: &Vec<Option<Metadata>>) -> (size: Option<u64>)
    ensures
        file_bytes(walk@) <= u64::MAX ==> size == Some(file_bytes(walk@) as u64),
        file_bytes(walk@) > u64::MAX ==> size.is_none(),
{
    let mut sum: u64 = 0;
    let mut i: usize = 0;
    while i < walk.len()
        invariant
            i <= walk.len(),
            sum == file_bytes(walk@.take(i as int)),
        decreases walk.len() - i,
    {
        let ghost before = walk@.take(i as int);
        let ghost after = walk@.take(i + 1);
        proof {
            assert(after.drop_last() =~= before);
            lemma_file_bytes_prefix(walk@, i + 1);
        }
        match walk[i] {
            Some(m) => {
                if m.kind == FileKind::File {
                    if m.len > u64::MAX - sum {
                        return None;
                    }
                    sum = sum + m.len;
                }
            },
            None => {},
        }
        i = i + 1;
    }
    proof {
        assert(walk@.take(i as int) =~= walk@);
    }
    Some(sum)
}

/// The size of a directory whose recursive walk yielded `walk`: the sum of the
/// lengths of the regular files among its descendants. Directories, links and
/// entries that could not be read count for nothing.
pub fn get_size_of_directory(walk: &Vec<Option<Metadata>>) -> (size: u64)
    requires
        file_bytes(walk@) <= u64::MAX,
    ensures
        size == file_bytes(walk@),
{
    let mut sum: u64 = 0;
    let mut i: usize = 0;
    while i < walk.len()
        invariant
            i <= walk.len(),
            sum == file_bytes(walk@.take(i as int)),
            file_bytes(walk@) <= u64::MAX,
        decreases walk.len() - i,
    {
        proof {
            assert(walk@.take(i + 1).drop_last() =~= walk@.take(i as int));
            lemma_file_bytes_prefix(walk@, i + 1);
        }
        match walk[i] {
            Some(m) => {
                if m.kind == FileKind::File {
                    sum = sum + m.len;
                }
            },
            None => {},
        }
        i = i + 1;
    }
    proof {
        assert(walk@.take(i as int) =~= walk@);
    }
    sum
}

} // verus!
