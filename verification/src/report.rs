//! Building the report of a directory from what was read of its children.

use vstd::prelude::*;
use vstd::seq_lib::*;
use vstd::string::*;
use crate::entry::{rows, total_name, Marker, PathData, Row};
use crate::walk::{
    checked_size_of_directory, file_bytes, get_size_of_directory, FileKind, Metadata,
};

verus! {

/// What was read of one immediate child of the target directory.
#[derive(Debug)]
pub struct Child {
    /// The child's name in the directory.
    pub name: String,
    /// What its stat returned, or `None` if it failed.
    pub metadata: Option<Metadata>,
    /// For a directory: what the recursive walk below it yielded, one element
    /// for each descendant, `None` for one that could not be read. It is not
    /// looked at for any other child.
    pub walk: Vec<Option<Metadata>>,
}

/// Whether a child gets a row: its stat succeeded and it is a directory or a
/// regular file.
pub open spec fn is_listed(child: Child) -> bool {
    match child.metadata {
        Some(m) => m.kind != FileKind::Other,
        None => false,
    }
}

/// The size of a child: for a directory the regular files below it, for a
/// regular file its length, and nothing for a child that is not listed.
pub open spec fn child_size(child: Child) -> nat {
    match child.metadata {
        Some(m) => match m.kind {
            FileKind::Directory => file_bytes(child.walk@),
            FileKind::File => m.len as nat,
            FileKind::Other => 0,
        },
        None => 0,
    }
}

/// The marker of a listed child.
pub open spec fn child_marker(child: Child) -> Marker {
    match child.metadata {
        Some(m) => if m.kind == FileKind::Directory {
            Marker::Directory
        } else {
            Marker::File
        },
        None => Marker::File,
    }
}

/// The row of a listed child.
pub open spec fn child_row(child: Child) -> Row {
    Row { size: child_size(child), name: child.name@, marker: child_marker(child) }
}

/// The rows of the listed children, in the order in which they were read.
pub open spec fn listing(children: Seq<Child>) -> Seq<Row>
    decreases children.len(),
{
    if children.len() == 0 {
        Seq::empty()
    } else if is_listed(children.last()) {
        listing(children.drop_last()).push(child_row(children.last()))
    } else {
        listing(children.drop_last())
    }
}

/// The sum of the sizes of the children.
pub open spec fn listing_total(children: Seq<Child>) -> nat
    decreases children.len(),
{
    if children.len() == 0 {
        0
    } else {
        listing_total(children.drop_last()) + child_size(children.last())
    }
}

/// The summary row for the given total.
pub open spec fn total_row(total: nat) -> Row {
    Row { size: total, name: total_name(), marker: Marker::Total }
}

/// The rows of a directory before they are sorted: the listed children in the
/// order in which they were read, then the summary.
pub open spec fn directory_data(children: Seq<Child>) -> Seq<Row> {
    listing(children).push(total_row(listing_total(children)))
}

/// Whether the rows stand in ascending order of size.
pub open spec fn sorted_by_size(data: Seq<Row>) -> bool {
    forall|i: int, j: int| 0 <= i < j < data.len() ==> data[i].size <= data[j].size
}

/// Whether `order` names each index below its length once.
pub open spec fn is_permutation(order: Seq<int>) -> bool {
    &&& forall|i: int| 0 <= i < order.len() ==> 0 <= #[trigger] order[i] < order.len()
    &&& forall|i: int, j: int| 0 <= i < j < order.len() ==> order[i] != order[j]
}

/// Whether `order` tells where each row of `sorted` stood in `data`, rows of
/// one size keeping the order that they had there.
pub open spec fn keeps_order(sorted: Seq<Row>, data: Seq<Row>, order: Seq<int>) -> bool {
    &&& order.len() == sorted.len() == data.len()
    &&& is_permutation(order)
    &&& forall|i: int| 0 <= i < sorted.len() ==> #[trigger] sorted[i] == data[order[i]]
    &&& forall|i: int, j: int|
        0 <= i < j < sorted.len() && sorted[i].size == sorted[j].size ==> order[i] < order[j]
}

/// Whether `sorted` is `data` after a stable sort by size: the same rows, in
/// ascending order of size, rows of one size in the order they had in `data`.
pub open spec fn stable_sorted(sorted: Seq<Row>, data: Seq<Row>) -> bool {
    &&& sorted.to_multiset() == data.to_multiset()
    &&& sorted_by_size(sorted)
    &&& exists|order: Seq<int>| keeps_order(sorted, data, order)
}

/// The bytes that a row adds to the sum of the entries: its size, and nothing
/// for the summary.
pub open spec fn add_entry_size() -> spec_fn(nat, Row) -> nat {
    |sum: nat, row: Row|
        if row.marker == Marker::Total {
            sum
        } else {
            sum + row.size
        }
}

/// Counts a row if it is the summary.
pub open spec fn add_total_row() -> spec_fn(nat, Row) -> nat {
    |count: nat, row: Row|
        if row.marker == Marker::Total {
            count + 1
        } else {
            count
        }
}

/// The sum of the sizes of all rows but the summary.
pub open spec fn entries_size(data: Seq<Row>) -> nat {
    data.fold_left(0nat, add_entry_size())
}

/// How many summary rows there are.
pub open spec fn total_rows(data: Seq<Row>) -> nat {
    data.fold_left(0nat, add_total_row())
}

/// Whether the rows hold exactly one summary, whose size is the sum of the
/// sizes of all the other rows.
pub open spec fn has_one_total(data: Seq<Row>) -> bool {
    &&& total_rows(data) == 1
    &&& forall|i: int|
        0 <= i < data.len() && (#[trigger] data[i]).marker == Marker::Total ==> data[i].size
            == entries_size(data)
}

/// The children read so far never sum to more than all of them.
pub proof fn lemma_listing_total_prefix(children: Seq<Child>, n: int)
    requires
        0 <= n <= children.len(),
    ensures
        listing_total(children.take(n)) <= listing_total(children),
    decreases children.len(),
{
    if n == children.len() {
        assert(children.take(n) =~= children);
    } else {
        lemma_listing_total_prefix(children.drop_last(), n);
        assert(children.drop_last().take(n) =~= children.take(n));
    }
}

/// The listed children hold no summary row, and their sizes sum to the total
/// of the children.
pub proof fn lemma_listing_sums(children: Seq<Child>)
    ensures
        entries_size(listing(children)) == listing_total(children),
        total_rows(listing(children)) == 0,
    decreases children.len(),
{
    if children.len() > 0 {
        lemma_listing_sums(children.drop_last());
        if is_listed(children.last()) {
            let rest = listing(children.drop_last());
            let row = child_row(children.last());
            assert(rest.push(row).drop_last() =~= rest);
        }
    }
}

/// Before sorting, the rows of a directory hold exactly one summary, and its
/// size is the sum of the sizes of the other rows.
pub proof fn lemma_directory_data_total(children: Seq<Child>)
    ensures
        has_one_total(directory_data(children)),
{
    lemma_listing_sums(children);
    let rest = listing(children);
    let data = directory_data(children);
    assert(data.drop_last() =~= rest);
    assert forall|i: int| 0 <= i < data.len() && (#[trigger] data[i]).marker
        == Marker::Total implies data[i].size == entries_size(data) by {
        if i < rest.len() {
            lemma_listing_markers(children, i);
        }
    }
}

/// No row of a listed child is marked as the summary.
pub proof fn lemma_listing_markers(children: Seq<Child>, i: int)
    requires
        0 <= i < listing(children).len(),
    ensures
        listing(children)[i].marker != Marker::Total,
    decreases children.len(),
{
    if children.len() > 0 {
        let rest = listing(children.drop_last());
        if i < rest.len() {
            lemma_listing_markers(children.drop_last(), i);
        }
    }
}

/// A stable sort keeps the one summary and the sum that it states.
pub proof fn lemma_sort_keeps_total(sorted: Seq<Row>, data: Seq<Row>)
    requires
        stable_sorted(sorted, data),
        has_one_total(data),
    ensures
        has_one_total(sorted),
{
    lemma_fold_left_permutation(sorted, data, add_entry_size(), 0nat);
    lemma_fold_left_permutation(sorted, data, add_total_row(), 0nat);
    let order = choose|order: Seq<int>| keeps_order(sorted, data, order);
    assert forall|i: int| 0 <= i < sorted.len() && (#[trigger] sorted[i]).marker
        == Marker::Total implies sorted[i].size == entries_size(sorted) by {
        assert(sorted[i] == data[order[i]]);
    }
}

/// No row but the summary is larger than the sum of the entries.
pub proof fn lemma_entry_within_sum(data: Seq<Row>, j: int)
    requires
        0 <= j < data.len(),
        data[j].marker != Marker::Total,
    ensures
        data[j].size <= entries_size(data),
    decreases data.len(),
{
    if j < data.len() - 1 {
        lemma_entry_within_sum(data.drop_last(), j);
    }
}

/// Where the rows hold one summary that states the sum of the others, no row
/// is larger than the summary: in sorted rows the summary never stands before
/// a row of strictly greater size.
pub proof fn lemma_total_is_largest(data: Seq<Row>, t: int, j: int)
    requires
        has_one_total(data),
        0 <= t < data.len(),
        0 <= j < data.len(),
        data[t].marker == Marker::Total,
    ensures
        data[j].size <= data[t].size,
{
    if data[j].marker != Marker::Total {
        lemma_entry_within_sum(data, j);
    }
}

/// The sum of the sizes of the children, or `None` where it does not fit in
/// 64 bits.
pub fn checked_total(children: &Vec<Child>) -> (total: Option<u64>)
    ensures
        listing_total(children@) <= u64::MAX ==> total == Some(listing_total(children@) as u64),
        listing_total(children@) > u64::MAX ==> total.is_none(),
{
    let mut sum: u64 = 0;
    let mut i: usize = 0;
    while i < children.len()
        invariant
            i <= children.len(),
            sum == listing_total(children@.take(i as int)),
        decreases children.len() - i,
    {
        proof {
            assert(children@.take(i + 1).drop_last() =~= children@.take(i as int));
            lemma_listing_total_prefix(children@, i + 1);
        }
        let child = &children[i];
        let size: u64 = match child.metadata {
            Some(m) => match m.kind {
                FileKind::Directory => match checked_size_of_directory(&child.walk) {
                    Some(below) => below,
                    None => {
                        return None;
                    },
                },
                FileKind::File => m.len,
                FileKind::Other => 0,
            },
            None => 0,
        };
        if size > u64::MAX - sum {
            return None;
        }
        sum = sum + size;
        i = i + 1;
    }
    proof {
        assert(children@.take(i as int) =~= children@);
    }
    Some(sum)
}

/// The rows of a directory as they are met: one row for each child that is a
/// directory or a regular file, in the order in which they were read, then
/// the summary with the sum of their sizes.
fn rows_as_read(children: &Vec<Child>) -> (data: Vec<PathData>)
    requires
        listing_total(children@) <= u64::MAX,
    ensures
        rows(data@) == directory_data(children@),
        has_one_total(rows(data@)),
{
    let mut data: Vec<PathData> = Vec::new();
    let mut total_size: u64 = 0;
    let mut i: usize = 0;
    while i < children.len()
        invariant
            i <= children.len(),
            listing_total(children@) <= u64::MAX,
            total_size == listing_total(children@.take(i as int)),
            rows(data@) =~= listing(children@.take(i as int)),
        decreases children.len() - i,
    {
        proof {
            assert(children@.take(i + 1).drop_last() =~= children@.take(i as int));
            lemma_listing_total_prefix(children@, i + 1);
        }
        let child = &children[i];
        match child.metadata {
            Some(m) => match m.kind {
                FileKind::Directory => {
                    let size = get_size_of_directory(&child.walk);
                    total_size = total_size + size;
                    data.push(PathData { size, name: child.name.clone(), marker: Marker::Directory });
                },
                FileKind::File => {
                    let size = m.len;
                    total_size = total_size + size;
                    data.push(PathData { size, name: child.name.clone(), marker: Marker::File });
                },
                FileKind::Other => {},
            },
            None => {},
        }
        i = i + 1;
    }
    data.push(PathData { size: total_size, name: "Total".to_owned(), marker: Marker::Total });
    proof {
        assert(children@.take(i as int) =~= children@);
        assert(rows(data@) =~= directory_data(children@));
        lemma_directory_data_total(children@);
    }
    data
}

/// What holds while the first `done` rows are being sorted: `data` holds the
/// rows of `start`, `order` tells where each came from, the rows from `done`
/// on have not moved, and the rows before `done` are those that stood there,
/// in ascending order of size, rows of one size in their first order.
spec fn sorted_upto(data: Seq<Row>, start: Seq<Row>, order: Seq<int>, done: int) -> bool {
    &&& 0 <= done <= data.len()
    &&& data.len() == start.len() == order.len()
    &&& data.to_multiset() == start.to_multiset()
    &&& is_permutation(order)
    &&& forall|k: int| 0 <= k < data.len() ==> #[trigger] data[k] == start[order[k]]
    &&& forall|k: int| done <= k < data.len() ==> #[trigger] order[k] == k
    &&& forall|k: int| 0 <= k < done ==> #[trigger] order[k] < done
    &&& forall|a: int, b: int|
        #![trigger data[a], data[b]]
        0 <= a < b < done ==> data[a].size <= data[b].size && (data[a].size == data[b].size
            ==> order[a] < order[b])
}

/// Moving the row at `done` down to place `p`, behind the rows that are not
/// larger and before those that are, sorts one row more.
proof fn lemma_insert_step(data: Seq<Row>, start: Seq<Row>, order: Seq<int>, done: int, p: int)
    requires
        sorted_upto(data, start, order, done),
        0 <= p <= done < data.len(),
        forall|k: int| p <= k < done ==> (#[trigger] data[k]).size > data[done].size,
        p > 0 ==> data[p - 1].size <= data[done].size,
    ensures
        sorted_upto(
            data.remove(done).insert(p, data[done]),
            start,
            order.remove(done).insert(p, done),
            done + 1,
        ),
{
    let n = data.len() as int;
    let after = data.remove(done).insert(p, data[done]);
    let moved = order.remove(done).insert(p, done);
    assert(after.len() == n && moved.len() == n);
    assert forall|k: int| 0 <= k < n implies #[trigger] after[k] == (if k < p {
        data[k]
    } else if k == p {
        data[done]
    } else if k <= done {
        data[k - 1]
    } else {
        data[k]
    }) by {}
    assert forall|k: int| 0 <= k < n implies #[trigger] moved[k] == (if k < p {
        order[k]
    } else if k == p {
        done
    } else if k <= done {
        order[k - 1]
    } else {
        order[k]
    }) by {}
    lemma_put_back(data, done, p);
    assert(order[done] == done);
    assert forall|k: int| 0 <= k < n implies #[trigger] after[k] == start[moved[k]] by {
        if k < p {
            assert(data[k] == start[order[k]]);
        } else if k == p {
            assert(data[done] == start[order[done]]);
        } else if k <= done {
            assert(data[k - 1] == start[order[k - 1]]);
        } else {
            assert(data[k] == start[order[k]]);
        }
    }
    assert forall|k: int| 0 <= k < done + 1 implies #[trigger] moved[k] < done + 1 by {
        if k < p {
            assert(order[k] < done);
        } else if k > p {
            assert(order[k - 1] < done);
        }
    }
    assert forall|k: int| 0 <= k < n implies 0 <= #[trigger] moved[k] < n by {
        if k < p {
            assert(0 <= order[k] < n);
        } else if k == p {
        } else if k <= done {
            assert(0 <= order[k - 1] < n);
        } else {
            assert(0 <= order[k] < n);
        }
    }
    assert forall|a: int, b: int| 0 <= a < b < n implies moved[a] != moved[b] by {
        let a0 = if a < p {
            a
        } else if a == p {
            done
        } else if a <= done {
            a - 1
        } else {
            a
        };
        let b0 = if b < p {
            b
        } else if b == p {
            done
        } else if b <= done {
            b - 1
        } else {
            b
        };
        assert(moved[a] == order[a0] && moved[b] == order[b0]);
        assert(a0 != b0);
        if a0 < b0 {
            assert(order[a0] != order[b0]);
        } else {
            assert(order[b0] != order[a0]);
        }
    }
    assert forall|a: int, b: int|
        #![trigger after[a], after[b]]
        0 <= a < b < done + 1 implies after[a].size <= after[b].size && (after[a].size
        == after[b].size ==> moved[a] < moved[b]) by {
        if a == p {
            assert(after[b] == data[b - 1]);
            assert(data[b - 1].size > data[done].size);
        } else if b == p {
            assert(after[a] == data[a]);
            if a < p - 1 {
                assert(data[a].size <= data[p - 1].size);
            }
            assert(order[a] < done);
        } else {
            let a0 = if a < p {
                a
            } else {
                a - 1
            };
            let b0 = if b < p {
                b
            } else {
                b - 1
            };
            assert(after[a] == data[a0] && moved[a] == order[a0]);
            assert(after[b] == data[b0] && moved[b] == order[b0]);
            assert(0 <= a0 < b0 < done);
            assert(data[a0].size <= data[b0].size && (data[a0].size == data[b0].size
                ==> order[a0] < order[b0]));
        }
    }
    assert forall|k: int| done + 1 <= k < n implies #[trigger] moved[k] == k by {
        assert(order[k] == k);
    }
}

/// Sorts the entries by size, smallest first. Entries of one size keep the
/// order in which they stood.
pub fn sort_by_size(data: &mut Vec<PathData>)
    ensures
        stable_sorted(rows(final(data)@), rows(old(data)@)),
{
    let n = data.len();
    let ghost start = rows(data@);
    let ghost mut order: Seq<int> = Seq::new(n as nat, |k: int| k);
    let mut i: usize = 0;
    while i < n
        invariant
            data.len() == n,
            sorted_upto(rows(data@), start, order, i as int),
        decreases n - i,
    {
        let ghost before = data@;
        let entry = data.remove(i);
        let ghost without = data@;
        let mut p: usize = i;
        while p > 0 && data[p - 1].size > entry.size
            invariant
                p <= i,
                i < n,
                data@ == without,
                without.len() == n - 1,
                forall|k: int| p <= k < i ==> (#[trigger] without[k]).size > entry.size,
            decreases p,
        {
            p = p - 1;
        }
        data.insert(p, entry);
        proof {
            let held = rows(before);
            assert forall|k: int| p <= k < i implies (#[trigger] held[k]).size
                > held[i as int].size by {
                assert(without[k] == before[k]);
            }
            if p > 0 {
                assert(without[p - 1] == before[p - 1]);
            }
            lemma_insert_step(held, start, order, i as int, p as int);
            assert(rows(data@) =~= held.remove(i as int).insert(p as int, held[i as int]));
            order = order.remove(i as int).insert(p as int, i as int);
        }
        i = i + 1;
    }
    proof {
        assert(keeps_order(rows(data@), start, order));
    }
}

/// Taking a row out and putting it in again at another place leaves the same
/// rows.
proof fn lemma_put_back(data: Seq<Row>, i: int, p: int)
    requires
        0 <= i < data.len(),
        0 <= p < data.len(),
    ensures
        data.remove(i).insert(p, data[i]).to_multiset() == data.to_multiset(),
{
    broadcast use vstd::seq_lib::group_to_multiset_ensures;
    broadcast use vstd::multiset::group_multiset_axioms;

    to_multiset_remove(data, i);
    to_multiset_insert(data.remove(i), p, data[i]);
    assert(data.to_multiset().count(data[i]) > 0);
    assert(data.to_multiset().remove(data[i]).insert(data[i]) =~= data.to_multiset());
}

/// The report of a directory, from what was read of its immediate children:
/// one row for each child that is a directory or a regular file, then the
/// summary with the sum of their sizes, all sorted by size, smallest first,
/// rows of one size in the order in which they were read. A directory counts
/// with the regular files below it. A child whose stat failed, or that is
/// neither, gets no row and adds nothing.
pub fn get_data_from_directory(children: &Vec<Child>) -> (data: Vec<PathData>)
    requires
        listing_total(children@) <= u64::MAX,
    ensures
        stable_sorted(rows(data@), directory_data(children@)),
        has_one_total(rows(data@)),
{
    let mut data = rows_as_read(children);
    sort_by_size(&mut data);
    proof {
        lemma_sort_keeps_total(rows(data@), directory_data(children@));
    }
    data
}

/// As `get_data_from_directory`, for any children: `None` where the sum of
/// their sizes does not fit in 64 bits.
pub fn checked_data_from_directory(children: &Vec<Child>) -> (data: Option<Vec<PathData>>)
    ensures
        listing_total(children@) > u64::MAX ==> data.is_none(),
        listing_total(children@) <= u64::MAX ==> data.is_some() && stable_sorted(
            rows(data.unwrap()@),
            directory_data(children@),
        ) && has_one_total(rows(data.unwrap()@)),
{
    match checked_total(children) {
        Some(_) => Some(get_data_from_directory(children)),
        None => None,
    }
}

} // verus!
