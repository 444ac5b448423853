//! The record builder: from the samples found below a pack's directory to
//! the rows of its index.

use vstd::prelude::*;

use crate::path::{relative_to, starts_with, SamplePath};
use crate::record::{is_text, record_of, record_views, Record, RecordView};

verus! {

/// A sample was handed in that does not lie below the pack's directory.
#[derive(Debug, Clone, Copy, PartialEq, Eq)]
pub struct PathError {
    /// The position of the first such sample among those handed in.
    pub index: usize,
}

/// The paths that a vector holds.
pub open spec fn path_views(paths: Seq<SamplePath>) -> Seq<Seq<Seq<u8>>> {
    paths.map_values(|p: SamplePath| p@)
}

/// Whether every one of `files` lies at or below `root`.
pub open spec fn all_under(root: Seq<Seq<u8>>, files: Seq<Seq<Seq<u8>>>) -> bool {
    forall|i: int| 0 <= i < files.len() ==> starts_with(#[trigger] files[i], root)
}

/// The record of the sample `file` in the pack at `root`, if it has one.
pub open spec fn sample_record(root: Seq<Seq<u8>>, file: Seq<Seq<u8>>) -> Option<RecordView> {
    match relative_to(file, root) {
        Some(relative) => record_of(relative),
        None => None,
    }
}

/// The records of `files` in the pack at `root`: one for each sample that
/// has a record, in the order of `files`.
pub open spec fn records_of(root: Seq<Seq<u8>>, files: Seq<Seq<Seq<u8>>>) -> Seq<RecordView> {
    files.filter_map(|file: Seq<Seq<u8>>| sample_record(root, file))
}

/// The records of two lists of samples, one after the other, are the records
/// of the first list followed by those of the second: each sample is treated
/// on its own.
pub proof fn lemma_records_of_concat(
    root: Seq<Seq<u8>>,
    first: Seq<Seq<Seq<u8>>>,
    second: Seq<Seq<Seq<u8>>>,
)
    ensures
        records_of(root, first + second) == records_of(root, first) + records_of(root, second),
    decreases second.len(),
{
    if second.len() > 0 {
        lemma_records_of_concat(root, first, second.drop_last());
        assert((first + second).drop_last() == first + second.drop_last());
    }
}

/// A sample whose path below the pack's directory holds a segment that is not
/// valid text has no record, and the records of all the samples are those of
/// the others: they come out as if that sample had not been there. Whether
/// every sample lies below the pack's directory is not touched either.
pub proof fn lemma_sample_without_text_is_left_out(
    root: Seq<Seq<u8>>,
    files: Seq<Seq<Seq<u8>>>,
    i: int,
)
    requires
        0 <= i < files.len(),
        starts_with(files[i], root),
        !is_text(files[i].skip(root.len() as int)),
    ensures
        sample_record(root, files[i]) is None,
        records_of(root, files) == records_of(root, files.remove(i)),
        all_under(root, files) == all_under(root, files.remove(i)),
{
    let before = files.take(i);
    let one = seq![files[i]];
    let after = files.skip(i + 1);
    assert(files == before + one + after);
    lemma_records_of_concat(root, before, one);
    lemma_records_of_concat(root, before + one, after);
    lemma_records_of_concat(root, before, after);
    assert(records_of(root, one) == Seq::<RecordView>::empty()) by {
        Seq::lemma_filter_map_singleton(files[i], |file: Seq<Seq<u8>>| sample_record(root, file));
    }
    let others = files.remove(i);
    if all_under(root, others) {
        assert forall|j: int| 0 <= j < files.len() implies starts_with(#[trigger] files[j], root) by {
            if j < i {
                assert(files[j] == others[j]);
            } else if j > i {
                assert(files[j] == others[j - 1]);
            }
        }
    }
}

/// Builds the records of the samples `files` found in the pack at `root`.
///
/// Every sample must lie at or below `root`: where one does not, the error
/// names the first such sample and no records are returned. A sample whose
/// path below `root` cannot be written as text is passed over in silence.
/// The records come in the order of `files`.
pub fn parse(root: &SamplePath, files: &Vec<SamplePath>) -> (result: Result<Vec<Record>, PathError>)
    ensures
        result is Ok <==> all_under(root@, path_views(files@)),
        match result {
            Ok(records) => record_views(records@) == records_of(root@, path_views(files@)),
            Err(e) => e.index < files.len() && !starts_with(files@[e.index as int]@, root@)
                && forall|j: int| 0 <= j < e.index ==> starts_with((#[trigger] files@[j])@, root@),
        },
{
    let ghost all = path_views(files@);
    let mut records: Vec<Record> = Vec::new();
    let mut i: usize = 0;
    while i < files.len()
        invariant
            i <= files.len(),
            all == path_views(files@),
            forall|j: int| 0 <= j < i ==> starts_with((#[trigger] files@[j])@, root@),
            record_views(records@) == records_of(root@, all.take(i as int)),
        decreases files.len() - i,
    {
        assert(all.take(i + 1).drop_last() == all.take(i as int));
        match files[i].strip_prefix(root) {
            None => {
                assert(!starts_with(all[i as int], root@));
                return Err(PathError { index: i });
            },
            Some(relative) => {
                match Record::from_relative(&relative) {
                    Some(record) => {
                        records.push(record);
                    },
                    None => {},
                }
            },
        }
        i += 1;
    }
    assert(all.take(files.len() as int) == all);
    Ok(records)
}

} // verus!
