//! One row of the index, and how it is derived from a sample's path.

use vstd::prelude::*;
use vstd::slice::slice_subrange;
use vstd::utf8::{decode_utf8, valid_utf8};

use crate::path::{copy_bytes, file_stem, stem_of, SamplePath};
use crate::text::{decode, join, join_strings, lemma_stem_is_text, texts};

verus! {

/// One audio sample, as the index lists it.
#[derive(Debug, Clone, PartialEq, Eq)]
pub struct Record {
    /// The path of the sample below the pack's directory, with `/` between
    /// its segments.
    pub relative_path: String,
    /// The file's name without its extension.
    pub name: String,
    /// What is spoken in the sample: its name, for want of a transcript.
    pub line: String,
    /// How the line is read. Left empty, to be filled in by hand.
    pub pronunciation: String,
    /// The directories between the pack's directory and the sample, with `/`
    /// between them; empty for a sample directly in the pack's directory.
    pub category: String,
}

/// A record as plain text.
pub struct RecordView {
    pub relative_path: Seq<char>,
    pub name: Seq<char>,
    pub line: Seq<char>,
    pub pronunciation: Seq<char>,
    pub category: Seq<char>,
}

impl View for Record {
    type V = RecordView;

    open spec fn view(&self) -> RecordView {
        RecordView {
            relative_path: self.relative_path@,
            name: self.name@,
            line: self.line@,
            pronunciation: self.pronunciation@,
            category: self.category@,
        }
    }
}

/// The records that a vector holds, as plain text.
pub open spec fn record_views(records: Seq<Record>) -> Seq<RecordView> {
    records.map_values(|r: Record| r@)
}

/// Whether every segment of the path is valid UTF-8, so that the path can be
/// written as text.
pub open spec fn is_text(path: Seq<Seq<u8>>) -> bool {
    forall|k: int| 0 <= k < path.len() ==> valid_utf8(#[trigger] path[k])
}

/// The segments of the path as text.
pub open spec fn texts_of(path: Seq<Seq<u8>>) -> Seq<Seq<char>> {
    path.map_values(|segment: Seq<u8>| decode_utf8(segment))
}

/// The record of the sample at `relative`, a path below the pack's directory.
/// There is none where the path is empty, and none where a segment is not
/// valid text.
pub open spec fn record_of(relative: Seq<Seq<u8>>) -> Option<RecordView> {
    if relative.len() > 0 && is_text(relative) {
        let name = decode_utf8(stem_of(relative.last()));
        Some(
            RecordView {
                relative_path: join(texts_of(relative), "/"@),
                name: name,
                line: name,
                pronunciation: Seq::empty(),
                category: join(texts_of(relative.drop_last()), "/"@),
            },
        )
    } else {
        None
    }
}

impl Record {
    /// Derives the record of the sample at `relative`, a path below the
    /// pack's directory. A path that cannot be written as text yields no
    /// record.
    pub fn from_relative(relative: &SamplePath) -> (record: Option<Record>)
        ensures
            match record {
                Some(r) => record_of(relative@) == Some(r@),
                None => record_of(relative@) is None,
            },
    {
        let n = relative.segments.len();
        if n == 0 {
            return None;
        }
        let mut parts: Vec<String> = Vec::new();
        let mut i: usize = 0;
        while i < n
            invariant
                i <= n,
                n == relative.segments.len(),
                parts.len() == i,
                forall|k: int| 0 <= k < i ==> valid_utf8(#[trigger] relative@[k]),
                forall|k: int| 0 <= k < i ==> (#[trigger] parts@[k])@ == decode_utf8(relative@[k]),
            decreases n - i,
        {
            match decode(copy_bytes(&relative.segments[i])) {
                Some(part) => {
                    parts.push(part);
                },
                None => {
                    assert(!valid_utf8(relative@[i as int]));
                    return None;
                },
            }
            i += 1;
        }
        assert(texts(parts@) =~= texts_of(relative@));
        let stem = file_stem(&relative.segments[n - 1]);
        proof {
            lemma_stem_is_text(relative@.last());
        }
        let name = match decode(stem) {
            Some(name) => name,
            // Never taken: the stem of a name that is text is text.
            None => {
                return None;
            },
        };
        let category = join_strings(slice_subrange(parts.as_slice(), 0, n - 1), "/");
        let relative_path = join_strings(parts.as_slice(), "/");
        let line = name.clone();
        assert(texts(parts@.subrange(0, n - 1)) =~= texts_of(relative@.drop_last()));
        Some(Record { relative_path, name, line, pronunciation: String::new(), category })
    }
}

} // verus!
