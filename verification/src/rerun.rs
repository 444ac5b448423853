//! What a run leaves behind in the pack's directory, and why a second run is
//! not misled by it.

use vstd::prelude::*;
use vstd::utf8::{encode_utf8, is_ascii_chars_encode_utf8};

use crate::builder::records_of;
use crate::descriptor::descriptor_name;
use crate::path::{extension_of, last_dot, lemma_dot_parts_stem_and_extension, DOT};
use crate::scanner::{
    is_sample, lemma_other_file_changes_nothing, samples_among, sound_extension_names,
};
use crate::table::{table_name, table_of};

verus! {

/// The bytes of the names that the crate writes as text.
proof fn lemma_written_names()
    ensures
        encode_utf8(".csv"@) == seq![DOT, 99u8, 115u8, 118u8],
        encode_utf8("character.ini"@) == seq![
            99u8,
            104u8,
            97u8,
            114u8,
            97u8,
            99u8,
            116u8,
            101u8,
            114u8,
            DOT,
            105u8,
            110u8,
            105u8,
        ],
        encode_utf8("wav"@) == seq![119u8, 97u8, 118u8],
{
    reveal_strlit(".csv");
    reveal_strlit("character.ini");
    reveal_strlit("wav");
    is_ascii_chars_encode_utf8(".csv"@);
    is_ascii_chars_encode_utf8("character.ini"@);
    is_ascii_chars_encode_utf8("wav"@);
    assert(encode_utf8("character.ini"@) =~= seq![
        99u8,
        104u8,
        97u8,
        114u8,
        97u8,
        99u8,
        116u8,
        101u8,
        114u8,
        DOT,
        105u8,
        110u8,
        105u8,
    ]);
}

/// The table and the descriptor that a run writes into the pack's directory
/// are not samples: their names end in `.csv` and `.ini`, not in the
/// extension of a sound file.
pub proof fn lemma_outputs_are_no_samples(root: Seq<Seq<u8>>)
    requires
        root.len() > 0,
    ensures
        !is_sample(root.push(table_name(root.last())), sound_extension_names()),
        !is_sample(root.push(descriptor_name()), sound_extension_names()),
{
    lemma_written_names();
    // `wav` opens with a `w`, `csv` with a `c` and `ini` with an `i`.
    let wav = seq![119u8, 97u8, 118u8];
    let csv = seq![99u8, 115u8, 118u8];
    let ini = seq![105u8, 110u8, 105u8];
    assert(csv[0] != wav[0] && ini[0] != wav[0]);

    let directory = root.last();
    assert(table_name(directory) =~= directory + seq![DOT] + csv);
    lemma_dot_parts_stem_and_extension(directory, csv);

    let character = seq![99u8, 104u8, 97u8, 114u8, 97u8, 99u8, 116u8, 101u8, 114u8];
    assert(descriptor_name() =~= character + seq![DOT] + ini);
    lemma_dot_parts_stem_and_extension(character, ini);
}

/// A second run writes the table that the first run wrote: the table and the
/// descriptor that the first run left in the pack's directory, wherever they
/// stand among the files now found there, change nothing about which files
/// are samples, and so nothing about the records and the bytes of the table.
pub proof fn lemma_outputs_change_nothing(
    root: Seq<Seq<u8>>,
    files: Seq<Seq<Seq<u8>>>,
    i: int,
)
    requires
        root.len() > 0,
        0 <= i < files.len(),
        files[i] == root.push(table_name(root.last())) || files[i] == root.push(descriptor_name()),
    ensures
        samples_among(files, sound_extension_names()) == samples_among(
            files.remove(i),
            sound_extension_names(),
        ),
        table_of(records_of(root, samples_among(files, sound_extension_names()))) == table_of(
            records_of(root, samples_among(files.remove(i), sound_extension_names())),
        ),
{
    lemma_outputs_are_no_samples(root);
    lemma_other_file_changes_nothing(files, sound_extension_names(), i);
}

} // verus!
