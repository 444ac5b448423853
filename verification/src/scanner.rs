//! Which of the files found below a pack's directory are its samples.

use vstd::prelude::*;
use vstd::utf8::encode_utf8;

use crate::builder::path_views;
use crate::path::{bytes_equal, extension_of, file_extension, names, SamplePath};
use crate::table::append_bytes;

verus! {

/// The extensions of the sound files that are indexed.
pub open spec fn sound_extension_names() -> Seq<Seq<u8>> {
    seq![encode_utf8("wav"@)]
}

/// Whether the file at `path` is a sample: its name ends in one of the
/// `allowed` extensions, written exactly as there.
pub open spec fn is_sample(path: Seq<Seq<u8>>, allowed: Seq<Seq<u8>>) -> bool {
    path.len() > 0 && match extension_of(path.last()) {
        Some(extension) => allowed.contains(extension),
        None => false,
    }
}

/// Those of `files` that are samples, in the order of `files`.
pub open spec fn samples_among(files: Seq<Seq<Seq<u8>>>, allowed: Seq<Seq<u8>>) -> Seq<
    Seq<Seq<u8>>,
> {
    files.filter(|path: Seq<Seq<u8>>| is_sample(path, allowed))
}

/// The extensions of the sound files that are indexed.
pub fn sound_extensions() -> (allowed: Vec<Vec<u8>>)
    ensures
        names(allowed@) == sound_extension_names(),
{
    let mut wav: Vec<u8> = Vec::new();
    append_bytes(&mut wav, "wav".as_bytes());
    let mut allowed: Vec<Vec<u8>> = Vec::new();
    allowed.push(wav);
    allowed
}

/// Whether `extension` is one of `allowed`.
pub fn is_allowed(extension: &Vec<u8>, allowed: &Vec<Vec<u8>>) -> (found: bool)
    ensures
        found == names(allowed@).contains(extension@),
{
    let mut i: usize = 0;
    while i < allowed.len()
        invariant
            i <= allowed.len(),
            forall|k: int| 0 <= k < i ==> names(allowed@)[k] != extension@,
        decreases allowed.len() - i,
    {
        if bytes_equal(&allowed[i], extension) {
            assert(names(allowed@)[i as int] == extension@);
            return true;
        }
        i += 1;
    }
    false
}

/// Whether the file at `path` is a sample.
pub fn is_sample_path(path: &SamplePath, allowed: &Vec<Vec<u8>>) -> (sample: bool)
    ensures
        sample == is_sample(path@, names(allowed@)),
{
    match path.file_name() {
        None => false,
        Some(name) => match file_extension(name) {
            Some(extension) => is_allowed(&extension, allowed),
            None => false,
        },
    }
}

/// Keeps those of `files` that are samples, in their order.
pub fn select_samples(files: Vec<SamplePath>, allowed: &Vec<Vec<u8>>) -> (samples: Vec<SamplePath>)
    ensures
        path_views(samples@) == samples_among(path_views(files@), names(allowed@)),
{
    let ghost all = path_views(files@);
    let ghost wanted = |path: Seq<Seq<u8>>| is_sample(path, names(allowed@));
    let mut samples: Vec<SamplePath> = Vec::new();
    proof {
        reveal(Seq::filter);
    }
    for file in it: files
        invariant
            it.seq() == files@,
            all == path_views(files@),
            wanted == |path: Seq<Seq<u8>>| is_sample(path, names(allowed@)),
            path_views(samples@) == all.take(it.index() as int).filter(wanted),
    {
        proof {
            reveal(Seq::filter);
            assert(all.take(it.index() + 1).drop_last() == all.take(it.index() as int));
        }
        if is_sample_path(&file, allowed) {
            samples.push(file);
        }
    }
    assert(all.take(all.len() as int) == all);
    samples
}

/// Whether a file is a sample is decided by its name alone: however deep it
/// lies below the pack's directory, the answer is that for the bare name.
pub proof fn lemma_sample_at_any_depth(
    directories: Seq<Seq<u8>>,
    name: Seq<u8>,
    allowed: Seq<Seq<u8>>,
)
    ensures
        is_sample(directories.push(name), allowed) == is_sample(seq![name], allowed),
{
}

/// Of files that are all samples, every one is kept.
pub proof fn lemma_samples_are_all_kept(files: Seq<Seq<Seq<u8>>>, allowed: Seq<Seq<u8>>)
    requires
        forall|i: int| 0 <= i < files.len() ==> is_sample(#[trigger] files[i], allowed),
    ensures
        samples_among(files, allowed) == files,
    decreases files.len(),
{
    reveal(Seq::filter);
    if files.len() > 0 {
        lemma_samples_are_all_kept(files.drop_last(), allowed);
    }
}

/// A file that is not a sample changes nothing, wherever it stands among the
/// others: the samples found are those found without it.
pub proof fn lemma_other_file_changes_nothing(
    files: Seq<Seq<Seq<u8>>>,
    allowed: Seq<Seq<u8>>,
    i: int,
)
    requires
        0 <= i < files.len(),
        !is_sample(files[i], allowed),
    ensures
        samples_among(files, allowed) == samples_among(files.remove(i), allowed),
{
    let wanted = |path: Seq<Seq<u8>>| is_sample(path, allowed);
    let before = files.take(i);
    let one = seq![files[i]];
    let after = files.skip(i + 1);
    assert(files == before + one + after);
    Seq::filter_distributes_over_add(before, one, wanted);
    Seq::filter_distributes_over_add(before + one, after, wanted);
    Seq::filter_distributes_over_add(before, after, wanted);
    assert(one.filter(wanted) == Seq::<Seq<Seq<u8>>>::empty()) by {
        reveal(Seq::filter);
        assert(one.drop_last().filter(wanted) == Seq::<Seq<Seq<u8>>>::empty());
    }
}

} // verus!
