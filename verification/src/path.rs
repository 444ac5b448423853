//! Paths as the indexer sees them: a sequence of names, outermost first.

use vstd::prelude::*;

verus! {

/// The byte `.`, which parts a file name into stem and extension.
pub const DOT: u8 = 46;

/// A path, held as the names of its segments from the outermost directory to
/// the entry itself. A segment is kept as raw bytes, since a file system may
/// hold names that are not valid text.
#[derive(Debug, Clone, PartialEq, Eq)]
pub struct SamplePath {
    pub segments: Vec<Vec<u8>>,
}

/// The byte strings that a vector of segments holds.
pub open spec fn names(segments: Seq<Vec<u8>>) -> Seq<Seq<u8>> {
    segments.map_values(|segment: Vec<u8>| segment@)
}

impl View for SamplePath {
    type V = Seq<Seq<u8>>;

    open spec fn view(&self) -> Seq<Seq<u8>> {
        names(self.segments@)
    }
}

/// Whether `path` lies at or below `base`: the segments of `base` are the
/// first segments of `path`.
pub open spec fn starts_with(path: Seq<Seq<u8>>, base: Seq<Seq<u8>>) -> bool {
    base.len() <= path.len() && path.take(base.len() as int) == base
}

/// What is left of `path` once the leading `base` is taken off, if `path`
/// starts with it.
pub open spec fn relative_to(path: Seq<Seq<u8>>, base: Seq<Seq<u8>>) -> Option<Seq<Seq<u8>>> {
    if starts_with(path, base) {
        Some(path.skip(base.len() as int))
    } else {
        None
    }
}

/// The index of the last `.` in `name`, or -1 if it holds none.
pub open spec fn last_dot(name: Seq<u8>) -> int
    decreases name.len(),
{
    if name.len() == 0 {
        -1
    } else if name.last() == DOT {
        name.len() - 1
    } else {
        last_dot(name.drop_last())
    }
}

/// Whether `name` ends in an extension: it holds a `.` that is not its first
/// byte. A name such as `.hidden` has none.
pub open spec fn has_extension(name: Seq<u8>) -> bool {
    last_dot(name) > 0
}

/// The name without its final extension: what stands before the last `.`, or
/// the whole name where it has no extension.
pub open spec fn stem_of(name: Seq<u8>) -> Seq<u8> {
    if has_extension(name) {
        name.take(last_dot(name))
    } else {
        name
    }
}

/// The final extension of the name: what follows the last `.`.
pub open spec fn extension_of(name: Seq<u8>) -> Option<Seq<u8>> {
    if has_extension(name) {
        Some(name.skip(last_dot(name) + 1))
    } else {
        None
    }
}

/// `last_dot` points at a `.` after which no other follows, and is -1 exactly
/// when the name holds no `.` at all.
pub proof fn lemma_last_dot(name: Seq<u8>)
    ensures
        -1 <= last_dot(name) < name.len(),
        last_dot(name) >= 0 ==> name[last_dot(name)] == DOT,
        forall|j: int| last_dot(name) < j < name.len() ==> name[j] != DOT,
    decreases name.len(),
{
    if name.len() > 0 && name.last() != DOT {
        let front = name.drop_last();
        lemma_last_dot(front);
        assert forall|j: int| last_dot(name) < j < name.len() implies name[j] != DOT by {
            if j < front.len() {
                assert(front[j] == name[j]);
            }
        }
    }
}

/// A stem, a `.` and an extension without a `.` make a name whose last `.`
/// is the one between them: where the stem is not empty, the name has that
/// stem and that extension.
pub proof fn lemma_dot_parts_stem_and_extension(stem: Seq<u8>, extension: Seq<u8>)
    requires
        forall|j: int| 0 <= j < extension.len() ==> extension[j] != DOT,
    ensures
        last_dot(stem + seq![DOT] + extension) == stem.len(),
        stem.len() > 0 ==> stem_of(stem + seq![DOT] + extension) == stem && extension_of(
            stem + seq![DOT] + extension,
        ) == Some(extension),
    decreases extension.len(),
{
    let name = stem + seq![DOT] + extension;
    if extension.len() > 0 {
        let shorter = extension.drop_last();
        lemma_dot_parts_stem_and_extension(stem, shorter);
        assert(name.drop_last() == stem + seq![DOT] + shorter);
    }
}

/// Compares two byte strings.
pub fn bytes_equal(a: &Vec<u8>, b: &Vec<u8>) -> (same: bool)
    ensures
        same == (a@ == b@),
{
    if a.len() != b.len() {
        return false;
    }
    let mut i: usize = 0;
    while i < a.len()
        invariant
            a.len() == b.len(),
            i <= a.len(),
            a@.take(i as int) == b@.take(i as int),
        decreases a.len() - i,
    {
        if a[i] != b[i] {
            return false;
        }
        i += 1;
    }
    assert(a@ == a@.take(a.len() as int));
    assert(b@ == b@.take(b.len() as int));
    true
}

/// Copies the bytes from `from` up to, not including, `to`.
pub fn bytes_between(bytes: &Vec<u8>, from: usize, to: usize) -> (part: Vec<u8>)
    requires
        from <= to <= bytes.len(),
    ensures
        part@ == bytes@.subrange(from as int, to as int),
{
    let mut part: Vec<u8> = Vec::new();
    let mut i: usize = from;
    while i < to
        invariant
            from <= i <= to <= bytes.len(),
            part@ == bytes@.subrange(from as int, i as int),
        decreases to - i,
    {
        part.push(bytes[i]);
        i += 1;
    }
    part
}

/// Copies a byte string.
pub fn copy_bytes(bytes: &Vec<u8>) -> (copy: Vec<u8>)
    ensures
        copy@ == bytes@,
{
    bytes_between(bytes, 0, bytes.len())
}

/// Finds the last `.` of a name.
pub fn find_last_dot(name: &Vec<u8>) -> (at: Option<usize>)
    ensures
        match at {
            Some(k) => last_dot(name@) == k && k < name.len(),
            None => last_dot(name@) == -1,
        },
{
    let mut i: usize = name.len();
    assert(name@.take(i as int) == name@);
    while i > 0
        invariant
            i <= name.len(),
            last_dot(name@) == last_dot(name@.take(i as int)),
        decreases i,
    {
        if name[i - 1] == DOT {
            return Some(i - 1);
        }
        assert(name@.take(i as int).drop_last() == name@.take(i - 1));
        i -= 1;
    }
    None
}

/// The name without its final extension.
pub fn file_stem(name: &Vec<u8>) -> (stem: Vec<u8>)
    ensures
        stem@ == stem_of(name@),
{
    proof {
        lemma_last_dot(name@);
    }
    let end: usize = match find_last_dot(name) {
        Some(k) => if k > 0 { k } else { name.len() },
        None => name.len(),
    };
    bytes_between(name, 0, end)
}

/// The final extension of the name, if it has one.
pub fn file_extension(name: &Vec<u8>) -> (extension: Option<Vec<u8>>)
    ensures
        match extension {
            Some(e) => extension_of(name@) == Some(e@),
            None => extension_of(name@) is None,
        },
{
    proof {
        lemma_last_dot(name@);
    }
    match find_last_dot(name) {
        Some(k) => if k > 0 {
            Some(bytes_between(name, k + 1, name.len()))
        } else {
            None
        },
        None => None,
    }
}

impl SamplePath {
    /// A path of the given segments.
    pub fn new(segments: Vec<Vec<u8>>) -> (path: SamplePath)
        ensures
            path@ == names(segments@),
    {
        SamplePath { segments }
    }

    /// The number of segments.
    pub fn len(&self) -> (n: usize)
        ensures
            n == self@.len(),
    {
        self.segments.len()
    }

    /// The last segment: the name of the entry itself.
    pub fn file_name(&self) -> (name: Option<&Vec<u8>>)
        ensures
            match name {
                Some(n) => self@.len() > 0 && n@ == self@.last(),
                None => self@.len() == 0,
            },
    {
        let n = self.segments.len();
        if n == 0 {
            None
        } else {
            Some(&self.segments[n - 1])
        }
    }

    /// Whether this path lies at or below `base`.
    pub fn starts_with(&self, base: &SamplePath) -> (under: bool)
        ensures
            under == starts_with(self@, base@),
    {
        if base.segments.len() > self.segments.len() {
            return false;
        }
        let mut i: usize = 0;
        while i < base.segments.len()
            invariant
                base.segments.len() <= self.segments.len(),
                i <= base.segments.len(),
                self@.take(i as int) == base@.take(i as int),
            decreases base.segments.len() - i,
        {
            if !bytes_equal(&self.segments[i], &base.segments[i]) {
                assert(self@.take(base@.len() as int)[i as int] != base@[i as int]);
                return false;
            }
            i += 1;
        }
        assert(base@.take(base@.len() as int) == base@);
        true
    }

    /// The path from `base` to this path, if this path lies at or below
    /// `base`.
    pub fn strip_prefix(&self, base: &SamplePath) -> (rest: Option<SamplePath>)
        ensures
            match rest {
                Some(r) => relative_to(self@, base@) == Some(r@),
                None => relative_to(self@, base@) is None,
            },
    {
        if !self.starts_with(base) {
            return None;
        }
        let mut segments: Vec<Vec<u8>> = Vec::new();
        let mut i: usize = base.segments.len();
        while i < self.segments.len()
            invariant
                base.segments.len() <= i <= self.segments.len(),
                names(segments@) == self@.subrange(base@.len() as int, i as int),
            decreases self.segments.len() - i,
        {
            segments.push(copy_bytes(&self.segments[i]));
            i += 1;
            assert(names(segments@) =~= self@.subrange(base@.len() as int, i as int)) by {
                assert(self@.subrange(base@.len() as int, i as int) =~= self@.subrange(
                    base@.len() as int,
                    i - 1,
                ).push(self@[i - 1]));
            }
        }
        Some(SamplePath { segments })
    }

    /// The path of the entry `name` inside this path.
    pub fn join(&self, name: Vec<u8>) -> (child: SamplePath)
        ensures
            child@ == self@.push(name@),
    {
        let mut segments: Vec<Vec<u8>> = Vec::new();
        let mut i: usize = 0;
        while i < self.segments.len()
            invariant
                i <= self.segments.len(),
                names(segments@) == self@.take(i as int),
            decreases self.segments.len() - i,
        {
            segments.push(copy_bytes(&self.segments[i]));
            i += 1;
            assert(names(segments@) =~= self@.take(i as int)) by {
                assert(self@.take(i as int) =~= self@.take(i - 1).push(self@[i - 1]));
            }
        }
        assert(self@.take(i as int) == self@);
        segments.push(name);
        SamplePath { segments }
    }
}

} // verus!
