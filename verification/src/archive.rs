//! Pre-compressed copies of stored files: which copies a file needs, where they go, and
//! the tally of a run; reading, comparing times and compressing stand outside.

use vstd::prelude::*;

use crate::paths::{append_extension, dot, dot_dot, extension, extension_of, parts_of, with_suffix, LocalPath};
use crate::text::{chars_of, eq_str, same_chars, string_of};

verus! {

/// The tally of one archive run.
#[derive(Debug, Default)]
pub struct Summary {
    pub files: usize,
    pub created: usize,
    pub skipped: usize,
    pub elapsed_ms: u128,
}

/// A compression format of the archive copies.
#[derive(Debug, Clone, Copy, PartialEq, Eq, Structural)]
pub enum Compression {
    Bzip2,
    Gzip,
}

impl Compression {
    /// The file suffix of the format.
    pub open spec fn suffix_of(self) -> Seq<char> {
        match self {
            Compression::Bzip2 => ".bz2"@,
            Compression::Gzip => ".gz"@,
        }
    }

    /// The file suffix of the format: `.bz2` or `.gz`.
    pub fn suffix(&self) -> (r: &'static str)
        ensures
            r@ == self.suffix_of(),
    {
        match self {
            Compression::Bzip2 => ".bz2",
            Compression::Gzip => ".gz",
        }
    }
}

/// One compressed copy to keep up to date.
#[derive(Debug)]
pub struct ArchiveJob {
    pub target: LocalPath,
    pub compression: Compression,
}

/// The file name of a path: its last component, unless that is `.` or `..`.
pub open spec fn path_file_name(p: LocalPath) -> Option<Seq<char>> {
    let parts = parts_of(p);
    if parts.len() > 0 && parts.last() != dot() && parts.last() != dot_dot() {
        Some(parts.last())
    } else {
        None
    }
}

/// Whether a path names an archive already: its extension is `bz2` or `gz`.
pub open spec fn is_archive_of(p: LocalPath) -> bool {
    match path_file_name(p) {
        Some(name) => match extension_of(name) {
            Some(e) => e == "bz2"@ || e == "gz"@,
            None => false,
        },
        None => false,
    }
}

/// Whether a path names an archive already.
pub fn is_archive(path: &LocalPath) -> (r: bool)
    ensures
        r == is_archive_of(*path),
{
    let n = path.parts.len();
    if n == 0 {
        return false;
    }
    assert(parts_of(*path).last() == path.parts@[n - 1]@);
    let name = chars_of(path.parts[n - 1].as_str());
    if (name.len() == 1 && name[0] == '.') || (name.len() == 2 && name[0] == '.' && name[1] == '.') {
        assert(name@.len() == 1 && name@[0] == '.' ==> name@ =~= dot());
        assert(name@.len() == 2 && name@[0] == '.' && name@[1] == '.' ==> name@ =~= dot_dot());
        return false;
    }
    assert(name@ != dot() && name@ != dot_dot());
    match extension(&name) {
        Some(e) => {
            let text = string_of(&e);
            eq_str(text.as_str(), "bz2") || eq_str(text.as_str(), "gz")
        },
        None => false,
    }
}

/// The components of `source` below `root`, where `source` lies within `root`.
pub open spec fn relative_parts(root: LocalPath, source: LocalPath) -> Option<Seq<Seq<char>>> {
    let r = parts_of(root);
    let s = parts_of(source);
    if root.absolute == source.absolute && r.len() <= s.len() && s.take(r.len() as int) == r {
        Some(s.skip(r.len() as int))
    } else {
        None
    }
}

/// The copies that a stored file needs: none for an archive or a file outside the storage
/// root; otherwise its path below the archive root with `.bz2`, then with `.gz`.
pub open spec fn jobs_of(storage_root: LocalPath, auto_root: LocalPath, source: LocalPath) -> Seq<(
    bool,
    Seq<Seq<char>>,
    Compression,
)> {
    if is_archive_of(source) {
        Seq::empty()
    } else {
        match relative_parts(storage_root, source) {
            None => Seq::empty(),
            Some(rel) => seq![
                (auto_root.absolute, with_suffix(parts_of(auto_root) + rel, ".bz2"@), Compression::Bzip2),
                (auto_root.absolute, with_suffix(parts_of(auto_root) + rel, ".gz"@), Compression::Gzip),
            ],
        }
    }
}

fn clone_parts(parts: &Vec<String>, out: &mut Vec<String>, from: usize)
    requires
        from <= parts@.len(),
    ensures
        final(out)@.map_values(|x: String| x@) == old(out)@.map_values(|x: String| x@) + parts@.map_values(
            |x: String| x@,
        ).skip(from as int),
{
    let ghost start = out@.map_values(|x: String| x@);
    let ghost all = parts@.map_values(|x: String| x@);
    let mut k: usize = from;
    while k < parts.len()
        invariant
            from <= k <= parts@.len(),
            all == parts@.map_values(|x: String| x@),
            out@.map_values(|x: String| x@) == start + all.subrange(from as int, k as int),
        decreases parts@.len() - k,
    {
        let ghost before = out@;
        out.push(parts[k].clone());
        proof {
            crate::paths::lemma_views_push(before, parts@[k as int]);
            assert(all.subrange(from as int, k + 1) =~= all.subrange(from as int, k as int).push(all[k as int]));
        }
        k = k + 1;
    }
    assert(all.subrange(from as int, parts@.len() as int) =~= all.skip(from as int));
}

/// Plans the compressed copies of `source`.
pub fn archive_jobs(storage_root: &LocalPath, auto_root: &LocalPath, source: &LocalPath) -> (r: Vec<
    ArchiveJob,
>)
    ensures
        r@.map_values(|j: ArchiveJob| (j.target.absolute, parts_of(j.target), j.compression))
            == jobs_of(*storage_root, *auto_root, *source),
{
    let mut jobs: Vec<ArchiveJob> = Vec::new();
    if is_archive(source) {
        assert(jobs@.map_values(|j: ArchiveJob| (j.target.absolute, parts_of(j.target), j.compression)) =~= Seq::empty());
        return jobs;
    }
    let n = storage_root.parts.len();
    if storage_root.absolute != source.absolute || n > source.parts.len() {
        assert(jobs@.map_values(|j: ArchiveJob| (j.target.absolute, parts_of(j.target), j.compression)) =~= Seq::empty());
        return jobs;
    }
    for i in 0..n
        invariant
            n == storage_root.parts@.len(),
            n <= source.parts@.len(),
            jobs@.len() == 0,
            !is_archive_of(*source),
            storage_root.absolute == source.absolute,
            forall|k: int| 0 <= k < i ==> (#[trigger] source.parts@[k])@ == storage_root.parts@[k]@,
    {
        if !same_chars(&chars_of(source.parts[i].as_str()), &chars_of(storage_root.parts[i].as_str())) {
            assert(parts_of(*source).take(n as int)[i as int] != parts_of(*storage_root)[i as int]);
            assert(jobs@.map_values(|j: ArchiveJob| (j.target.absolute, parts_of(j.target), j.compression)) =~= Seq::empty());
            return jobs;
        }
    }
    assert(parts_of(*source).take(n as int) =~= parts_of(*storage_root));
    let mut base: Vec<String> = Vec::new();
    clone_parts(&auto_root.parts, &mut base, 0);
    clone_parts(&source.parts, &mut base, n);
    assert(parts_of(*auto_root).skip(0) =~= parts_of(*auto_root));
    let joined = LocalPath { absolute: auto_root.absolute, parts: base };
    proof {
        reveal_strlit(".bz2");
        reveal_strlit(".gz");
        assert(!".bz2"@.contains('/'));
        assert(!".gz"@.contains('/'));
        assert(".bz2"@ != dot_dot());
    }
    let bz = append_extension(&joined, ".bz2");
    let gz = append_extension(&joined, ".gz");
    let ghost b = jobs@;
    jobs.push(ArchiveJob { target: bz, compression: Compression::Bzip2 });
    jobs.push(ArchiveJob { target: gz, compression: Compression::Gzip });
    assert(jobs@.map_values(|j: ArchiveJob| (j.target.absolute, parts_of(j.target), j.compression))
        =~= jobs_of(*storage_root, *auto_root, *source));
    jobs
}

/// Where a copy is written before it is renamed into place: the target with `.part`.
pub fn temporary_path(target: &LocalPath) -> (r: LocalPath)
    ensures
        r.absolute == target.absolute,
        parts_of(r) == with_suffix(parts_of(*target), ".part"@),
{
    proof {
        reveal_strlit(".part");
        assert(!".part"@.contains('/'));
        assert(".part"@ != dot_dot());
    }
    append_extension(target, ".part")
}

impl Summary {
    /// A tally for `files` stored files, nothing done yet.
    pub fn start(files: usize) -> (r: Summary)
        ensures
            r.files == files,
            r.created == 0,
            r.skipped == 0,
            r.elapsed_ms == 0,
    {
        Summary { files, created: 0, skipped: 0, elapsed_ms: 0 }
    }

    /// Records one copy: skipped where it was up to date, created otherwise.
    pub fn record(&mut self, up_to_date: bool)
        requires
            old(self).created < usize::MAX,
            old(self).skipped < usize::MAX,
        ensures
            final(self).files == old(self).files,
            final(self).elapsed_ms == old(self).elapsed_ms,
            up_to_date ==> final(self).skipped == old(self).skipped + 1 && final(self).created
                == old(self).created,
            !up_to_date ==> final(self).created == old(self).created + 1 && final(self).skipped
                == old(self).skipped,
    {
        if up_to_date {
            self.skipped = self.skipped + 1;
        } else {
            self.created = self.created + 1;
        }
    }
}

/// A file that is already an archive gets no copies.
pub proof fn law_archives_get_no_copies(storage_root: LocalPath, auto_root: LocalPath, source: LocalPath)
    requires
        is_archive_of(source),
    ensures
        jobs_of(storage_root, auto_root, source).len() == 0,
{
}

/// A file strictly below the storage root gets two copies below the archive root, at the
/// same relative place.
pub proof fn law_copies_mirror_storage_below_archive_root(
    storage_root: LocalPath,
    auto_root: LocalPath,
    source: LocalPath,
)
    requires
        !is_archive_of(source),
        relative_parts(storage_root, source) is Some,
        relative_parts(storage_root, source)->0.len() > 0,
    ensures
        ({
            let rel = relative_parts(storage_root, source)->0;
            let jobs = jobs_of(storage_root, auto_root, source);
            &&& jobs.len() == 2
            &&& forall|k: int|
                0 <= k < 2 ==> #[trigger] jobs[k].1.len() == parts_of(auto_root).len() + rel.len()
                    && jobs[k].1.take(parts_of(auto_root).len() as int) == parts_of(auto_root)
                    && jobs[k].0 == auto_root.absolute
        }),
{
    let rel = relative_parts(storage_root, source)->0;
    let base = parts_of(auto_root) + rel;
    assert(with_suffix(base, ".bz2"@).take(parts_of(auto_root).len() as int) =~= parts_of(auto_root));
    assert(with_suffix(base, ".gz"@).take(parts_of(auto_root).len() as int) =~= parts_of(auto_root));
}

}
