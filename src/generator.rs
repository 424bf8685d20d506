//! Generators: one step writes one file; the repeat decorator runs an inner
//! generator a number of times against the same path generator and sink.
use vstd::prelude::*;
use vstd::arithmetic::div_mod::{lemma_mod_multiples_vanish, lemma_small_mod};
use vstd::arithmetic::mul::{
    lemma_mul_basics, lemma_mul_inequality, lemma_mul_is_distributive_add_other_way,
    lemma_mul_nonnegative,
};

use crate::content::{pattern_bytes, pattern_content};
use crate::naming::{
    decimal, join_path, lemma_ordinal_paths, FilenameGenerator, OrdinalPathFilenameGenerator,
};
use crate::sink::{FileWriter, MemoryFileWriter, WriteRecord};

verus! {

/// What one run of a generator of `count` files, file `j` holding
/// `content(j)`, did. `paths0` and `paths1` are the path generator before
/// and after the run, `before` and `after` the sink's requests, `r` the
/// run's answer. The run handed the sink, in order, the next paths of
/// `paths0` with the contents of the files, one request per path taken;
/// it stopped at the first request that failed and answered with that
/// failure; and when no request failed it wrote all `count` files.
pub open spec fn run_outcome<PG: FilenameGenerator>(
    count: nat,
    content: spec_fn(nat) -> Seq<u8>,
    paths0: PG,
    paths1: PG,
    before: Seq<WriteRecord>,
    after: Seq<WriteRecord>,
    r: std::io::Result<()>,
) -> bool {
    let n = before.len();
    let m = (after.len() - n) as nat;
    &&& n <= after.len()
    &&& after.subrange(0, n as int) == before
    &&& m <= count
    &&& forall|j: int|
        n <= j < after.len() ==> (#[trigger] after[j]).0 == paths0.path_at((j - n) as nat)
            && after[j].1 == content((j - n) as nat)
    &&& forall|j: int| n <= j < after.len() - 1 ==> (#[trigger] after[j]).2 is Ok
    &&& paths1.remaining() + m == paths0.remaining()
    &&& forall|i: nat| #[trigger] paths1.path_at(i) == paths0.path_at(i + m)
    &&& match r {
        Ok(_) => m == count && (m > 0 ==> after.last().2 is Ok),
        Err(_) => m > 0 && after.last().2 == r,
    }
}

/// Writes a fixed set of files, taking their paths from a path generator.
pub trait FileGenerator: Sized {
    /// How many files one run writes.
    spec fn file_count(&self) -> nat;

    /// The content of the file that a run writes in position `j`.
    spec fn file_content(&self, j: nat) -> Seq<u8>;

    /// Runs the generator: each file goes to the next path of
    /// `path_generator` and is handed to `file_writer`; the first failure
    /// ends the run and is returned unchanged.
    fn write<PG: FilenameGenerator, F: FileWriter>(
        &self,
        path_generator: &mut PG,
        file_writer: &mut F,
    ) -> (r: std::io::Result<()>)
        requires
            old(path_generator).remaining() >= self.file_count(),
        ensures
            run_outcome(
                self.file_count(),
                |j: nat| self.file_content(j),
                *old(path_generator),
                *final(path_generator),
                old(file_writer).requests(),
                final(file_writer).requests(),
                r,
            ),
    ;

    /// Wraps this generator so that a run performs it `count` times.
    fn repeat(self, count: usize) -> (r: RepeatFileGenerator<Self>)
        ensures
            r.count() == count,
            r.inner() == self,
    {
        RepeatFileGenerator { count, generator: self }
    }
}

/// Makes generators.
pub struct FileGeneratorBuilder {}

impl FileGeneratorBuilder {
    /// A generator of one file of `size` bytes.
    pub fn with_size(size: usize) -> (r: SizedFileGenerator)
        ensures
            r.size() == size,
    {
        SizedFileGenerator { size }
    }
}

/// Writes one file of a fixed size, filled with the digit pattern.
pub struct SizedFileGenerator {
    size: usize,
}

impl SizedFileGenerator {
    /// The size of the file, in bytes.
    pub closed spec fn size(&self) -> nat {
        self.size as nat
    }
}

impl FileGenerator for SizedFileGenerator {
    open spec fn file_count(&self) -> nat {
        1
    }

    open spec fn file_content(&self, j: nat) -> Seq<u8> {
        pattern_bytes(self.size())
    }

    fn write<PG: FilenameGenerator, F: FileWriter>(
        &self,
        path_generator: &mut PG,
        file_writer: &mut F,
    ) -> (r: std::io::Result<()>) {
        let buffer = pattern_content(self.size);
        let path = path_generator.generate();
        let r = file_writer.write(path, buffer);
        proof {
            let after = file_writer.requests();
            assert(after.subrange(0, after.len() - 1) == old(file_writer).requests());
        }
        r
    }
}

/// Runs an inner generator `count` times in a row, against the same path
/// generator and sink, so that the paths keep advancing across runs. Stops
/// at the first failure.
pub struct RepeatFileGenerator<G> {
    count: usize,
    generator: G,
}

impl<G> RepeatFileGenerator<G> {
    /// How many times the inner generator runs.
    pub closed spec fn count(&self) -> nat {
        self.count as nat
    }

    /// The inner generator.
    pub closed spec fn inner(&self) -> G {
        self.generator
    }
}

impl<G: FileGenerator> FileGenerator for RepeatFileGenerator<G> {
    open spec fn file_count(&self) -> nat {
        self.count() * self.inner().file_count()
    }

    open spec fn file_content(&self, j: nat) -> Seq<u8> {
        self.inner().file_content(j % self.inner().file_count())
    }

    fn write<PG: FilenameGenerator, F: FileWriter>(
        &self,
        path_generator: &mut PG,
        file_writer: &mut F,
    ) -> (r: std::io::Result<()>) {
        let ghost paths0 = *path_generator;
        let ghost before = file_writer.requests();
        let ghost n = before.len();
        let ghost c = self.generator.file_count();
        let mut i: usize = 0;
        while i < self.count
            invariant
                i <= self.count,
                c == self.generator.file_count(),
                before == old(file_writer).requests(),
                paths0 == *old(path_generator),
                paths0.remaining() >= self.count * c,
                n == before.len(),
                file_writer.requests().len() == n + i * c,
                file_writer.requests().subrange(0, n as int) == before,
                forall|j: int|
                    n <= j < file_writer.requests().len() ==> (#[trigger] file_writer.requests()[j]).0
                        == paths0.path_at((j - n) as nat) && file_writer.requests()[j].1
                        == self.generator.file_content(((j - n) as nat) % c)
                        && file_writer.requests()[j].2 is Ok,
                path_generator.remaining() + i * c == paths0.remaining(),
                forall|x: nat| #[trigger] path_generator.path_at(x) == paths0.path_at((x + i * c) as nat),
            decreases self.count - i,
        {
            let ghost paths_mid = *path_generator;
            let ghost mid = file_writer.requests();
            proof {
                lemma_mul_nonnegative(i as int, c as int);
                lemma_mul_is_distributive_add_other_way(c as int, i as int, 1);
                lemma_mul_inequality(i as int + 1, self.count as int, c as int);
            }
            let res = self.generator.write(path_generator, file_writer);
            proof {
                let after = file_writer.requests();
                let base = n + i * c;
                assert(after.subrange(0, n as int) =~= before) by {
                    assert(after.subrange(0, n as int) =~= after.subrange(0, base as int).subrange(0, n as int));
                }
                assert forall|j: int| base <= j < after.len() implies
                    (#[trigger] after[j]).0 == paths0.path_at((j - n) as nat)
                    && after[j].1 == self.generator.file_content(((j - n) as nat) % c) by {
                    let t = j - base;
                    assert(paths_mid.path_at(t as nat) == paths0.path_at((t + i * c) as nat));
                    lemma_mod_multiples_vanish(i as int, t, c as int);
                    lemma_small_mod(t as nat, c);
                }
                assert forall|j: int| n <= j < base implies (#[trigger] after[j]) == mid[j] by {
                    assert(after.subrange(0, mid.len() as int)[j] == after[j]);
                }
            }
            if res.is_err() {
                return res;
            }
            i = i + 1;
        }
        Ok(())
    }
}

/// A run of a one-file generator repeated `count` times asks the sink for
/// at most `count` writes, each of the generator's pattern content at the
/// next path in turn. It succeeds exactly when it made all `count` writes
/// and every one succeeded. When it fails, the failure is the sink's answer
/// to the last write it asked for, every earlier write succeeded, and none
/// was asked for after it.
pub proof fn lemma_repeat_write_count<PG: FilenameGenerator>(
    g: RepeatFileGenerator<SizedFileGenerator>,
    paths0: PG,
    paths1: PG,
    before: Seq<WriteRecord>,
    after: Seq<WriteRecord>,
    r: std::io::Result<()>,
)
    requires
        run_outcome(g.file_count(), |j: nat| g.file_content(j), paths0, paths1, before, after, r),
    ensures
        before.len() <= after.len() <= before.len() + g.count(),
        after.subrange(0, before.len() as int) == before,
        forall|j: int|
            before.len() <= j < after.len() ==> (#[trigger] after[j]).0 == paths0.path_at(
                (j - before.len()) as nat,
            ) && after[j].1 == pattern_bytes(g.inner().size()),
        forall|j: int| before.len() <= j < after.len() - 1 ==> (#[trigger] after[j]).2 is Ok,
        r is Ok <==> (after.len() == before.len() + g.count() && forall|j: int|
            before.len() <= j < after.len() ==> (#[trigger] after[j]).2 is Ok),
        r is Err ==> after.len() > before.len() && after.last().2 == r,
{
    assert(g.file_count() == g.count()) by {
        lemma_mul_basics(g.count() as int);
    }
    if r is Err {
        assert(after.last().2 is Err);
    }
}

/// A repeat of count zero asks nothing of the sink, takes no path, and
/// succeeds.
pub proof fn lemma_repeat_zero<G: FileGenerator, PG: FilenameGenerator>(
    g: RepeatFileGenerator<G>,
    paths0: PG,
    paths1: PG,
    before: Seq<WriteRecord>,
    after: Seq<WriteRecord>,
    r: std::io::Result<()>,
)
    requires
        g.count() == 0,
        run_outcome(g.file_count(), |j: nat| g.file_content(j), paths0, paths1, before, after, r),
    ensures
        after == before,
        r is Ok,
        paths1.remaining() == paths0.remaining(),
        forall|i: nat| #[trigger] paths1.path_at(i) == paths0.path_at(i),
{
    assert(g.file_count() == 0) by {
        lemma_mul_basics(g.inner().file_count() as int);
    }
    assert(after =~= before);
    assert forall|i: nat| #[trigger] paths1.path_at(i) == paths0.path_at(i) by {
        assert(paths1.path_at(i) == paths0.path_at(i + 0));
    }
}

/// Generating `count` files of `size` bytes into an empty memory sink, with
/// a fresh ordinal generator rooted at `base`, succeeds and leaves exactly
/// the files `base/0`, `base/1`, ..., in that order, one per count, each
/// holding the pattern content of `size` bytes whatever its position.
pub proof fn lemma_generate_into_memory(
    base: Seq<char>,
    g: RepeatFileGenerator<SizedFileGenerator>,
    paths0: OrdinalPathFilenameGenerator,
    paths1: OrdinalPathFilenameGenerator,
    sink0: MemoryFileWriter,
    sink1: MemoryFileWriter,
    r: std::io::Result<()>,
)
    requires
        paths0.root_dir() == base,
        paths0.cursor() == 0,
        sink0.contents() == Seq::<(Seq<char>, Seq<u8>)>::empty(),
        run_outcome(
            g.file_count(),
            |j: nat| g.file_content(j),
            paths0,
            paths1,
            sink0.requests(),
            sink1.requests(),
            r,
        ),
    ensures
        r is Ok,
        sink1.contents() == Seq::new(
            g.count(),
            |i: int| (join_path(base, decimal(i as nat)), pattern_bytes(g.inner().size())),
        ),
{
    let after = sink1.requests();
    lemma_repeat_write_count(g, paths0, paths1, sink0.requests(), after, r);
    lemma_ordinal_paths(base, paths0);
    assert(sink0.requests().len() == 0);
    if r is Err {
        assert(after.last().2 is Ok);
    }
    assert(sink1.contents() =~= Seq::new(
        g.count(),
        |i: int| (join_path(base, decimal(i as nat)), pattern_bytes(g.inner().size())),
    )) by {
        assert forall|i: int| 0 <= i < g.count() implies #[trigger] sink1.contents()[i] == (
        join_path(base, decimal(i as nat)), pattern_bytes(g.inner().size())) by {
            assert(after[i].0 == paths0.path_at(i as nat));
        }
    }
}

/// Every file that a one-file generator of `size` bytes hands the sink
/// holds the same pattern content of `size` bytes, whatever the state of
/// the path generator and so whatever ordinal the file gets. A run makes at
/// most one request, at the next path, and on success exactly one.
pub proof fn lemma_sized_content<PG: FilenameGenerator>(
    g: SizedFileGenerator,
    paths0: PG,
    paths1: PG,
    before: Seq<WriteRecord>,
    after: Seq<WriteRecord>,
    r: std::io::Result<()>,
)
    requires
        run_outcome(g.file_count(), |j: nat| g.file_content(j), paths0, paths1, before, after, r),
    ensures
        before.len() <= after.len() <= before.len() + 1,
        r is Ok ==> after.len() == before.len() + 1,
        forall|j: int|
            before.len() <= j < after.len() ==> (#[trigger] after[j]).0 == paths0.path_at(0)
                && after[j].1 == pattern_bytes(g.size()),
{
}

} // verus!
