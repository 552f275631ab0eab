//! The benchmark plan: the sample size, where the test file lives, the four
//! tests and their block sizes, and which offsets each test reads or writes.
//!
//! The file I/O, the timing and the cache eviction are done by the caller; this
//! module decides what they act on.
use vstd::prelude::*;
use rand::Rng;

use crate::paths::{path_join, path_join_spec};

verus! {

/// Bytes in one mebibyte.
pub const MIB: usize = 1048576;

/// Block size of the sequential tests (1 MiB).
pub const SEQUENTIAL_BLOCK_SIZE: usize = 1048576;

/// Block size of the random tests (4 KiB).
pub const RANDOM_BLOCK_SIZE: usize = 4096;

/// Upper bound on the bytes that a random test transfers (64 MiB).
pub const RANDOM_TEST_CAP: usize = 67108864;

/// Name of the temporary test file, created inside the target directory.
pub open spec fn test_file_name_spec() -> Seq<char> {
    ".drivespeed_test_tmp.bin"@
}

/// The four tests, in the order in which they run.
#[derive(Clone, Copy, Debug, PartialEq, Eq, Structural)]
pub enum TestKind {
    SequentialWrite,
    SequentialRead,
    RandomWrite,
    RandomRead,
}

/// Title of a test in the results table.
pub open spec fn test_name_spec(kind: TestKind) -> Seq<char> {
    match kind {
        TestKind::SequentialWrite => "Sequential Write (1M)"@,
        TestKind::SequentialRead => "Sequential Read  (1M)"@,
        TestKind::RandomWrite => "Random 4K Write       "@,
        TestKind::RandomRead => "Random 4K Read         "@,
    }
}

/// Label of a test on its progress bar.
pub open spec fn progress_label_spec(kind: TestKind) -> Seq<char> {
    match kind {
        TestKind::SequentialWrite => "Sequential Write (1MB)"@,
        TestKind::SequentialRead => "Sequential Read  (1MB)"@,
        TestKind::RandomWrite => "Random 4K Write       "@,
        TestKind::RandomRead => "Random 4K Read        "@,
    }
}

/// Block size of a test, in bytes.
pub open spec fn block_size_of(kind: TestKind) -> int {
    if kind.is_random_spec() {
        RANDOM_BLOCK_SIZE as int
    } else {
        SEQUENTIAL_BLOCK_SIZE as int
    }
}

/// Bytes that a random test transfers on a test file of `file_bytes` bytes:
/// an eighth of the file, at most 64 MiB.
pub open spec fn random_test_bytes(file_bytes: int) -> int {
    if file_bytes / 8 <= RANDOM_TEST_CAP as int {
        file_bytes / 8
    } else {
        RANDOM_TEST_CAP as int
    }
}

impl TestKind {
    pub open spec fn is_random_spec(&self) -> bool {
        self is RandomWrite || self is RandomRead
    }

    pub open spec fn is_write_spec(&self) -> bool {
        self is SequentialWrite || self is RandomWrite
    }

    /// Whether the test seeks to a random block before each transfer.
    #[verifier::when_used_as_spec(is_random_spec)]
    pub fn is_random(&self) -> (r: bool)
        ensures
            r == self.is_random_spec(),
    {
        match self {
            TestKind::RandomWrite | TestKind::RandomRead => true,
            _ => false,
        }
    }

    /// Whether the test writes (rather than reads) the test file.
    #[verifier::when_used_as_spec(is_write_spec)]
    pub fn is_write(&self) -> (r: bool)
        ensures
            r == self.is_write_spec(),
    {
        match self {
            TestKind::SequentialWrite | TestKind::RandomWrite => true,
            _ => false,
        }
    }

    /// Block size of the test, in bytes.
    pub fn block_size(&self) -> (r: usize)
        ensures
            r == block_size_of(*self),
    {
        if self.is_random() {
            RANDOM_BLOCK_SIZE
        } else {
            SEQUENTIAL_BLOCK_SIZE
        }
    }

    /// Title of the test in the results table.
    pub fn test_name(&self) -> (r: String)
        ensures
            r@ == test_name_spec(*self),
    {
        let s = match self {
            TestKind::SequentialWrite => "Sequential Write (1M)",
            TestKind::SequentialRead => "Sequential Read  (1M)",
            TestKind::RandomWrite => "Random 4K Write       ",
            TestKind::RandomRead => "Random 4K Read         ",
        };
        s.to_owned()
    }

    /// Label of the test on its progress bar.
    pub fn progress_label(&self) -> (r: String)
        ensures
            r@ == progress_label_spec(*self),
    {
        let s = match self {
            TestKind::SequentialWrite => "Sequential Write (1MB)",
            TestKind::SequentialRead => "Sequential Read  (1MB)",
            TestKind::RandomWrite => "Random 4K Write       ",
            TestKind::RandomRead => "Random 4K Read        ",
        };
        s.to_owned()
    }

    /// The four tests in the order in which a benchmark runs them.
    pub fn run_order() -> (r: Vec<TestKind>)
        ensures
            r@ == seq![
                TestKind::SequentialWrite,
                TestKind::SequentialRead,
                TestKind::RandomWrite,
                TestKind::RandomRead,
            ],
    {
        let mut v: Vec<TestKind> = Vec::new();
        v.push(TestKind::SequentialWrite);
        v.push(TestKind::SequentialRead);
        v.push(TestKind::RandomWrite);
        v.push(TestKind::RandomRead);
        v
    }
}

/// How a test opens the test file.
#[derive(Clone, Copy, Debug, PartialEq, Eq, Structural)]
pub enum OpenMode {
    /// Create the file, or empty it if it exists, for writing.
    CreateTruncate,
    /// Open the existing file for writing, keeping its contents.
    WriteExisting,
    /// Open the existing file for reading.
    ReadOnly,
}

/// One step of running a test.
#[derive(Clone, Copy, Debug, PartialEq, Eq, Structural)]
pub enum TestStep {
    /// Open the test file.
    Open(OpenMode),
    /// Drop the test file's pages from the operating system's cache.
    EvictCache,
    /// Make the block buffer (`TestSpec::io_buffer`).
    PrepareBuffer,
    /// Start the clock.
    StartClock,
    /// Transfer the blocks that `OpCursor::next_offset` hands out, seeking
    /// before each one in a random test.
    TransferBlocks,
    /// Flush the written data to the device.
    SyncToDisk,
    /// Stop the clock.
    StopClock,
}

/// The steps of test `kind`, in order. A read test evicts the file from the
/// cache before it starts the clock, so that it reads the device; a write test
/// syncs before it stops the clock, so that the time covers the device
/// writes, and evicts the written pages afterwards.
pub open spec fn test_steps_spec(kind: TestKind) -> Seq<TestStep> {
    match kind {
        TestKind::SequentialWrite => seq![
            TestStep::Open(OpenMode::CreateTruncate),
            TestStep::PrepareBuffer,
            TestStep::StartClock,
            TestStep::TransferBlocks,
            TestStep::SyncToDisk,
            TestStep::StopClock,
            TestStep::EvictCache,
        ],
        TestKind::RandomWrite => seq![
            TestStep::Open(OpenMode::WriteExisting),
            TestStep::PrepareBuffer,
            TestStep::StartClock,
            TestStep::TransferBlocks,
            TestStep::SyncToDisk,
            TestStep::StopClock,
            TestStep::EvictCache,
        ],
        TestKind::SequentialRead | TestKind::RandomRead => seq![
            TestStep::Open(OpenMode::ReadOnly),
            TestStep::EvictCache,
            TestStep::PrepareBuffer,
            TestStep::StartClock,
            TestStep::TransferBlocks,
            TestStep::StopClock,
        ],
    }
}

/// Step `a` occurs in `steps` before step `b`.
pub open spec fn step_before(steps: Seq<TestStep>, a: TestStep, b: TestStep) -> bool {
    exists|i: int, j: int| 0 <= i < j < steps.len() && #[trigger] steps[i] == a && #[trigger] steps[j] == b
}

/// `steps` holds `step` at position `i`.
pub open spec fn step_at(steps: Seq<TestStep>, step: TestStep, i: int) -> bool {
    0 <= i < steps.len() && steps[i] == step
}

impl TestKind {
    /// The steps of this test, in order.
    pub fn steps(&self) -> (r: Vec<TestStep>)
        ensures
            r@ == test_steps_spec(*self),
    {
        let mut v: Vec<TestStep> = Vec::new();
        match self {
            TestKind::SequentialWrite | TestKind::RandomWrite => {
                if self.is_random() {
                    v.push(TestStep::Open(OpenMode::WriteExisting));
                } else {
                    v.push(TestStep::Open(OpenMode::CreateTruncate));
                }
                v.push(TestStep::PrepareBuffer);
                v.push(TestStep::StartClock);
                v.push(TestStep::TransferBlocks);
                v.push(TestStep::SyncToDisk);
                v.push(TestStep::StopClock);
                v.push(TestStep::EvictCache);
            },
            TestKind::SequentialRead | TestKind::RandomRead => {
                v.push(TestStep::Open(OpenMode::ReadOnly));
                v.push(TestStep::EvictCache);
                v.push(TestStep::PrepareBuffer);
                v.push(TestStep::StartClock);
                v.push(TestStep::TransferBlocks);
                v.push(TestStep::StopClock);
            },
        }
        assert(v@ =~= test_steps_spec(*self));
        v
    }
}

/// Cache invalidation: every test opens the file first and times exactly its
/// transfers, each step happening once. A read test evicts the file from the
/// cache before the clock starts and never while it runs; a write test syncs
/// to the device before the clock stops and evicts the written pages after it.
/// Only the sequential write creates or empties the file.
pub proof fn lemma_test_steps_invalidate_cache(kind: TestKind)
    ensures
        ({
            let s = test_steps_spec(kind);
            &&& s[0] is Open
            &&& step_before(s, TestStep::StartClock, TestStep::TransferBlocks)
            &&& step_before(s, TestStep::TransferBlocks, TestStep::StopClock)
            &&& step_before(s, TestStep::PrepareBuffer, TestStep::StartClock)
            &&& forall|i: int, j: int|
                step_at(s, s[i], i) && step_at(s, s[i], j) ==> i == j
            &&& !kind.is_write_spec() ==> {
                &&& step_before(s, TestStep::EvictCache, TestStep::StartClock)
                &&& forall|i: int| #[trigger] step_at(s, TestStep::SyncToDisk, i) ==> false
            }
            &&& kind.is_write_spec() ==> {
                &&& step_before(s, TestStep::TransferBlocks, TestStep::SyncToDisk)
                &&& step_before(s, TestStep::SyncToDisk, TestStep::StopClock)
                &&& step_before(s, TestStep::StopClock, TestStep::EvictCache)
            }
            &&& forall|i: int, j: int, k: int|
                #[trigger] step_at(s, TestStep::StartClock, i) && #[trigger] step_at(s, TestStep::EvictCache, j)
                    && #[trigger] step_at(s, TestStep::StopClock, k) ==> j < i || k < j
            &&& (s[0] == TestStep::Open(OpenMode::CreateTruncate) <==> kind == TestKind::SequentialWrite)
        }),
{
    let s = test_steps_spec(kind);
    if kind.is_write_spec() {
        assert(s[2] == TestStep::StartClock && s[3] == TestStep::TransferBlocks);
        assert(s[4] == TestStep::SyncToDisk && s[5] == TestStep::StopClock);
        assert(s[6] == TestStep::EvictCache && s[1] == TestStep::PrepareBuffer);
    } else {
        assert(s[3] == TestStep::StartClock && s[4] == TestStep::TransferBlocks);
        assert(s[5] == TestStep::StopClock && s[2] == TestStep::PrepareBuffer);
        assert(s[1] == TestStep::EvictCache);
    }
}

/// What one test does: which kind it is, its block size, the size of the test
/// file it works on, how many bytes it transfers and in how many operations.
#[derive(Clone, Copy, Debug, PartialEq, Eq, Structural)]
pub struct TestSpec {
    pub kind: TestKind,
    pub block_size: usize,
    pub file_bytes: usize,
    pub test_bytes: usize,
    pub num_ops: usize,
}

impl TestSpec {
    /// The test as the benchmark plans it for a test file of `file_bytes` bytes.
    pub open spec fn wf(self) -> bool {
        &&& self.block_size == block_size_of(self.kind)
        &&& self.kind.is_random_spec() ==> {
            &&& self.file_bytes >= self.block_size
            &&& self.test_bytes == random_test_bytes(self.file_bytes as int)
        }
        &&& !self.kind.is_random_spec() ==> self.test_bytes == self.file_bytes
        &&& self.num_ops == self.test_bytes / self.block_size
    }

    /// Index of the last whole block of the test file, the highest block a
    /// random test may pick.
    pub open spec fn last_block(self) -> int {
        (self.file_bytes - self.block_size) / (self.block_size as int)
    }

    /// A buffer of one block: zeros for a read test, random bytes for a
    /// write test (so that compressing controllers cannot shortcut it).
    pub fn io_buffer(&self) -> (r: Vec<u8>)
        requires
            self.wf(),
        ensures
            r@.len() == self.block_size,
            !self.kind.is_write_spec() ==> forall|i: int| 0 <= i < r@.len() ==> r@[i] == 0u8,
    {
        let mut buf: Vec<u8> = Vec::new();
        let mut i: usize = 0;
        while i < self.block_size
            invariant
                i <= self.block_size,
                buf@.len() == i,
                forall|j: int| 0 <= j < i ==> buf@[j] == 0u8,
            decreases self.block_size - i,
        {
            buf.push(0u8);
            i = i + 1;
        }
        if self.kind.is_write() {
            fill_random(&mut buf);
        }
        buf
    }

    /// Index of the last whole block of the test file: a random test draws
    /// its blocks from `0..=last_block_index()`.
    pub fn last_block_index(&self) -> (r: usize)
        requires
            self.wf(),
            self.kind.is_random_spec(),
        ensures
            r == self.last_block(),
    {
        (self.file_bytes - self.block_size) / self.block_size
    }

    /// Offset of block `block_index` in the test file.
    pub fn block_offset(&self, block_index: usize) -> (r: u64)
        requires
            self.wf(),
            block_index * self.block_size + self.block_size <= self.file_bytes,
        ensures
            r == block_index * self.block_size,
            r + self.block_size <= self.file_bytes,
            (r as int) % (self.block_size as int) == 0,
    {
        proof {
            if self.kind.is_random_spec() {
                assert((block_index * 4096) % 4096 == 0) by (nonlinear_arith);
            } else {
                assert((block_index * 1048576) % 1048576 == 0) by (nonlinear_arith);
            }
        }
        let off = block_index * self.block_size;
        off as u64
    }

    /// The record of a finished run of this test that took `elapsed_nanos`
    /// nanoseconds.
    pub fn result(&self, elapsed_nanos: u128) -> (r: BenchmarkResult)
        requires
            self.wf(),
        ensures
            r.test_name@ == test_name_spec(self.kind),
            r.block_size_kb == self.block_size / 1024,
            r.total_bytes == self.test_bytes,
            r.num_ops == self.num_ops,
            r.elapsed_nanos == elapsed_nanos,
    {
        BenchmarkResult {
            test_name: self.kind.test_name(),
            block_size_kb: self.block_size / 1024,
            total_bytes: self.test_bytes,
            num_ops: self.num_ops,
            elapsed_nanos,
        }
    }
}

/// The measured outcome of one test. The throughput, IOPS and latency figures
/// are derived from `total_bytes`, `num_ops` and `elapsed_nanos`.
#[derive(Clone, Debug)]
pub struct BenchmarkResult {
    pub test_name: String,
    pub block_size_kb: usize,
    pub total_bytes: usize,
    pub num_ops: usize,
    pub elapsed_nanos: u128,
}

/// Steps through the operations of one test: each call of `next_offset`
/// hands out the file offset of the next block to transfer, until the test
/// has issued all its operations. The plan is a well-formed `TestSpec` and no
/// more operations are issued than it plans (the type's invariant).
#[derive(Debug)]
pub struct OpCursor {
    spec: TestSpec,
    issued: usize,
}

impl OpCursor {
    #[verifier::type_invariant]
    spec fn inv(self) -> bool {
        self.spec.wf() && self.issued <= self.spec.num_ops
    }

    /// The test this cursor steps through.
    pub closed spec fn plan_spec(&self) -> TestSpec {
        self.spec
    }

    /// How many operations the cursor has handed out so far.
    pub closed spec fn issued_spec(&self) -> usize {
        self.issued
    }

    /// The test this cursor steps through.
    #[verifier::when_used_as_spec(plan_spec)]
    pub fn plan(&self) -> (r: TestSpec)
        ensures
            r == self.plan_spec(),
            r.wf(),
            self.issued_spec() <= r.num_ops,
    {
        proof {
            use_type_invariant(self);
        }
        self.spec
    }

    /// How many operations the cursor has handed out so far.
    #[verifier::when_used_as_spec(issued_spec)]
    pub fn issued(&self) -> (r: usize)
        ensures
            r == self.issued_spec(),
            r <= self.plan_spec().num_ops,
    {
        proof {
            use_type_invariant(self);
        }
        self.issued
    }

    /// A cursor at the start of the test.
    pub fn new(spec: TestSpec) -> (r: OpCursor)
        requires
            spec.wf(),
        ensures
            r.plan() == spec,
            r.issued() == 0,
    {
        OpCursor { spec, issued: 0 }
    }

    /// Whether all operations of the test have been issued.
    pub fn is_done(&self) -> (r: bool)
        ensures
            r == (self.issued() == self.plan().num_ops),
    {
        self.issued == self.spec.num_ops
    }

    /// The offset of the next block to transfer, or `None` once the test has
    /// issued all its operations. A sequential test hands out the blocks in
    /// file order; a random test picks a whole block of the file at random.
    pub fn next_offset(&mut self) -> (r: Option<u64>)
        ensures
            final(self).plan() == old(self).plan(),
            final(self).issued() <= final(self).plan().num_ops,
            old(self).issued() == old(self).plan().num_ops ==> r is None && final(self).issued()
                == old(self).issued(),
            old(self).issued() < old(self).plan().num_ops ==> r is Some && final(self).issued()
                == old(self).issued() + 1,
            r matches Some(off) ==> {
                &&& !old(self).plan().kind.is_random_spec() ==> off == old(self).issued()
                    * old(self).plan().block_size
                &&& old(self).plan().kind.is_random_spec() ==> (off as int) / (old(
                    self,
                ).plan().block_size as int) <= old(self).plan().last_block()
                &&& (off as int) % (old(self).plan().block_size as int) == 0
                &&& off + old(self).plan().block_size <= old(self).plan().file_bytes
            },
    {
        proof {
            use_type_invariant(&*self);
        }
        if self.issued >= self.spec.num_ops {
            return None;
        }
        let spec = self.spec;
        let block_index: usize;
        if spec.kind.is_random() {
            block_index = random_block_index(spec.last_block_index());
            proof {
                assert(block_index * 4096 + 4096 <= spec.file_bytes) by (nonlinear_arith)
                    requires
                        block_index <= (spec.file_bytes - 4096) / 4096,
                        spec.file_bytes >= 4096,
                ;
            }
        } else {
            block_index = self.issued;
            proof {
                assert(block_index * 1048576 + 1048576 <= spec.file_bytes) by (nonlinear_arith)
                    requires
                        block_index < spec.file_bytes / 1048576,
                ;
            }
        }
        let off = spec.block_offset(block_index);
        proof {
            if spec.kind.is_random_spec() {
                assert((block_index * 4096) / 4096 == block_index) by (nonlinear_arith);
            }
        }
        self.issued = self.issued + 1;
        Some(off)
    }
}

/// Where a benchmark runs and how large its test file is.
pub struct BenchmarkRunner {
    pub target_dir: String,
    pub test_file_path: String,
    pub total_size_bytes: usize,
}

impl BenchmarkRunner {
    /// A runner for a test file of `size_mb` MiB in `target_dir`.
    pub fn new(target_dir: &str, size_mb: usize) -> (r: BenchmarkRunner)
        requires
            size_mb * MIB <= usize::MAX,
        ensures
            r.target_dir@ == target_dir@,
            r.test_file_path@ == path_join_spec(target_dir@, test_file_name_spec()),
            r.total_size_bytes == size_mb * MIB,
    {
        let name = ".drivespeed_test_tmp.bin";
        let test_file_path = path_join(target_dir, name);
        BenchmarkRunner {
            target_dir: target_dir.to_owned(),
            test_file_path,
            total_size_bytes: size_mb * MIB,
        }
    }

    /// The plan of test `kind` on this runner's test file, or `None` for a
    /// random test when the file holds less than one 4 KiB block.
    pub fn test_spec(&self, kind: TestKind) -> (r: Option<TestSpec>)
        ensures
            r is None <==> (kind.is_random_spec() && self.total_size_bytes < RANDOM_BLOCK_SIZE),
            r matches Some(s) ==> {
                &&& s.wf()
                &&& s.kind == kind
                &&& s.file_bytes == self.total_size_bytes
            },
    {
        let file_bytes = self.total_size_bytes;
        let block_size = kind.block_size();
        let test_bytes: usize;
        if kind.is_random() {
            if file_bytes < block_size {
                return None;
            }
            let eighth = file_bytes / 8;
            test_bytes = if eighth <= RANDOM_TEST_CAP {
                eighth
            } else {
                RANDOM_TEST_CAP
            };
        } else {
            test_bytes = file_bytes;
        }
        Some(TestSpec { kind, block_size, file_bytes, test_bytes, num_ops: test_bytes / block_size })
    }
}

/// A sequential test transfers the test file in whole blocks from the start:
/// all of it but a tail shorter than one block, and all of it when the file is
/// a whole number of MiB (as a runner's file always is).
pub proof fn lemma_sequential_covers_file(s: TestSpec)
    requires
        s.wf(),
        !s.kind.is_random_spec(),
    ensures
        s.num_ops * s.block_size <= s.file_bytes,
        s.file_bytes < (s.num_ops + 1) * s.block_size,
        s.file_bytes % MIB == 0 ==> s.num_ops * s.block_size == s.file_bytes,
{
    assert(s.num_ops * 1048576 <= s.file_bytes < (s.num_ops + 1) * 1048576) by (nonlinear_arith)
        requires
            s.num_ops == s.file_bytes / 1048576,
    ;
    assert(s.file_bytes % 1048576 == 0 ==> s.num_ops * 1048576 == s.file_bytes) by (nonlinear_arith)
        requires
            s.num_ops == s.file_bytes / 1048576,
    ;
}

/// A random test moves an eighth of the test file, but never more than
/// 64 MiB (the smaller of the two), in whole 4 KiB blocks, and moves that many
/// bytes less than one block's worth.
pub proof fn lemma_random_volume(s: TestSpec)
    requires
        s.wf(),
        s.kind.is_random_spec(),
    ensures
        s.num_ops * s.block_size <= s.test_bytes,
        s.test_bytes <= s.file_bytes / 8,
        s.test_bytes <= RANDOM_TEST_CAP,
        s.test_bytes == s.file_bytes / 8 || s.test_bytes == RANDOM_TEST_CAP,
        s.test_bytes < s.num_ops * s.block_size + s.block_size,
        s.block_size == 4096,
        s.last_block() >= 0,
{
    assert(s.num_ops * 4096 <= s.test_bytes < s.num_ops * 4096 + 4096) by (nonlinear_arith)
        requires
            s.num_ops == s.test_bytes / 4096,
    ;
}

/// Every block that a random test may pick lies inside the bytes that the
/// sequential write test of the same runner has written, so the random tests
/// only touch data laid down earlier in the run.
pub proof fn lemma_random_blocks_within_written_data(
    seq_write: TestSpec,
    random: TestSpec,
    block_index: int,
)
    requires
        seq_write.wf(),
        random.wf(),
        seq_write.kind == TestKind::SequentialWrite,
        random.kind.is_random_spec(),
        seq_write.file_bytes == random.file_bytes,
        seq_write.file_bytes % MIB == 0,
        0 <= block_index <= random.last_block(),
    ensures
        block_index * random.block_size + random.block_size <= seq_write.num_ops
            * seq_write.block_size,
{
    lemma_sequential_covers_file(seq_write);
    assert(block_index * 4096 + 4096 <= random.file_bytes) by (nonlinear_arith)
        requires
            block_index <= (random.file_bytes - 4096) / 4096,
            random.file_bytes >= 4096,
    ;
}

/// A sample of `size_mb` MiB is a whole number of MiB, and from one MiB on it
/// holds a 4 KiB block, so every test of the runner can be planned.
pub proof fn lemma_sample_is_whole_mib(size_mb: int)
    requires
        size_mb >= 0,
    ensures
        (size_mb * MIB) % (MIB as int) == 0,
        size_mb >= 1 ==> size_mb * MIB >= RANDOM_BLOCK_SIZE,
{
    assert((size_mb * 1048576) % 1048576 == 0) by (nonlinear_arith);
}

/// Draws a block index uniformly from `0..=max_index`, with
/// `rand::Rng::random_range` on the thread-local generator (`rand::rng`).
/// The contract claims only that the index lies in that range; which index
/// comes back is left open, as it depends on chance.
#[verifier::external_body]
fn random_block_index(max_index: usize) -> (r: usize)
    ensures
        r <= max_index,
{
    rand::rng().random_range(0..=max_index)
}

/// Overwrites every byte of `buf` with random bytes, with `rand::Rng::fill`
/// on the thread-local generator (`rand::rng`). The contract claims only that
/// the length is kept; the bytes themselves depend on chance.
#[verifier::external_body]
fn fill_random(buf: &mut Vec<u8>)
    ensures
        final(buf)@.len() == old(buf)@.len(),
{
    rand::rng().fill(&mut buf[..])
}

} // verus!
