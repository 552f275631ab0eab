use drivespeedrs::bench::{
    BenchmarkRunner, OpCursor, OpenMode, TestKind, TestSpec, TestStep, MIB, RANDOM_BLOCK_SIZE,
    RANDOM_TEST_CAP,
    SEQUENTIAL_BLOCK_SIZE,
};
use std::path::Path;

fn spec_of(runner: &BenchmarkRunner, kind: TestKind) -> TestSpec {
    runner.test_spec(kind).expect("plannable test")
}

fn all_offsets(spec: TestSpec) -> Vec<u64> {
    let mut cursor = OpCursor::new(spec);
    let mut offsets = Vec::new();
    while let Some(off) = cursor.next_offset() {
        offsets.push(off);
    }
    offsets
}

#[test]
fn runner_sample_size_is_size_mb_mebibytes() {
    let r = BenchmarkRunner::new("/mnt/usb", 512);
    assert_eq!(r.total_size_bytes, 512 * 1024 * 1024);
    assert_eq!(r.target_dir, "/mnt/usb");
    let r = BenchmarkRunner::new("/mnt/usb", 256);
    assert_eq!(r.total_size_bytes, 268_435_456);
    assert_eq!(MIB, 1_048_576);
}

#[test]
fn runner_test_file_is_joined_onto_target_dir() {
    let cases = ["/mnt/usb", "/mnt/usb/", "/", "relative/dir", "", "/run/media/kevin/ExtremeSSD"];
    for dir in cases {
        let r = BenchmarkRunner::new(dir, 1);
        let expected = Path::new(dir).join(".drivespeed_test_tmp.bin");
        assert_eq!(r.test_file_path, expected.to_str().unwrap(), "dir {:?}", dir);
    }
    assert_eq!(
        BenchmarkRunner::new("/mnt/usb", 1).test_file_path,
        "/mnt/usb/.drivespeed_test_tmp.bin"
    );
    assert_eq!(BenchmarkRunner::new("/", 1).test_file_path, "/.drivespeed_test_tmp.bin");
}

#[test]
fn run_order_is_write_then_read_sequential_then_random() {
    assert_eq!(
        TestKind::run_order(),
        vec![
            TestKind::SequentialWrite,
            TestKind::SequentialRead,
            TestKind::RandomWrite,
            TestKind::RandomRead
        ]
    );
}

#[test]
fn test_names_and_labels() {
    assert_eq!(TestKind::SequentialWrite.test_name(), "Sequential Write (1M)");
    assert_eq!(TestKind::SequentialRead.test_name(), "Sequential Read  (1M)");
    assert_eq!(TestKind::RandomWrite.test_name(), "Random 4K Write       ");
    assert_eq!(TestKind::RandomRead.test_name(), "Random 4K Read         ");
    assert_eq!(TestKind::SequentialWrite.progress_label(), "Sequential Write (1MB)");
    assert_eq!(TestKind::SequentialRead.progress_label(), "Sequential Read  (1MB)");
    assert_eq!(TestKind::RandomWrite.progress_label(), "Random 4K Write       ");
    assert_eq!(TestKind::RandomRead.progress_label(), "Random 4K Read        ");
}

#[test]
fn kinds_and_block_sizes() {
    assert!(TestKind::SequentialWrite.is_write());
    assert!(!TestKind::SequentialRead.is_write());
    assert!(TestKind::RandomWrite.is_write());
    assert!(!TestKind::RandomRead.is_write());
    assert!(!TestKind::SequentialWrite.is_random());
    assert!(TestKind::RandomRead.is_random());
    assert_eq!(TestKind::SequentialRead.block_size(), 1024 * 1024);
    assert_eq!(TestKind::RandomWrite.block_size(), 4 * 1024);
    assert_eq!(SEQUENTIAL_BLOCK_SIZE, 1_048_576);
    assert_eq!(RANDOM_BLOCK_SIZE, 4096);
    assert_eq!(RANDOM_TEST_CAP, 64 * 1024 * 1024);
}

#[test]
fn sequential_plan_covers_the_whole_file() {
    let r = BenchmarkRunner::new("/tmp", 512);
    for kind in [TestKind::SequentialWrite, TestKind::SequentialRead] {
        let s = spec_of(&r, kind);
        assert_eq!(s.kind, kind);
        assert_eq!(s.block_size, 1_048_576);
        assert_eq!(s.file_bytes, 536_870_912);
        assert_eq!(s.test_bytes, 536_870_912);
        assert_eq!(s.num_ops, 512);
    }
}

#[test]
fn random_plan_is_an_eighth_capped_at_64_mib() {
    // 512 MiB: an eighth is exactly 64 MiB.
    let s = spec_of(&BenchmarkRunner::new("/tmp", 512), TestKind::RandomWrite);
    assert_eq!(s.block_size, 4096);
    assert_eq!(s.test_bytes, 67_108_864);
    assert_eq!(s.num_ops, 16_384);
    // 100 MiB: an eighth is 12.5 MiB.
    let s = spec_of(&BenchmarkRunner::new("/tmp", 100), TestKind::RandomRead);
    assert_eq!(s.test_bytes, 13_107_200);
    assert_eq!(s.num_ops, 3_200);
    // 1024 MiB: an eighth would be 128 MiB, capped at 64 MiB.
    let s = spec_of(&BenchmarkRunner::new("/tmp", 1024), TestKind::RandomRead);
    assert_eq!(s.test_bytes, 67_108_864);
    assert_eq!(s.num_ops, 16_384);
    // 1 MiB: 128 KiB in 32 blocks.
    let s = spec_of(&BenchmarkRunner::new("/tmp", 1), TestKind::RandomWrite);
    assert_eq!(s.test_bytes, 131_072);
    assert_eq!(s.num_ops, 32);
}

#[test]
fn empty_sample_has_no_random_plan() {
    let r = BenchmarkRunner::new("/tmp", 0);
    assert_eq!(r.total_size_bytes, 0);
    assert!(r.test_spec(TestKind::RandomWrite).is_none());
    assert!(r.test_spec(TestKind::RandomRead).is_none());
    let s = spec_of(&r, TestKind::SequentialWrite);
    assert_eq!(s.num_ops, 0);
    assert!(all_offsets(s).is_empty());
}

#[test]
fn sequential_cursor_walks_blocks_in_file_order() {
    let s = spec_of(&BenchmarkRunner::new("/tmp", 4), TestKind::SequentialWrite);
    let offsets = all_offsets(s);
    assert_eq!(offsets, vec![0, 1_048_576, 2_097_152, 3_145_728]);
}

#[test]
fn cursor_stops_after_num_ops_and_stays_stopped() {
    let s = spec_of(&BenchmarkRunner::new("/tmp", 2), TestKind::RandomRead);
    let mut c = OpCursor::new(s);
    let mut n = 0;
    while !c.is_done() {
        assert!(c.next_offset().is_some());
        n += 1;
    }
    assert_eq!(n, s.num_ops);
    assert_eq!(c.issued(), s.num_ops);
    assert_eq!(c.next_offset(), None);
    assert_eq!(c.next_offset(), None);
    assert_eq!(c.issued(), s.num_ops);
}

#[test]
fn random_offsets_are_aligned_and_inside_the_written_file() {
    let r = BenchmarkRunner::new("/tmp", 3);
    let written = {
        let s = spec_of(&r, TestKind::SequentialWrite);
        (s.num_ops * s.block_size) as u64
    };
    assert_eq!(written, 3 * 1_048_576);
    for kind in [TestKind::RandomWrite, TestKind::RandomRead] {
        let s = spec_of(&r, kind);
        let offsets = all_offsets(s);
        assert_eq!(offsets.len(), s.num_ops);
        assert_eq!(s.num_ops, 96);
        // The blocks are drawn at random: 96 draws from 768 blocks all landing
        // on one block has probability 768^-95, so this holds in practice.
        assert!(offsets.iter().any(|&o| o != offsets[0]));
        for off in offsets {
            assert_eq!(off % 4096, 0);
            assert!(off + 4096 <= written);
        }
    }
}

#[test]
fn tiny_files_plan_no_random_operations() {
    // Below 32 KiB an eighth of the file is less than one 4 KiB block.
    let r = BenchmarkRunner { target_dir: "/tmp".to_string(), test_file_path: "/tmp/x".to_string(), total_size_bytes: 4096 };
    let s = spec_of(&r, TestKind::RandomRead);
    assert_eq!(s.test_bytes, 512);
    assert_eq!(s.num_ops, 0);
    assert!(all_offsets(s).is_empty());
    assert_eq!(s.block_offset(0), 0);
    // At 32 KiB the random test transfers one block, somewhere in the file.
    let r = BenchmarkRunner { target_dir: "/tmp".to_string(), test_file_path: "/tmp/x".to_string(), total_size_bytes: 32768 };
    let s = spec_of(&r, TestKind::RandomWrite);
    assert_eq!(s.num_ops, 1);
    let offsets = all_offsets(s);
    assert_eq!(offsets.len(), 1);
    assert_eq!(offsets[0] % 4096, 0);
    assert!(offsets[0] <= 32768 - 4096);
}

#[test]
fn block_offset_is_index_times_block_size() {
    let s = spec_of(&BenchmarkRunner::new("/tmp", 8), TestKind::RandomWrite);
    assert_eq!(s.block_offset(0), 0);
    assert_eq!(s.block_offset(3), 12_288);
    assert_eq!(s.block_offset(2047), 8 * 1_048_576 - 4096);
}

#[test]
fn read_buffer_is_one_zeroed_block() {
    let s = spec_of(&BenchmarkRunner::new("/tmp", 1), TestKind::SequentialRead);
    let b = s.io_buffer();
    assert_eq!(b.len(), 1_048_576);
    assert!(b.iter().all(|&x| x == 0));
    let s = spec_of(&BenchmarkRunner::new("/tmp", 1), TestKind::RandomRead);
    let b = s.io_buffer();
    assert_eq!(b.len(), 4096);
    assert!(b.iter().all(|&x| x == 0));
}

#[test]
fn write_buffer_is_one_block_of_random_bytes() {
    let s = spec_of(&BenchmarkRunner::new("/tmp", 1), TestKind::SequentialWrite);
    let b = s.io_buffer();
    assert_eq!(b.len(), 1_048_576);
    // The bytes are random: a megabyte of them all zero has probability
    // 256^-1048576, so this holds in practice.
    assert!(b.iter().any(|&x| x != 0));
    let s = spec_of(&BenchmarkRunner::new("/tmp", 1), TestKind::RandomWrite);
    assert_eq!(s.io_buffer().len(), 4096);
}

#[test]
fn result_records_the_test() {
    let r = BenchmarkRunner::new("/tmp", 100);
    let s = spec_of(&r, TestKind::SequentialRead);
    let res = s.result(2_000_000_000);
    assert_eq!(res.test_name, "Sequential Read  (1M)");
    assert_eq!(res.block_size_kb, 1024);
    assert_eq!(res.total_bytes, 104_857_600);
    assert_eq!(res.num_ops, 100);
    assert_eq!(res.elapsed_nanos, 2_000_000_000);
    let s = spec_of(&r, TestKind::RandomWrite);
    let res = s.result(5);
    assert_eq!(res.test_name, "Random 4K Write       ");
    assert_eq!(res.block_size_kb, 4);
    assert_eq!(res.total_bytes, 13_107_200);
    assert_eq!(res.num_ops, 3_200);
}

#[test]
fn step_plans_invalidate_the_cache_around_the_clock() {
    let write = vec![
        TestStep::Open(OpenMode::CreateTruncate),
        TestStep::PrepareBuffer,
        TestStep::StartClock,
        TestStep::TransferBlocks,
        TestStep::SyncToDisk,
        TestStep::StopClock,
        TestStep::EvictCache,
    ];
    assert_eq!(TestKind::SequentialWrite.steps(), write);
    let mut random_write = write.clone();
    random_write[0] = TestStep::Open(OpenMode::WriteExisting);
    assert_eq!(TestKind::RandomWrite.steps(), random_write);
    let read = vec![
        TestStep::Open(OpenMode::ReadOnly),
        TestStep::EvictCache,
        TestStep::PrepareBuffer,
        TestStep::StartClock,
        TestStep::TransferBlocks,
        TestStep::StopClock,
    ];
    assert_eq!(TestKind::SequentialRead.steps(), read);
    assert_eq!(TestKind::RandomRead.steps(), read);
}

#[test]
fn random_draws_range_over_every_whole_block() {
    let s = spec_of(&BenchmarkRunner::new("/tmp", 8), TestKind::RandomRead);
    assert_eq!(s.last_block_index(), 2047);
    assert_eq!(s.block_offset(s.last_block_index()), 8 * 1_048_576 - 4096);
    let s = spec_of(&BenchmarkRunner::new("/tmp", 1), TestKind::RandomWrite);
    assert_eq!(s.last_block_index(), 255);
    // The draws are random: 2048 draws from 256 blocks all missing the upper
    // half has probability 2^-2048, so blocks there come up in practice.
    let mut high = false;
    for _ in 0..64 {
        let offsets = all_offsets(s);
        if offsets.iter().any(|&o| o >= 512 * 1024) {
            high = true;
        }
    }
    assert!(high);
}
