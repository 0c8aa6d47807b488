use compactor::backend::decompression_worker_count_for_path;
use compactor::config::{compile_excludes, Compression};
use compactor::folder::{
    apply_estimate, classify_file, cluster_size, estimation_workers, hdd_sample_plan,
    skip_candidates, HddSamplePlan, compression_worker_count, configured_thread_count,
    is_direct_storage_runtime, path_is_same_or_child,
    normalized_path, round_up_to_cluster, validate_target, volume_device_path, volume_root_path, wide_null,
    worker_count_for_storage, Disposition, FileInfo, FileKind, FolderInfo, TargetFacts,
    AUTO_MAX_ANALYSIS_THREADS, AUTO_MAX_COMPRESSION_THREADS, FILE_ATTRIBUTE_ENCRYPTED,
    FILE_ATTRIBUTE_READONLY,
};

fn file(path: &str, logical: u64, physical: u64) -> FileInfo {
    FileInfo {
        path: path.to_string(),
        content_len: logical,
        modified_time: 0,
        estimate_valid: false,
        estimated_ratio_bits: 1.0f32.to_bits(),
        logical_size: logical,
        physical_size: physical,
        estimated_physical_size: physical,
    }
}

#[test]
fn analysis_workers_are_storage_aware() {
    assert_eq!(
        1,
        worker_count_for_storage(16, Some(true), 0, true, AUTO_MAX_ANALYSIS_THREADS)
    );
    assert_eq!(
        1,
        worker_count_for_storage(16, None, 0, true, AUTO_MAX_ANALYSIS_THREADS)
    );
    assert_eq!(
        1,
        worker_count_for_storage(1, Some(false), 0, true, AUTO_MAX_ANALYSIS_THREADS)
    );
    assert_eq!(
        8,
        worker_count_for_storage(16, Some(false), 0, true, AUTO_MAX_ANALYSIS_THREADS)
    );
    assert_eq!(
        4,
        worker_count_for_storage(16, Some(false), 4, true, AUTO_MAX_ANALYSIS_THREADS)
    );
    assert_eq!(
        8,
        worker_count_for_storage(16, Some(true), 0, false, AUTO_MAX_ANALYSIS_THREADS)
    );
    assert_eq!(
        16,
        worker_count_for_storage(32, Some(false), 0, true, AUTO_MAX_COMPRESSION_THREADS)
    );
    assert_eq!(
        16,
        worker_count_for_storage(4, Some(false), 16, true, AUTO_MAX_ANALYSIS_THREADS)
    );
}

#[test]
fn lzx_workers_are_conservatively_capped() {
    assert_eq!(
        1,
        compression_worker_count(4, Some(false), Compression::Lzx, 0, true)
    );
    assert_eq!(
        2,
        compression_worker_count(16, Some(false), Compression::Lzx, 0, true)
    );
    assert_eq!(
        1,
        compression_worker_count(16, Some(true), Compression::Lzx, 0, true)
    );
    assert_eq!(
        1,
        compression_worker_count(16, Some(false), Compression::Lzx, 1, true)
    );
    assert_eq!(
        16,
        compression_worker_count(32, Some(false), Compression::Xpress8k, 0, true)
    );
}

#[test]
fn decompression_auto_is_capped_but_manual_is_respected() {
    // A drive whose kind cannot be queried counts as one with a seek penalty.
    assert_eq!(1, decompression_worker_count_for_path(16, None, 0, true));
    assert_eq!(8, decompression_worker_count_for_path(32, Some(false), 0, true));
    assert_eq!(12, decompression_worker_count_for_path(32, Some(false), 12, true));
}

#[test]
fn configured_threads_are_clamped() {
    assert_eq!(1, configured_thread_count(0, 0, 8));
    assert_eq!(6, configured_thread_count(6, 0, 8));
    assert_eq!(16, configured_thread_count(4, 40, 8));
    assert_eq!(3, configured_thread_count(64, 3, 8));
}

#[test]
fn skipped_files_keep_totals_without_retaining_paths() {
    let mut folder = FolderInfo::new("C:\\Games");
    folder.push(FileKind::Skipped, file("skip.bin", 8192, 8192));

    assert_eq!(1, folder.skipped.count);
    assert!(folder.skipped.files.is_empty());
    assert_eq!(8192, folder.skipped.logical_size);
}

#[test]
fn pop_undoes_push() {
    let mut folder = FolderInfo::new("C:\\Games");
    folder.push(FileKind::Compressible, file("a.bin", 8192, 8192));
    let before = folder.summary();
    folder.push(FileKind::Compressible, file("b.bin", 100, 4096));
    assert_eq!(2, folder.len(FileKind::Compressible));
    assert_eq!(8292, folder.logical_size);
    assert_eq!(12288, folder.physical_size);
    let first = folder.pop(FileKind::Compressible).unwrap();
    assert_eq!("a.bin", first.path);
    assert_eq!(1, folder.len(FileKind::Compressible));
    assert_eq!(100, folder.logical_size);
    assert!(folder.pop(FileKind::Skipped).is_none());
    assert_eq!(before.compressible.count, 1);
}

#[test]
fn totals_saturate() {
    let mut folder = FolderInfo::new("C:\\Games");
    folder.push(FileKind::Compressed, file("a.bin", u64::MAX, 1));
    folder.push(FileKind::Compressed, file("b.bin", 5, 1));
    assert_eq!(u64::MAX, folder.logical_size);
    assert_eq!(u64::MAX, folder.compressed.logical_size);
    assert_eq!(2, folder.compressed.count);
}

#[test]
fn accepted_estimate_makes_file_compressible() {
    let mut folder = FolderInfo::new("C:\\Games");
    apply_estimate(&mut folder, file("a.bin", 8192, 8192), Some((0.5f32.to_bits(), 4096)));
    apply_estimate(&mut folder, file("b.bin", 8192, 8192), None);
    assert_eq!(1, folder.compressible.count);
    assert_eq!(1, folder.skipped.count);
    let fi = folder.pop(FileKind::Compressible).unwrap();
    assert!(fi.estimate_valid);
    assert_eq!(0.5f32.to_bits(), fi.estimated_ratio_bits);
    assert_eq!(4096, fi.estimated_physical_size);
}

#[test]
fn clusters_round_up() {
    assert_eq!(0, round_up_to_cluster(0, 4096));
    assert_eq!(4096, round_up_to_cluster(1, 4096));
    assert_eq!(4096, round_up_to_cluster(4096, 4096));
    assert_eq!(8192, round_up_to_cluster(4097, 4096));
    assert_eq!(7, round_up_to_cluster(7, 0));
    assert_eq!(u64::MAX - (u64::MAX % 4096), round_up_to_cluster(u64::MAX, 4096));
}

#[test]
fn volume_paths_come_from_drive_letters() {
    assert_eq!(Some("D:\\".to_string()), volume_root_path("d:\\Games\\Foo"));
    assert_eq!(Some("\\\\.\\C:".to_string()), volume_device_path("C:\\Games"));
    assert_eq!(Some("E:\\".to_string()), volume_root_path("\\\\?\\e:\\data"));
    assert_eq!(None, volume_root_path("\\\\server\\share\\dir"));
    assert_eq!(None, volume_device_path("relative\\dir"));
}

#[test]
fn wide_strings_end_with_nul() {
    assert_eq!(vec![0x43u16, 0x3a, 0x5c, 0], wide_null("C:\\"));
    assert_eq!(vec![0xD83Du16, 0xDE00, 0], wide_null("\u{1F600}"));
    assert_eq!(vec![0u16], wide_null(""));
}

#[test]
fn runtime_names_and_children() {
    assert!(is_direct_storage_runtime("D:\\Game\\bin\\DStorage.dll"));
    assert!(is_direct_storage_runtime("dstoragecore.dll"));
    assert!(!is_direct_storage_runtime("D:\\Game\\bin\\dstorage.dll.bak"));
    assert!(path_is_same_or_child("C:\\Windows\\System32", "c:\\windows"));
    assert!(!path_is_same_or_child("C:\\WindowsApps", "C:\\Windows"));
}

#[test]
fn special_files_are_skipped() {
    let set = compile_excludes(&vec!["*.iso".to_string()]).unwrap();
    assert_eq!(
        Disposition::Skip,
        classify_file(FILE_ATTRIBUTE_ENCRYPTED, 8192, 4096, 8192, 4096, false, &set, "C:\\a.bin")
    );
    assert_eq!(
        Disposition::Compressed,
        classify_file(0, 8192, 4096, 8192, 4096, false, &set, "C:\\a.bin")
    );
    assert_eq!(
        Disposition::Skip,
        classify_file(0, 4096, 4096, 4096, 4096, false, &set, "C:\\a.bin")
    );
    assert_eq!(
        Disposition::Skip,
        classify_file(FILE_ATTRIBUTE_READONLY, 8192, 8192, 8192, 4096, false, &set, "C:\\a.bin")
    );
    assert_eq!(
        Disposition::Skip,
        classify_file(0, 8192, 8192, 8192, 4096, true, &set, "C:\\a.bin")
    );
    assert_eq!(
        Disposition::Skip,
        classify_file(0, 8192, 8192, 8192, 4096, false, &set, "C:\\disk.ISO")
    );
    assert_eq!(
        Disposition::Estimate,
        classify_file(0, 8192, 8192, 8192, 4096, false, &set, "C:\\a.bin")
    );
}

fn ntfs() -> TargetFacts {
    TargetFacts {
        exists: true,
        is_dir: true,
        filesystem: Ok("NTFS".to_string()),
        system_root: Some("C:\\Windows".to_string()),
        legacy_compressed: false,
    }
}

#[test]
fn ordinary_ntfs_folder_is_a_target() {
    assert_eq!(Ok(()), validate_target("D:\\Games\\Foo", &ntfs()));
}

#[test]
fn target_errors_come_in_order() {
    let mut f = ntfs();
    f.exists = false;
    assert_eq!(
        Err("The selected folder no longer exists.".to_string()),
        validate_target("D:\\Games", &f)
    );
    let mut f = ntfs();
    f.is_dir = false;
    assert_eq!(
        Err("The selected path is not a folder.".to_string()),
        validate_target("D:\\Games\\a.bin", &f)
    );
    assert_eq!(
        Err("Only local drive folders are supported. Network/UNC paths are not valid WOF targets."
            .to_string()),
        validate_target("\\\\server\\share\\Games", &ntfs())
    );
    assert_eq!(
        Err("Select a folder rather than an entire drive root.".to_string()),
        validate_target("D:\\", &ntfs())
    );
    let mut f = ntfs();
    f.filesystem = Err("access denied".to_string());
    assert_eq!(
        Err("Unable to query the target filesystem: access denied".to_string()),
        validate_target("D:\\Games", &f)
    );
    let mut f = ntfs();
    f.filesystem = Ok("FAT32".to_string());
    assert_eq!(
        Err("Windows WOF compression requires NTFS. This folder is on FAT32.".to_string()),
        validate_target("D:\\Games", &f)
    );
    let mut f = ntfs();
    f.filesystem = Ok(String::new());
    assert_eq!(
        Err("Windows WOF compression requires NTFS. This folder is on an unknown filesystem."
            .to_string()),
        validate_target("D:\\Games", &f)
    );
    assert_eq!(
        Err("The active Windows directory is protected from compression.".to_string()),
        validate_target("c:\\windows\\Fonts", &ntfs())
    );
    assert_eq!(
        Err("The selected folder is a protected Windows-managed path.".to_string()),
        validate_target("D:\\System Volume Information\\x", &ntfs())
    );
    assert_eq!(
        Err("The selected folder is a protected Windows-managed path.".to_string()),
        validate_target("D:\\$Recycle.Bin", &ntfs())
    );
    assert_eq!(
        Err("The selected folder is a protected Windows-managed path.".to_string()),
        validate_target("D:\\Recovery", &ntfs())
    );
    let mut f = ntfs();
    f.legacy_compressed = true;
    assert_eq!(
        Err("The selected folder uses legacy NTFS (LZNT1) compression. Disable 'Compress contents to save disk space' on the folder before using WOF compression.".to_string()),
        validate_target("D:\\Games", &f)
    );
}

#[test]
fn cluster_size_falls_back_to_4096() {
    assert_eq!(4096, cluster_size(None));
    assert_eq!(4096, cluster_size(Some((8, 512))));
    assert_eq!(1, cluster_size(Some((0, 512))));
    assert_eq!(
        (u32::MAX as u64) * (u32::MAX as u64),
        cluster_size(Some((u32::MAX, u32::MAX)))
    );
}

#[test]
fn hdd_sampling_plans() {
    assert_eq!(HddSamplePlan::Empty, hdd_sample_plan(0));
    assert_eq!(HddSamplePlan::WholeFile, hdd_sample_plan(1));
    assert_eq!(HddSamplePlan::WholeFile, hdd_sample_plan(524288));
    let len = 10 * 1024 * 1024;
    match hdd_sample_plan(len) {
        HddSamplePlan::Windows { chunk, offsets } => {
            assert_eq!(131072, chunk);
            let max_start = len - 131072;
            let expected: Vec<u64> = (0..4u64)
                .map(|s| (max_start * s / 3) / 8192 * 8192)
                .collect();
            assert_eq!(expected, offsets);
            assert_eq!(0, offsets[0]);
            assert_eq!(max_start, offsets[3]);
        }
        other => panic!("unexpected plan {:?}", other),
    }
    match hdd_sample_plan(u64::MAX) {
        HddSamplePlan::Windows { offsets, .. } => {
            for o in offsets {
                assert_eq!(0, o % 8192);
                assert!(o <= u64::MAX - 131072);
            }
        }
        other => panic!("unexpected plan {:?}", other),
    }
}

#[test]
fn cancelled_candidates_are_skipped() {
    let mut folder = FolderInfo::new("C:\\Games");
    skip_candidates(
        &mut folder,
        vec![file("a.bin", 8192, 8192), file("b.bin", 4096, 4096)],
    );
    assert_eq!(2, folder.skipped.count);
    assert_eq!(12288, folder.skipped.logical_size);
    assert_eq!(12288, folder.logical_size);
    assert!(folder.skipped.files.is_empty());
}

#[test]
fn estimation_workers_fit_the_batch() {
    assert_eq!(3, estimation_workers(8, 3));
    assert_eq!(8, estimation_workers(8, 100));
    assert_eq!(1, estimation_workers(8, 0));
    assert_eq!(1, estimation_workers(0, 5));
}

#[test]
fn paths_normalize_for_comparison() {
    assert_eq!("c:\\games\\foo", normalized_path("C:/Games\\Foo\\"));
    assert_eq!("d:", normalized_path("D:\\"));
}
