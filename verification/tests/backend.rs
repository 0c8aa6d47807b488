use compactor::backend::{scan_step, ScanAction, ScanEvent};
use compactor::backend::{
    compressed_file_items, compressed_folder_items, compressed_view, format_size,
    paginate_compressed_items, path_lt_exec, path_matches_query,
    protect_direct_storage_candidates, record_compression_result,
    record_decompression_result, route_request, run_status, wof_preflight, BackendAction,
    BackendRequest, CompactResult, CompressedViewItem, FileUpdate, RunControl, RunEffect,
    RunRequest,
};
use compactor::folder::{FileInfo, FileKind, FolderInfo};
use std::path::PathBuf;

fn text(p: PathBuf) -> String {
    p.to_string_lossy().into_owned()
}

fn file(path: &str, logical: u64, physical: u64) -> FileInfo {
    FileInfo {
        path: path.to_string(),
        content_len: logical,
        modified_time: 0,
        estimate_valid: false,
        estimated_ratio_bits: 1.0f32.to_bits(),
        logical_size: logical,
        physical_size: physical,
        estimated_physical_size: physical,
    }
}

fn sample_compressed_folder() -> FolderInfo {
    let mut folder = FolderInfo::new(&text(PathBuf::from("C:").join("Games")));
    for (path, logical_size, physical_size) in [
        (PathBuf::from("Data").join("one.bin"), 8192, 4096),
        (PathBuf::from("Data").join("two.bin"), 16384, 8192),
        (
            PathBuf::from("Data").join("Sub").join("three.bin"),
            32768,
            12288,
        ),
    ] {
        folder.push(FileKind::Compressed, file(&text(path), logical_size, physical_size));
    }
    folder
}

#[test]
fn compressed_file_view_filters_paths() {
    let folder = sample_compressed_folder();
    let items = compressed_file_items(&folder, "sub");

    assert_eq!(1, items.len());
    match &items[0] {
        CompressedViewItem::File { path, .. } => {
            assert_eq!(&text(PathBuf::from("Data").join("Sub").join("three.bin")), path);
        }
        _ => panic!("expected file item"),
    }
}

#[test]
fn compressed_folder_view_groups_files() {
    let folder = sample_compressed_folder();
    let items = compressed_folder_items(&folder, "");

    assert_eq!(2, items.len());
    let data = items
        .iter()
        .find(|item| match item {
            CompressedViewItem::Folder { path, .. } => path == &text(PathBuf::from("Data")),
            _ => false,
        })
        .expect("Data folder");

    match data {
        CompressedViewItem::Folder {
            count,
            logical_size,
            physical_size,
            ..
        } => {
            assert_eq!(2, *count);
            assert_eq!(24576, *logical_size);
            assert_eq!(12288, *physical_size);
        }
        _ => panic!("expected folder item"),
    }
}

#[test]
fn compressed_view_pagination_clamps_page() {
    let items = (0..3)
        .map(|index| CompressedViewItem::File {
            path: format!("{}.bin", index),
            logical_size: 8192,
            physical_size: 4096,
        })
        .collect();

    let (page, pages, total, page_items) = paginate_compressed_items(items, usize::MAX);
    assert_eq!(0, page);
    assert_eq!(1, pages);
    assert_eq!(3, total);
    assert_eq!(3, page_items.len());
}

#[test]
fn pagination_cuts_pages_of_one_hundred() {
    let items: Vec<CompressedViewItem> = (0..250)
        .map(|index| CompressedViewItem::File {
            path: format!("{}.bin", index),
            logical_size: 1,
            physical_size: 1,
        })
        .collect();
    let (page, pages, total, page_items) = paginate_compressed_items(items, 2);
    assert_eq!((2, 3, 250, 50), (page, pages, total, page_items.len()));
    match &page_items[0] {
        CompressedViewItem::File { path, .. } => assert_eq!("200.bin", path),
        _ => panic!("expected file item"),
    }
    let (page, pages, total, page_items) = paginate_compressed_items(Vec::new(), 5);
    assert_eq!((0, 1, 0, 0), (page, pages, total, page_items.len()));
}

#[test]
fn direct_storage_protection_moves_only_matching_candidates() {
    let mut folder = FolderInfo::new(&text(PathBuf::from("D:").join("Games")));
    for path in ["Foo\\data.bin", "Bar\\data.bin"] {
        let mut fi = file(path, 8192, 8192);
        fi.estimate_valid = true;
        fi.estimated_ratio_bits = 0.5f32.to_bits();
        fi.estimated_physical_size = 4096;
        folder.push(FileKind::Compressible, fi);
    }

    let protected = protect_direct_storage_candidates(
        &mut folder,
        &vec![text(PathBuf::from(r"D:\Games\Foo"))],
    );
    assert_eq!(1, protected);
    assert_eq!(1, folder.compressible.count);
    assert_eq!(1, folder.skipped.count);
    assert_eq!(text(PathBuf::from(r"Bar\data.bin")), folder.compressible.files[0].path);
}

#[test]
fn drive_relative_folder_counts_from_the_drive_root() {
    // `D:` joined with `Games` is written `D:Games` on Windows.
    let mut folder = FolderInfo::new("D:Games");
    for path in ["Foo\\data.bin", "Bar\\data.bin"] {
        folder.push(FileKind::Compressible, file(path, 8192, 8192));
    }
    let protected =
        protect_direct_storage_candidates(&mut folder, &vec![r"D:\Games\Foo".to_string()]);
    assert_eq!(1, protected);
    assert_eq!("Bar\\data.bin", folder.compressible.files[0].path);
}

#[test]
fn protection_without_roots_changes_nothing() {
    let mut folder = FolderInfo::new("D:\\Games");
    folder.push(FileKind::Compressible, file("Foo\\data.bin", 8192, 8192));
    assert_eq!(0, protect_direct_storage_candidates(&mut folder, &Vec::new()));
    assert_eq!(1, folder.compressible.count);
    assert_eq!(8192, folder.logical_size);
}

#[test]
fn folder_rows_are_sorted_and_filtered() {
    let mut folder = sample_compressed_folder();
    folder.push(FileKind::Compressed, file("top.bin", 100, 50));
    let items = compressed_folder_items(&folder, "");
    let paths: Vec<String> = items
        .iter()
        .map(|it| match it {
            CompressedViewItem::Folder { path, .. } => path.clone(),
            CompressedViewItem::File { path, .. } => path.clone(),
        })
        .collect();
    assert_eq!(
        vec![
            ".".to_string(),
            "Data".to_string(),
            text(PathBuf::from("Data").join("Sub")),
        ],
        paths
    );
    let sub = compressed_folder_items(&folder, "sub");
    assert_eq!(1, sub.len());
}

#[test]
fn file_rows_are_sorted_by_path() {
    let mut folder = FolderInfo::new("C:\\Games");
    folder.push(FileKind::Compressed, file("b.bin", 1, 1));
    folder.push(FileKind::Compressed, file("a\\z.bin", 1, 1));
    folder.push(FileKind::Compressed, file("a.bin", 1, 1));
    let items = compressed_file_items(&folder, "");
    let paths: Vec<String> = items
        .iter()
        .map(|it| match it {
            CompressedViewItem::File { path, .. } => path.clone(),
            CompressedViewItem::Folder { path, .. } => path.clone(),
        })
        .collect();
    assert_eq!(vec!["a\\z.bin", "a.bin", "b.bin"], paths);
    assert!(path_lt_exec("a\\z.bin", "a.bin"));
    assert!(!path_lt_exec("b.bin", "a.bin"));
}

#[test]
fn viewer_query_is_trimmed_and_lowercased() {
    let folder = sample_compressed_folder();
    let view = compressed_view(&folder, "FOLDERS", "  SUB ", 7);
    assert_eq!("folders", view.view);
    assert_eq!("SUB", view.query);
    assert_eq!(1, view.total);
    assert_eq!(0, view.page);
    assert_eq!(3, view.compressed_count);
    assert_eq!(57344, view.logical_size);
    let files = compressed_view(&folder, "anything", "", 0);
    assert_eq!("files", files.view);
    assert_eq!(3, files.items.len());
    assert!(path_matches_query("Data\\ÜBER.bin", "über"));
    assert!(path_matches_query("anything", ""));
}

#[test]
fn sizes_are_formatted_in_both_units() {
    assert_eq!("1 KiB", format_size(1024, false));
    assert_eq!("1.50 KiB", format_size(1536, false));
    assert_eq!("1 KB", format_size(1000, true));
    assert_eq!("0 B", format_size(0, true));
}

#[test]
fn preflight_refusals() {
    let err = wof_preflight(Ok(false), &Vec::new()).unwrap_err();
    assert_eq!("WOF compression unavailable", err.title);
    let err = wof_preflight(Err("boom".to_string()), &Vec::new()).unwrap_err();
    assert_eq!("Unable to initialise Windows WOF support: boom", err.message);
    let err = wof_preflight(Ok(true), &vec![None, Some(false), Some(true)]).unwrap_err();
    assert_eq!("WOF unavailable on this drive", err.title);
    assert!(wof_preflight(Ok(true), &vec![None, Some(true), Some(false)]).is_ok());
    assert!(wof_preflight(Ok(true), &vec![None; 3]).is_ok());
    let mut late = vec![None; 8];
    late.push(Some(false));
    assert!(wof_preflight(Ok(true), &late).is_ok());
}

#[test]
fn compression_results_are_recorded() {
    let mut folder = FolderInfo::new("C:\\Games");
    let update = FileUpdate { size_on_disk: Some(4096), metadata: Some((8192, 7)) };
    assert!(!record_compression_result(&mut folder, file("a.bin", 8192, 8192), CompactResult::Compressed(update)));
    assert_eq!(1, folder.compressed.count);
    assert_eq!(4096, folder.compressed.physical_size);
    let update = FileUpdate { size_on_disk: Some(8192), metadata: None };
    assert!(record_compression_result(&mut folder, file("b.bin", 8192, 8192), CompactResult::Compressed(update)));
    assert!(record_compression_result(&mut folder, file("c.bin", 8192, 8192), CompactResult::NotWorthIt));
    assert!(!record_compression_result(&mut folder, file("d.bin", 8192, 8192), CompactResult::Failed));
    assert_eq!(3, folder.skipped.count);
}

#[test]
fn decompression_results_are_recorded() {
    let mut folder = FolderInfo::new("C:\\Games");
    let back = record_decompression_result(
        &mut folder,
        file("a.bin", 8192, 4096),
        Some(FileUpdate { size_on_disk: None, metadata: None }),
    );
    assert!(back.is_none());
    assert_eq!(1, folder.compressible.count);
    assert_eq!(8192, folder.compressible.physical_size);
    let failed = record_decompression_result(&mut folder, file("b.bin", 8192, 4096), None).unwrap();
    assert_eq!(4096, failed.estimated_physical_size);
    assert!(!failed.estimate_valid);
    assert_eq!(1, folder.compressible.count);
}

#[test]
fn stop_is_final() {
    let mut c = RunControl::new();
    assert_eq!(RunEffect::Paused, c.apply(RunRequest::Pause));
    assert_eq!(RunEffect::Nothing, c.apply(RunRequest::Pause));
    assert!(!c.may_dispatch(0, 4, false));
    assert_eq!(RunEffect::Resumed, c.apply(RunRequest::Resume));
    assert!(c.may_dispatch(0, 4, false));
    assert!(!c.may_dispatch(4, 4, false));
    assert_eq!(RunEffect::Stopping, c.apply(RunRequest::Stop));
    for r in [RunRequest::Pause, RunRequest::Resume, RunRequest::Stop, RunRequest::Other] {
        assert_eq!(RunEffect::Nothing, c.apply(r));
        assert!(c.stopped);
    }
    assert!(!c.may_dispatch(0, 4, false));
    assert!(c.finished(0, false));
    assert!(!c.finished(1, true));
}

#[test]
fn status_lines() {
    let mut c = RunControl::new();
    assert_eq!("Compacting: C:\\a.bin", run_status(&c, false, "Compacting", "C:\\a.bin"));
    c.apply(RunRequest::Pause);
    assert_eq!("Pausing after active files finish", run_status(&c, false, "Compacting", "x"));
    assert_eq!("Paused", run_status(&c, true, "Compacting", "x"));
    c.apply(RunRequest::Resume);
    c.apply(RunRequest::Stop);
    assert_eq!("Stopping", run_status(&c, true, "Compacting", "x"));
}

#[test]
fn requests_need_an_analysed_folder() {
    assert_eq!(BackendAction::ChooseFolder, route_request(BackendRequest::ChooseFolder, false));
    assert_eq!(BackendAction::Ignore, route_request(BackendRequest::Compress, false));
    assert_eq!(BackendAction::Compress, route_request(BackendRequest::Compress, true));
    assert_eq!(
        BackendAction::Decompress { exclude_after: true },
        route_request(BackendRequest::DecompressAndExclude, true)
    );
    assert_eq!(BackendAction::Ignore, route_request(BackendRequest::Other, true));
}

#[test]
fn analysis_events() {
    assert_eq!(ScanAction::Pause, scan_step(ScanEvent::Request(RunRequest::Pause)));
    assert_eq!(ScanAction::Resume, scan_step(ScanEvent::Request(RunRequest::Resume)));
    assert_eq!(ScanAction::Cancel, scan_step(ScanEvent::Request(RunRequest::Stop)));
    assert_eq!(ScanAction::Ignore, scan_step(ScanEvent::Request(RunRequest::Other)));
    assert_eq!(ScanAction::Cancel, scan_step(ScanEvent::Disconnected));
    assert_eq!(ScanAction::Scanned, scan_step(ScanEvent::Finished { ok: true }));
    assert_eq!(ScanAction::Stopped, scan_step(ScanEvent::Finished { ok: false }));
    assert_eq!(ScanAction::Progress, scan_step(ScanEvent::Running));
}
