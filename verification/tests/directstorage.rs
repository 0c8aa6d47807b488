use compactor::directstorage::{
    collapse_roots, direct_storage_roots, infer_game_root, is_direct_storage_runtime,
};
use compactor::paths::{is_under, normalized};

#[test]
fn steam_unreal_runtime_maps_to_game_root() {
    let scan = r"D:\SteamLibrary\steamapps\common";
    let dll = r"D:\SteamLibrary\steamapps\common\ExampleGame\Engine\Binaries\ThirdParty\Windows\DirectStorage\x64\dstorage.dll";
    let root = infer_game_root(dll, scan, &Vec::new());
    assert_eq!(
        normalized(&root),
        normalized(r"D:\SteamLibrary\steamapps\common\ExampleGame")
    );
}

#[test]
fn epic_library_runtime_maps_to_immediate_game_child() {
    let scan = r"D:\Epic Games";
    let dll = r"D:\Epic Games\ExampleGame\bin\dstorage.dll";
    let root = infer_game_root(dll, scan, &Vec::new());
    assert_eq!(normalized(&root), normalized(r"D:\Epic Games\ExampleGame"));
}

#[test]
fn single_game_target_protects_the_selected_game() {
    let scan = r"D:\Games\ExampleGame";
    let dll = r"D:\Games\ExampleGame\bin\dstoragecore.dll";
    let root = infer_game_root(dll, scan, &Vec::new());
    assert_eq!(normalized(&root), normalized(scan));
}

#[test]
fn nested_roots_are_collapsed() {
    let roots = collapse_roots(&vec![
        r"D:\Games\Foo\Engine".to_string(),
        r"D:\Games\Foo".to_string(),
        r"D:\Games\Bar".to_string(),
    ]);
    assert_eq!(2, roots.len());
    assert!(roots.iter().any(|path| normalized(path) == normalized(r"D:\Games\Foo")));
    assert!(roots.iter().any(|path| normalized(path) == normalized(r"D:\Games\Bar")));
}

#[test]
fn runtime_names_are_case_insensitive() {
    assert!(is_direct_storage_runtime(r"D:\Games\X\DStorage.DLL"));
    assert!(is_direct_storage_runtime(r"D:\Games\X\dstoragecore.dll"));
    assert!(!is_direct_storage_runtime(r"D:\Games\X\dstorage.dll.bak"));
    assert!(!is_direct_storage_runtime(r"D:\"));
}

#[test]
fn is_under_compares_normalized_paths() {
    assert!(is_under(r"C:\Games\Foo\bar.bin", r"c:/games/foo/"));
    assert!(is_under(r"C:\Games\Foo", r"C:\Games\Foo"));
    assert!(!is_under(r"C:\Games\Foobar", r"C:\Games\Foo"));
    assert!(!is_under(r"C:\Games", r"C:\Games\Foo"));
}

#[test]
fn nearest_executable_directory_is_preferred_in_libraries() {
    let scan = r"D:\SteamLibrary\steamapps\common";
    let dll = r"D:\SteamLibrary\steamapps\common\Game\bin\x64\dstorage.dll";
    // steamapps\common is a library container: its immediate child wins.
    let root = infer_game_root(dll, scan, &vec![normalized(r"D:\SteamLibrary\steamapps\common\Game\bin")]);
    assert_eq!(normalized(&root), normalized(r"D:\SteamLibrary\steamapps\common\Game"));
    // A drive-wide scan without containers falls back to the executable directory.
    let root = infer_game_root(r"D:\Stuff\Game\bin\x64\dstorage.dll", r"D:\", &vec![normalized(r"D:\Stuff\Game\bin")]);
    assert_eq!(normalized(&root), normalized(r"D:\Stuff\Game\bin"));
    // ... and to the runtime's directory when no executable is known.
    let root = infer_game_root(r"D:\Stuff\Game\bin\x64\dstorage.dll", r"D:\", &Vec::new());
    assert_eq!(normalized(&root), normalized(r"D:\Stuff\Game\bin\x64"));
}

#[test]
fn discovered_roots_come_from_runtimes_and_executables() {
    let files = vec![
        r"D:\Games\Foo\Foo.exe".to_string(),
        r"D:\Games\Foo\bin\dstorage.dll".to_string(),
        r"D:\Games\Foo\bin\dstoragecore.dll".to_string(),
        r"D:\Games\Bar\data.bin".to_string(),
    ];
    let roots = direct_storage_roots(r"D:\Games", &files);
    assert_eq!(1, roots.len());
    assert_eq!(normalized(&roots[0]), normalized(r"D:\Games\Foo"));
}

#[test]
fn share_and_device_prefixes_have_no_file_name() {
    assert!(!is_direct_storage_runtime(r"\\s\dstorage.dll"));
    assert!(!is_direct_storage_runtime(r"\\.\dstorage.dll"));
    assert!(!is_direct_storage_runtime(r"\\?\UNC\server\dstorage.dll"));
    assert!(!is_direct_storage_runtime(r"\\?\dstorage.dll"));
    assert!(is_direct_storage_runtime(r"\\server\share\Game\dstorage.dll"));
    assert!(is_direct_storage_runtime(r"\\?\C:\Game\DStorage.dll"));
    assert!(is_direct_storage_runtime(r"D:\Game\dstorage.dll\."));
    assert!(!is_direct_storage_runtime(r"\\?\C:\Game\dstorage.dll\."));
    assert!(compactor::folder::is_direct_storage_runtime(r"D:\Game\dstoragecore.dll"));
    assert!(!compactor::folder::is_direct_storage_runtime(r"\\s\dstorage.dll"));
}

#[test]
fn game_root_keeps_the_text_of_the_path() {
    let dll = r"C:\\A\d";
    let root = infer_game_root(dll, r"C:\", &Vec::new());
    assert_eq!(r"C:\\A", root);
    assert!(is_under(dll, &root));
    let dll = r"D:\Games\\Foo\bin\dstorage.dll";
    let root = infer_game_root(dll, r"D:\Games", &Vec::new());
    assert!(is_under(dll, &root));
    assert!(is_under(&root, r"D:\Games"));
}
