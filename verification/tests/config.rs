use compactor::backend::add_folder_exclusion;
use compactor::config::{
    compile_excludes, parse_compression_priority, Compression, CompressionPriority, Settings,
};

#[test]
fn test_config() {
    let s = Settings::default();

    assert!(s.globset().is_ok());
    assert_eq!(s.compression, Compression::Lzx);
    assert_eq!(s.max_threads, 0);
    assert!(s.hdd_single_thread);
    assert_eq!(s.compression_priority, CompressionPriority::BelowNormal);

    let gs = s.globset().unwrap();
    assert!(gs.is_match("C:\\Windows\\System32\\floop\\bla.txt"));
    assert!(gs.is_match("C:\\System Volume Information\\tracking.log"));
    assert!(gs.is_match("C:\\$Recycle.Bin\\example.bin"));

    assert!(!gs.is_match("C:\\foo\\archive.rar"));
    assert!(!gs.is_match("C:\\foo\\data.lz4"));
    assert!(!gs.is_match("C:\\foo\\PHOTO.JPG"));
}

#[test]
fn compression_priority_parses_ui_values() {
    assert_eq!(
        CompressionPriority::BelowNormal,
        "BelowNormal".parse::<CompressionPriority>().unwrap()
    );
    assert_eq!(
        CompressionPriority::AboveNormal,
        "Above Normal".parse::<CompressionPriority>().unwrap()
    );
    assert!("Realtime".parse::<CompressionPriority>().is_err());
}

#[test]
fn blank_excludes_are_ignored() {
    let mut s = Settings::default();
    s.excludes.push(String::new());
    s.excludes.push("   ".to_string());

    let gs = s.globset().unwrap();
    assert!(!gs.is_match("C:\\foo\\ordinary.txt"));
}

#[test]
fn invalid_thread_limit_is_rejected() {
    let mut s = Settings::default();
    s.max_threads = 17;
    assert!(s.validate().is_err());
}

#[test]
fn thread_limit_of_sixteen_is_accepted() {
    let mut s = Settings::default();
    s.max_threads = 16;
    assert!(s.validate().is_ok());
    s.max_threads = 17;
    assert_eq!(
        s.validate().unwrap_err(),
        "Maximum threads must be between 0 (Auto) and 16."
    );
}

#[test]
fn priority_names_parse_back() {
    for p in [
        CompressionPriority::Lowest,
        CompressionPriority::BelowNormal,
        CompressionPriority::Normal,
        CompressionPriority::AboveNormal,
        CompressionPriority::Highest,
    ] {
        let name = p.name();
        assert!(parse_compression_priority(&name).unwrap() == p);
    }
    assert!(parse_compression_priority(" below-normal ").unwrap() == CompressionPriority::BelowNormal);
    assert!(parse_compression_priority("HIGHEST").unwrap() == CompressionPriority::Highest);
    assert!(parse_compression_priority("").is_err());
}

#[test]
fn default_priority_is_below_normal() {
    assert!(CompressionPriority::default() == CompressionPriority::BelowNormal);
}

#[test]
fn invalid_pattern_is_reported() {
    let mut s = Settings::default();
    s.excludes.push("C:\\foo\\[".to_string());
    let err = s.validate().unwrap_err();
    assert!(!err.is_empty());
    assert!(compile_excludes(&s.excludes).is_err());
}

#[test]
fn trimmed_patterns_match() {
    let v = vec!["  *.iso  ".to_string()];
    let set = compile_excludes(&v).unwrap();
    assert!(set.is_match("D:\\images\\DISK.ISO"));
    assert!(!set.is_match("D:\\images\\disk.img"));
}

#[test]
fn exclusion_is_added_once() {
    let mut s = Settings::default();
    assert_eq!(Ok(true), add_folder_exclusion(&mut s, "D:\\Games\\Foo"));
    assert_eq!(4, s.excludes.len());
    assert_eq!(Ok(false), add_folder_exclusion(&mut s, "d:\\games\\foo"));
    assert_eq!(4, s.excludes.len());
}

#[test]
fn invalid_exclusion_leaves_settings_unchanged() {
    let mut s = Settings::default();
    assert!(add_folder_exclusion(&mut s, "D:\\bad[").is_err());
    assert_eq!(3, s.excludes.len());
}

#[test]
fn exclusions_ignore_ascii_case() {
    let s = Settings::default();
    let gs = s.globset().unwrap();
    assert!(gs.is_match("C:\\WINDOWS\\System32\\x.dll"));
    assert!(gs.is_match("c:\\windows\\system32\\x.dll"));
    let v = vec!["*\\Steam\\*".to_string()];
    let set = compile_excludes(&v).unwrap();
    assert_eq!(set.is_match("D:\\STEAM\\a"), set.is_match("d:\\steam\\a"));
    assert!(set.is_match("D:\\sTeAm\\a"));
}
