use vvdaw::errors::{PluginError, PluginInfo};
use vvdaw::loader::{scan_plugins, ClassInfo, EntryAction, PathKind, ScanResult, TargetOs, Vst3Loader};
use vvdaw::text::{path_extension, path_file_name, path_file_stem};

fn info(name: &str) -> PluginInfo {
    PluginInfo {
        name: name.to_string(),
        vendor: "Vendor".to_string(),
        version: "1.0".to_string(),
        unique_id: format!("id_{name}"),
    }
}

#[test]
fn test_scan_nonexistent_directory() {
    // Scanning a nonexistent directory should return empty list, not error
    let result = Vst3Loader::scan("/nonexistent/path/to/plugins", PathKind::Missing, Ok(vec![info("never")]));
    assert!(result.is_ok());
    assert!(result.unwrap().is_empty());
}

#[test]
fn test_scan_file_not_directory() {
    // Scanning a file (not a directory) should return an error
    let result = Vst3Loader::scan("/etc/hosts", PathKind::File, Ok(Vec::new()));
    assert!(result.is_err());
    assert_eq!(
        result.unwrap_err(),
        PluginError::FormatError("Scan path is not a directory: /etc/hosts".to_string())
    );
}

#[test]
fn test_scan_system() {
    // Scan the standard directories of this system; none of them holds
    // plugins here, and the test passes however many are found.
    let paths = Vst3Loader::get_vst3_search_paths(TargetOs::Linux, Some("/home/user"), None);
    let results: Vec<_> = paths
        .iter()
        .map(|p| Vst3Loader::scan(p, PathKind::Missing, Ok(Vec::new())))
        .collect();
    let plugins = Vst3Loader::scan_system(results);
    for plugin in &plugins {
        println!("  - {} by {} (v{})", plugin.name, plugin.vendor, plugin.version);
    }
    assert!(plugins.is_empty());
}

#[test]
fn scan_of_a_directory_returns_the_walk() {
    let walked = Ok(vec![info("A"), info("B")]);
    assert_eq!(Vst3Loader::scan("/plugins", PathKind::Directory, walked.clone()), walked);
    let failed: Result<Vec<PluginInfo>, PluginError> = Err(PluginError::FormatError("unreadable".to_string()));
    assert_eq!(Vst3Loader::scan("/plugins", PathKind::Directory, failed.clone()), failed);
}

#[test]
fn scan_system_skips_failed_directories() {
    let results = vec![
        Ok(vec![info("A")]),
        Err(PluginError::FormatError("denied".to_string())),
        Ok(vec![info("B"), info("C")]),
    ];
    let plugins = Vst3Loader::scan_system(results);
    let names: Vec<&str> = plugins.iter().map(|p| p.name.as_str()).collect();
    assert_eq!(names, vec!["A", "B", "C"]);
}

#[test]
fn test_path_validation_rejects_parent_dir() {
    let result = Vst3Loader::validate_plugin_path("../../../etc/passwd", None);
    assert!(result.is_err(), "Should reject directory traversal attempts");
    assert_eq!(
        result.unwrap_err(),
        PluginError::FormatError("Plugin path cannot contain '..' components (directory traversal)".to_string())
    );
}

#[test]
fn test_path_validation_accepts_absolute_path() {
    let result = Vst3Loader::validate_plugin_path("/Library/Audio/Plug-Ins/VST3/Test.vst3", None);
    assert!(result.is_ok());
}

#[test]
fn path_validation_needs_an_extension_or_a_directory() {
    assert_eq!(
        Vst3Loader::validate_plugin_path("/opt/plugin", Some(("/opt/plugin", false))),
        Err(PluginError::FormatError("Plugin path must be a .vst3 bundle or dynamic library file".to_string()))
    );
    assert!(Vst3Loader::validate_plugin_path("/opt/plugin", Some(("/opt/plugin", true))).is_ok());
    assert!(Vst3Loader::validate_plugin_path("/opt/plugin.so", Some(("/opt/plugin.so", false))).is_ok());
    // an unusual extension is accepted
    assert!(Vst3Loader::validate_plugin_path("/opt/plugin.txt", Some(("/opt/plugin.txt", false))).is_ok());
}

#[test]
fn library_paths_inside_bundles() {
    assert_eq!(
        Vst3Loader::get_library_path(TargetOs::MacOs, "/Library/Audio/Plug-Ins/VST3/Noises.vst3").unwrap(),
        "/Library/Audio/Plug-Ins/VST3/Noises.vst3/Contents/MacOS/Noises"
    );
    assert_eq!(
        Vst3Loader::get_library_path(TargetOs::Linux, "/usr/lib/vst3/Synth.vst3").unwrap(),
        "/usr/lib/vst3/Synth.vst3/Contents/x86_64-linux/Synth.so"
    );
    assert_eq!(
        Vst3Loader::get_library_path(TargetOs::Windows, "C:/VST3/Echo.vst3").unwrap(),
        "C:/VST3/Echo.vst3\\Contents\\x86_64-win\\Echo.vst3"
    );
    assert_eq!(
        Vst3Loader::get_library_path(TargetOs::Windows, "C:\\VST3\\Echo.vst3").unwrap(),
        "C:\\VST3\\Echo.vst3\\Contents\\x86_64-win\\Echo.vst3"
    );
    assert_eq!(
        Vst3Loader::get_library_path(TargetOs::Linux, "/"),
        Err(PluginError::FormatError("Invalid bundle name".to_string()))
    );
    assert_eq!(
        Vst3Loader::resolve_library_path(TargetOs::Linux, "/opt/lib.so", false).unwrap(),
        "/opt/lib.so"
    );
    assert_eq!(
        Vst3Loader::resolve_library_path(TargetOs::Linux, "/opt/Bundle.vst3", true).unwrap(),
        "/opt/Bundle.vst3/Contents/x86_64-linux/Bundle.so"
    );
}

#[test]
fn search_paths_per_system() {
    assert_eq!(
        Vst3Loader::get_vst3_search_paths(TargetOs::MacOs, Some("/Users/me"), None),
        vec!["/Library/Audio/Plug-Ins/VST3".to_string(), "/Users/me/Library/Audio/Plug-Ins/VST3".to_string()]
    );
    assert_eq!(
        Vst3Loader::get_vst3_search_paths(TargetOs::Linux, Some("/home/me"), None),
        vec!["/home/me/.vst3".to_string(), "/usr/lib/vst3".to_string(), "/usr/local/lib/vst3".to_string()]
    );
    assert_eq!(
        Vst3Loader::get_vst3_search_paths(TargetOs::Linux, None, None),
        vec!["/usr/lib/vst3".to_string(), "/usr/local/lib/vst3".to_string()]
    );
    assert_eq!(
        Vst3Loader::get_vst3_search_paths(TargetOs::Windows, None, Some("C:\\Users\\me\\AppData\\Local")),
        vec![
            "C:\\Program Files\\Common Files\\VST3".to_string(),
            "C:\\Users\\me\\AppData\\Local\\Programs\\Common\\VST3".to_string()
        ]
    );
}

#[test]
fn directory_entries_are_classified() {
    assert_eq!(Vst3Loader::classify_entry("/p/Synth.vst3", true), EntryAction::ScanBundle);
    assert_eq!(Vst3Loader::classify_entry("/p/Synth.VST3", true), EntryAction::ScanBundle);
    assert_eq!(Vst3Loader::classify_entry("/p/Vendor", true), EntryAction::Descend);
    assert_eq!(Vst3Loader::classify_entry("/p/readme.vst3", false), EntryAction::Skip);
}

#[test]
fn conflicts_are_reported_only_for_several_matches() {
    let none = Vst3Loader::check_for_conflicts(&vec![info("plugdata"), info("Reverb")]);
    assert!(none.is_empty());
    let found = Vst3Loader::check_for_conflicts(&vec![info("plugdata"), info("Reverb"), info("plugdata-fx")]);
    assert_eq!(found, vec![vec!["plugdata".to_string(), "plugdata-fx".to_string()]]);
}

#[test]
fn class_checks_and_descriptions() {
    assert_eq!(
        Vst3Loader::check_class_count(0),
        Err(PluginError::FormatError("Plugin has no exported classes".to_string()))
    );
    assert!(Vst3Loader::check_class_count(2).is_ok());
    let class = ClassInfo {
        class_id: [1, 2, 3, 4, 5, 6, 7, 8, 9, 10, 11, 12, 13, 14, 15, 255],
        cardinality: 0x7FFF_FFFF,
        category: "Audio Module Class".to_string(),
        name: "Noises".to_string(),
    };
    let info = Vst3Loader::plugin_info_from_class(&class);
    assert_eq!(info.name, "Noises");
    assert_eq!(info.vendor, "Unknown");
    assert_eq!(info.version, "1.0.0");
    assert_eq!(info.unique_id, "[1, 2, 3, 4, 5, 6, 7, 8, 9, 10, 11, 12, 13, 14, 15, 255]");
}

#[test]
fn scanner_output_is_interpreted() {
    let ok = Vst3Loader::interpret_scanner_output(true, Ok(ScanResult::Success { plugin: info("A") }), "", "");
    assert_eq!(ok, Ok(info("A")));
    let reported = Vst3Loader::interpret_scanner_output(
        true,
        Ok(ScanResult::Error { message: "no factory".to_string() }),
        "",
        "",
    );
    assert_eq!(reported, Err(PluginError::FormatError("no factory".to_string())));
    let garbled = Vst3Loader::interpret_scanner_output(true, Err("eof".to_string()), "xyz", "");
    assert_eq!(
        garbled,
        Err(PluginError::FormatError("Failed to parse scanner output as JSON: eof\nOutput: xyz".to_string()))
    );
    let died = Vst3Loader::interpret_scanner_output(false, Err("eof".to_string()), "out", "segfault");
    assert_eq!(died, Err(PluginError::FormatError("Scanner subprocess failed: segfault".to_string())));
    let died_quietly = Vst3Loader::interpret_scanner_output(false, Err("eof".to_string()), "out", "");
    assert_eq!(died_quietly, Err(PluginError::FormatError("Scanner subprocess failed: out".to_string())));
    let contradictory =
        Vst3Loader::interpret_scanner_output(false, Ok(ScanResult::Success { plugin: info("A") }), "", "");
    assert_eq!(
        contradictory,
        Err(PluginError::FormatError("Subprocess reported success but exited with error status".to_string()))
    );
}

#[test]
fn standalone_scan_finds_nothing() {
    assert_eq!(scan_plugins("/any/where"), Ok(Vec::new()));
}

#[test]
fn path_names_skip_trailing_current_dir_components() {
    assert_eq!(path_file_name("foo.txt/."), Some("foo.txt".to_string()));
    assert_eq!(path_file_name("/a/b.wav/./"), Some("b.wav".to_string()));
    assert_eq!(path_file_name("."), None);
    assert_eq!(path_file_name("./"), None);
    assert_eq!(path_file_name("/."), None);
    assert_eq!(path_file_name("a/.."), None);
    assert_eq!(path_extension("foo.txt/."), Some("txt".to_string()));
    assert_eq!(path_extension("."), None);
    assert_eq!(path_file_stem("dir/Plug.vst3/.", false), Some("Plug".to_string()));
    assert_eq!(path_file_stem("C:\\x\\Plug.vst3\\.", true), Some("Plug".to_string()));
    assert_eq!(path_file_stem(".", false), None);
}
