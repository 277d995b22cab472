//! Decisions of the VST3 plugin loader and scanner: where plugin libraries
//! live inside bundles, which paths are acceptable, which directory entries
//! are bundles, how scan results are combined, and how a plugin class is
//! described.
//!
//! The file system, the scanner subprocess and the plugin libraries are
//! reached by the host; it hands the outcomes of those steps to these
//! functions. Paths are read with `/` separating components; only the
//! library path inside a Windows bundle also splits at `\`.

use vstd::prelude::*;
use crate::errors::{PluginError, PluginInfo};
use crate::text::{
    contains_parent_component, contains_substr, decimal, eq_ignore_ascii_case, extension,
    file_stem, has_parent_component, join_path, path_extension, path_file_stem, path_join, push_decimal,
    str_contains, str_eq_ignore_ascii_case,
};

verus! {

/// Information about a plugin class exported by a plugin factory.
#[derive(Debug, Clone)]
pub struct ClassInfo {
    /// FUID (128-bit UUID)
    pub class_id: [u8; 16],
    pub cardinality: i32,
    pub category: String,
    pub name: String,
}

/// What a path names on disk.
#[derive(Debug, Clone, Copy, PartialEq, Eq, Structural)]
pub enum PathKind {
    /// Nothing exists at the path
    Missing,
    /// A file (or anything that is not a directory)
    File,
    /// A directory
    Directory,
}

/// What the directory walk does with one entry.
#[derive(Debug, Clone, Copy, PartialEq, Eq, Structural)]
pub enum EntryAction {
    /// A `.vst3` bundle: scan it, do not descend into it
    ScanBundle,
    /// Another directory: descend into it
    Descend,
    /// Not a directory: ignore it
    Skip,
}

/// Operating systems with their own plugin locations.
#[derive(Debug, Clone, Copy, PartialEq, Eq, Structural)]
pub enum TargetOs {
    MacOs,
    Windows,
    Linux,
}

/// What the scanner subprocess reported on its standard output.
#[derive(Debug, Clone)]
pub enum ScanResult {
    Success { plugin: PluginInfo },
    Error { message: String },
}

/// VST3 plugin loader.
pub struct Vst3Loader;

/// Decimal list notation of bytes, as `[1, 2, 3]`.
pub open spec fn bytes_list(s: Seq<u8>) -> Seq<char> {
    "["@ + list_body(s) + "]"@
}

/// Items of a byte list separated by `", "`.
pub open spec fn list_body(s: Seq<u8>) -> Seq<char>
    decreases s.len(),
{
    if s.len() == 0 {
        seq![]
    } else if s.len() == 1 {
        decimal(s[0] as nat)
    } else {
        list_body(s.drop_last()) + ", "@ + decimal(s.last() as nat)
    }
}

/// Path of the plugin library inside a bundle, for each system: the
/// bundle's file stem `name` gives `Contents/MacOS/name`,
/// `Contents\x86_64-win\name.vst3` or `Contents/x86_64-linux/name.so`.
pub open spec fn library_path(os: TargetOs, bundle: Seq<char>, name: Seq<char>) -> Seq<char> {
    match os {
        TargetOs::MacOs => join_path(join_path(join_path(bundle, "Contents"@), "MacOS"@), name),
        TargetOs::Windows => join_win(join_win(join_win(bundle, "Contents"@), "x86_64-win"@), name + ".vst3"@),
        TargetOs::Linux => join_path(join_path(join_path(bundle, "Contents"@), "x86_64-linux"@), name + ".so"@),
    }
}

/// Join with the Windows separator `\`.
pub open spec fn join_win(base: Seq<char>, part: Seq<char>) -> Seq<char> {
    if base.len() == 0 || base.last() == '\\' || base.last() == '/' {
        base + part
    } else {
        base + seq!['\\'] + part
    }
}

fn path_join_win(base: &str, part: &str) -> (r: String)
    ensures
        r@ == join_win(base@, part@),
{
    proof {
        reveal_strlit("\\");
    }
    let n = base.unicode_len();
    let mut r = String::from_str(base);
    if n > 0 && base.get_char(n - 1) != '\\' && base.get_char(n - 1) != '/' {
        r.append("\\");
    }
    r.append(part);
    r
}

/// All plugins of the successful scans, in scan order.
pub open spec fn concat_ok(results: Seq<Result<Vec<PluginInfo>, PluginError>>) -> Seq<PluginInfo>
    decreases results.len(),
{
    if results.len() == 0 {
        seq![]
    } else {
        concat_ok(results.drop_last()) + match results.last() {
            Ok(v) => v@,
            Err(_) => Seq::<PluginInfo>::empty(),
        }
    }
}

/// Names of the plugins whose name contains one of `names`.
pub open spec fn matching_names(plugins: Seq<PluginInfo>, names: Seq<Seq<char>>) -> Seq<Seq<char>>
    decreases plugins.len(),
{
    if plugins.len() == 0 {
        seq![]
    } else {
        matching_names(plugins.drop_last(), names) + if exists|k: int|
            0 <= k < names.len() && contains_substr(plugins.last().name@, #[trigger] names[k]) {
            seq![plugins.last().name@]
        } else {
            Seq::<Seq<char>>::empty()
        }
    }
}

/// A plugin counts for a group exactly when one of the group's names occurs
/// somewhere in its name: every such plugin's name is reported, and every
/// reported name is such a plugin's name, in plugin order.
pub proof fn law_matching_by_substring(plugins: Seq<PluginInfo>, names: Seq<Seq<char>>, i: int, k: int, j: int)
    requires
        0 <= i < plugins.len(),
        0 <= k < names.len(),
        0 <= j,
        j + names[k].len() <= plugins[i].name@.len(),
        plugins[i].name@.subrange(j, j + names[k].len()) == names[k],
    ensures
        matching_names(plugins, names).contains(plugins[i].name@),
    decreases plugins.len(),
{
    let p = plugins.drop_last();
    if i == plugins.len() - 1 {
        assert(contains_substr(plugins.last().name@, names[k]));
        let m = matching_names(plugins, names);
        assert(m[m.len() - 1] == plugins[i].name@);
    } else {
        assert(p[i] == plugins[i]);
        law_matching_by_substring(p, names, i, k, j);
        let m0 = matching_names(p, names);
        let t = choose|t: int| 0 <= t < m0.len() && m0[t] == plugins[i].name@;
        assert(matching_names(plugins, names)[t] == plugins[i].name@);
    }
}

/// Every reported name is the name of a plugin in which one of the group's
/// names occurs, and no more names are reported than there are plugins.
pub proof fn law_matching_only_substrings(plugins: Seq<PluginInfo>, names: Seq<Seq<char>>, t: int)
    requires
        0 <= t < matching_names(plugins, names).len(),
    ensures
        matching_names(plugins, names).len() <= plugins.len(),
        exists|i: int, k: int, j: int|
            0 <= i < plugins.len() && 0 <= k < names.len() && 0 <= j && j + names[k].len() <= plugins[i].name@.len()
                && plugins[i].name@ == matching_names(plugins, names)[t] && #[trigger] plugins[i].name@.subrange(
                j,
                j + names[k].len(),
            ) == names[k],
    decreases plugins.len(),
{
    let p = plugins.drop_last();
    let m0 = matching_names(p, names);
    lemma_matching_len(p, names);
    if t < m0.len() {
        law_matching_only_substrings(p, names, t);
        let (i, k, j) = choose|i: int, k: int, j: int|
            0 <= i < p.len() && 0 <= k < names.len() && 0 <= j && j + names[k].len() <= p[i].name@.len()
                && p[i].name@ == m0[t] && #[trigger] p[i].name@.subrange(j, j + names[k].len()) == names[k];
        assert(plugins[i] == p[i]);
        assert(plugins[i].name@.subrange(j, j + names[k].len()) == names[k]);
    } else {
        let i = plugins.len() - 1;
        let k = choose|k: int| 0 <= k < names.len() && contains_substr(plugins.last().name@, #[trigger] names[k]);
        let j = choose|j: int|
            0 <= j && j + names[k].len() <= plugins[i].name@.len() && #[trigger] plugins[i].name@.subrange(
                j,
                j + names[k].len(),
            ) == names[k];
        assert(plugins[i].name@.subrange(j, j + names[k].len()) == names[k]);
    }
    lemma_matching_len(plugins, names);
}

proof fn lemma_matching_len(plugins: Seq<PluginInfo>, names: Seq<Seq<char>>)
    ensures
        matching_names(plugins, names).len() <= plugins.len(),
    decreases plugins.len(),
{
    if plugins.len() > 0 {
        lemma_matching_len(plugins.drop_last(), names);
    }
}

/// The known conflict group is the plugdata family: every plugin in whose
/// name `plugdata` occurs is reported for it.
pub proof fn law_plugdata_conflict_group(plugins: Seq<PluginInfo>)
    ensures
        conflict_groups().len() == 1,
        forall|i: int, j: int|
            0 <= i < plugins.len() && 0 <= j && j + 8 <= plugins[i].name@.len() && #[trigger] plugins[i].name@.subrange(
                j,
                j + 8,
            ) == "plugdata"@ ==> matching_names(plugins, conflict_groups()[0]).contains(plugins[i].name@),
{
    reveal_strlit("plugdata");
    reveal_strlit("plugdata-fx");
    let names = conflict_groups()[0];
    assert(names[0] == "plugdata"@);
    assert(names[0].len() == 8);
    assert forall|i: int, j: int|
        0 <= i < plugins.len() && 0 <= j && j + 8 <= plugins[i].name@.len() && #[trigger] plugins[i].name@.subrange(
            j,
            j + 8,
        ) == "plugdata"@ implies matching_names(plugins, names).contains(plugins[i].name@) by {
        law_matching_by_substring(plugins, names, i, 0, j);
    }
}

/// Every name reported for the known conflict group is the name of a plugin
/// in which `plugdata` occurs.
pub proof fn law_plugdata_reported_member(plugins: Seq<PluginInfo>, t: int)
    requires
        0 <= t < matching_names(plugins, conflict_groups()[0]).len(),
    ensures
        exists|i: int, j: int|
            0 <= i < plugins.len() && 0 <= j && j + 8 <= plugins[i].name@.len() && plugins[i].name@ == matching_names(
                plugins,
                conflict_groups()[0],
            )[t] && #[trigger] plugins[i].name@.subrange(j, j + 8) == "plugdata"@,
{
    reveal_strlit("plugdata");
    reveal_strlit("plugdata-fx");
    let names = conflict_groups()[0];
    assert(names[0] == "plugdata"@);
    law_matching_only_substrings(plugins, names, t);
    let (i, k, j) = choose|i: int, k: int, j: int|
        0 <= i < plugins.len() && 0 <= k < names.len() && 0 <= j && j + names[k].len() <= plugins[i].name@.len()
            && plugins[i].name@ == matching_names(plugins, names)[t] && #[trigger] plugins[i].name@.subrange(
            j,
            j + names[k].len(),
        ) == names[k];
    let nm = plugins[i].name@;
    if k == 1 {
        assert(names[1].subrange(0, 8) =~= "plugdata"@);
        assert(nm.subrange(j, j + 8) =~= nm.subrange(j, j + names[1].len()).subrange(0, 8));
    } else {
        assert(k == 0);
    }
    assert(nm.subrange(j, j + 8) == "plugdata"@);
    assert(j + 8 <= nm.len());
}

/// Known groups of plugins that clash when loaded together.
pub open spec fn conflict_groups() -> Seq<Seq<Seq<char>>> {
    seq![seq!["plugdata"@, "plugdata-fx"@]]
}

/// Standard plugin directories for each system; the home (or, on
/// Windows, the local application data) directory adds the user's own.
pub open spec fn search_paths(os: TargetOs, home: Option<Seq<char>>, local_app_data: Option<Seq<char>>) -> Seq<Seq<char>> {
    match os {
        TargetOs::MacOs => {
            let user = match home {
                Some(h) => seq![join_path(h, "Library/Audio/Plug-Ins/VST3"@)],
                None => Seq::<Seq<char>>::empty(),
            };
            seq!["/Library/Audio/Plug-Ins/VST3"@] + user
        },
        TargetOs::Windows => {
            let user = match local_app_data {
                Some(a) => seq![join_win(a, "Programs\\Common\\VST3"@)],
                None => Seq::<Seq<char>>::empty(),
            };
            seq!["C:\\Program Files\\Common Files\\VST3"@] + user
        },
        TargetOs::Linux => {
            let user = match home {
                Some(h) => seq![join_path(h, ".vst3"@)],
                None => Seq::<Seq<char>>::empty(),
            };
            user + seq!["/usr/lib/vst3"@, "/usr/local/lib/vst3"@]
        },
    }
}

/// The characters of an optional string.
pub open spec fn opt_view(o: Option<&str>) -> Option<Seq<char>> {
    match o {
        Some(s) => Some(s@),
        None => None,
    }
}

/// List notation of a class id.
fn bytes_list_exec(id: &[u8; 16]) -> (s: String)
    ensures
        s@ == bytes_list(id@),
{
    let mut s = String::from_str("[");
    let mut i: usize = 0;
    while i < 16
        invariant
            i <= 16,
            id@.len() == 16,
            s@ == "["@ + list_body(id@.take(i as int)),
        decreases 16 - i,
    {
        proof {
            assert(id@.take(i + 1).drop_last() =~= id@.take(i as int));
        }
        if i > 0 {
            s.append(", ");
        }
        push_decimal(&mut s, id[i] as u64);
        i = i + 1;
        proof {
            let t = id@.take(i as int);
            if i == 1 {
                assert(list_body(t) == decimal(t[0] as nat));
                assert(list_body(id@.take(0)) =~= seq![]);
            }
        }
    }
    s.append("]");
    proof {
        assert(id@.take(16) =~= id@);
    }
    s
}

/// Scan a directory for VST3 plugins (the format's standalone scan, which
/// finds none).
pub fn scan_plugins(path: &str) -> (res: Result<Vec<PluginInfo>, PluginError>)
    ensures
        res matches Ok(v) && v@.len() == 0,
{
    Ok(Vec::new())
}

impl Vst3Loader {
    /// Scan a directory for VST3 plugins.
    ///
    /// `kind` is what the path names on disk and `walked` the outcome of
    /// walking it (consulted only for a directory): a missing path yields
    /// no plugins, a path that is not a directory is an error.
    pub fn scan(path: &str, kind: PathKind, walked: Result<Vec<PluginInfo>, PluginError>) -> (res: Result<Vec<PluginInfo>, PluginError>)
        ensures
            kind == PathKind::Missing ==> (res matches Ok(v) && v@.len() == 0),
            kind == PathKind::File ==> (res matches Err(PluginError::FormatError(m)) && m@ == "Scan path is not a directory: "@ + path@),
            kind == PathKind::Directory ==> res == walked,
    {
        match kind {
            PathKind::Missing => Ok(Vec::new()),
            PathKind::File => {
                let mut m = String::from_str("Scan path is not a directory: ");
                m.append(path);
                Err(PluginError::FormatError(m))
            },
            PathKind::Directory => walked,
        }
    }

    /// What the directory walk does with an entry: directories named
    /// `*.vst3` (any letter case) are bundles to scan, other directories are
    /// descended into, everything else is ignored.
    pub fn classify_entry(path: &str, is_dir: bool) -> (a: EntryAction)
        requires
            path@.len() <= i64::MAX,
        ensures
            !is_dir ==> a == EntryAction::Skip,
            is_dir && (extension(path@) matches Some(e) && eq_ignore_ascii_case(e, "vst3"@)) ==> a == EntryAction::ScanBundle,
            is_dir && !(extension(path@) matches Some(e) && eq_ignore_ascii_case(e, "vst3"@)) ==> a == EntryAction::Descend,
    {
        if !is_dir {
            return EntryAction::Skip;
        }
        match path_extension(path) {
            Some(e) => {
                if str_eq_ignore_ascii_case(e.as_str(), "vst3") {
                    EntryAction::ScanBundle
                } else {
                    EntryAction::Descend
                }
            },
            None => EntryAction::Descend,
        }
    }

    /// Combine the scans of all standard directories: the plugins of every
    /// successful scan in order; failed scans are skipped.
    pub fn scan_system(results: Vec<Result<Vec<PluginInfo>, PluginError>>) -> (all: Vec<PluginInfo>)
        ensures
            all@ == concat_ok(results@),
    {
        let mut all: Vec<PluginInfo> = Vec::new();
        let mut i: usize = 0;
        while i < results.len()
            invariant
                i <= results.len(),
                all@ == concat_ok(results@.take(i as int)),
            decreases results.len() - i,
        {
            proof {
                assert(results@.take(i + 1).drop_last() =~= results@.take(i as int));
            }
            match &results[i] {
                Ok(v) => {
                    let mut j: usize = 0;
                    let ghost base = all@;
                    while j < v.len()
                        invariant
                            j <= v.len(),
                            all@ == base + v@.take(j as int),
                        decreases v.len() - j,
                    {
                        all.push(v[j].duplicate());
                        j = j + 1;
                        assert(all@ =~= base + v@.take(j as int));
                    }
                    assert(v@.take(v.len() as int) =~= v@);
                },
                Err(_) => {
                    assert(all@ =~= all@ + Seq::<PluginInfo>::empty());
                },
            }
            i = i + 1;
        }
        assert(results@.take(results.len() as int) =~= results@);
        all
    }

    /// Path of the plugin library inside a bundle for the given system (for
    /// Windows, `\` separates path components as well as `/`).
    pub fn get_library_path(os: TargetOs, bundle_path: &str) -> (res: Result<String, PluginError>)
        requires
            bundle_path@.len() <= i64::MAX,
        ensures
            match file_stem(bundle_path@, os == TargetOs::Windows) {
                Some(name) => res matches Ok(p) && p@ == library_path(os, bundle_path@, name),
                None => res matches Err(PluginError::FormatError(m)) && m@ == "Invalid bundle name"@,
            },
    {
        let win = match os {
            TargetOs::Windows => true,
            _ => false,
        };
        let name = match path_file_stem(bundle_path, win) {
            Some(n) => n,
            None => {
                return Err(PluginError::FormatError(String::from_str("Invalid bundle name")));
            },
        };
        match os {
            TargetOs::MacOs => {
                let a = path_join(bundle_path, "Contents");
                let b = path_join(a.as_str(), "MacOS");
                Ok(path_join(b.as_str(), name.as_str()))
            },
            TargetOs::Windows => {
                let a = path_join_win(bundle_path, "Contents");
                let b = path_join_win(a.as_str(), "x86_64-win");
                let mut file = name;
                file.append(".vst3");
                Ok(path_join_win(b.as_str(), file.as_str()))
            },
            TargetOs::Linux => {
                let a = path_join(bundle_path, "Contents");
                let b = path_join(a.as_str(), "x86_64-linux");
                let mut file = name;
                file.append(".so");
                Ok(path_join(b.as_str(), file.as_str()))
            },
        }
    }

    /// The library to load for a plugin path: the bundle's library when the
    /// path is a directory, the path itself otherwise.
    pub fn resolve_library_path(os: TargetOs, path: &str, is_dir: bool) -> (res: Result<String, PluginError>)
        requires
            path@.len() <= i64::MAX,
        ensures
            !is_dir ==> (res matches Ok(p) && p@ == path@),
            is_dir ==> match file_stem(path@, os == TargetOs::Windows) {
                Some(name) => res matches Ok(p) && p@ == library_path(os, path@, name),
                None => res matches Err(PluginError::FormatError(m)) && m@ == "Invalid bundle name"@,
            },
    {
        if is_dir {
            Self::get_library_path(os, path)
        } else {
            Ok(String::from_str(path))
        }
    }

    /// Validate a plugin path for security.
    ///
    /// A path holding a `..` component is refused. `canonical` is the
    /// canonical form of the path and whether it names a directory, when
    /// the path could be resolved: a resolved path that has no extension
    /// and is not a directory is refused. An unresolved path passes (its
    /// absence is reported when the library is looked up).
    pub fn validate_plugin_path(path: &str, canonical: Option<(&str, bool)>) -> (res: Result<(), PluginError>)
        requires
            canonical matches Some((c, _)) ==> c@.len() <= i64::MAX,
        ensures
            has_parent_component(path@) ==> (res matches Err(PluginError::FormatError(m))
                && m@ == "Plugin path cannot contain '..' components (directory traversal)"@),
            !has_parent_component(path@) && (canonical matches Some((c, is_dir)) && extension(c@) is None && !is_dir)
                ==> (res matches Err(PluginError::FormatError(m))
                && m@ == "Plugin path must be a .vst3 bundle or dynamic library file"@),
            !has_parent_component(path@) && !(canonical matches Some((c, is_dir)) && extension(c@) is None && !is_dir)
                ==> res is Ok,
    {
        if contains_parent_component(path) {
            return Err(PluginError::FormatError(String::from_str("Plugin path cannot contain '..' components (directory traversal)")));
        }
        match canonical {
            Some((c, is_dir)) => {
                match path_extension(c) {
                    Some(_) => Ok(()),
                    None => {
                        if !is_dir {
                            Err(PluginError::FormatError(String::from_str("Plugin path must be a .vst3 bundle or dynamic library file")))
                        } else {
                            Ok(())
                        }
                    },
                }
            },
            None => Ok(()),
        }
    }

    /// Names of plugins that must not be used together: for every known
    /// conflict group matched by more than one plugin, the names of the
    /// matching plugins.
    pub fn check_for_conflicts(plugins: &Vec<PluginInfo>) -> (found: Vec<Vec<String>>)
        ensures
            found@.len() <= conflict_groups().len(),
            forall|g: int| 0 <= g < found@.len() ==> (#[trigger] found@[g])@.len() > 1,
            conflict_groups().len() == 1 && (matching_names(plugins@, conflict_groups()[0]).len() > 1 <==> found@.len() == 1),
            found@.len() == 1 ==> forall|i: int| 0 <= i < found@[0]@.len() ==> (#[trigger] found@[0]@[i])@
                == matching_names(plugins@, conflict_groups()[0])[i],
            found@.len() == 1 ==> found@[0]@.len() == matching_names(plugins@, conflict_groups()[0]).len(),
    {
        let ghost names = conflict_groups()[0];
        proof {
            reveal_strlit("plugdata");
            reveal_strlit("plugdata-fx");
        }
        let mut matched: Vec<String> = Vec::new();
        let mut i: usize = 0;
        while i < plugins.len()
            invariant
                i <= plugins.len(),
                names == seq!["plugdata"@, "plugdata-fx"@],
                matched@.len() == matching_names(plugins@.take(i as int), names).len(),
                forall|t: int| 0 <= t < matched@.len() ==> (#[trigger] matched@[t])@ == matching_names(plugins@.take(i as int), names)[t],
            decreases plugins.len() - i,
        {
            proof {
                assert(plugins@.take(i + 1).drop_last() =~= plugins@.take(i as int));
            }
            let name = plugins[i].name.as_str();
            let hit_a = str_contains(name, "plugdata");
            let hit_b = str_contains(name, "plugdata-fx");
            let ghost prev = matched@;
            proof {
                let t = plugins@.take(i + 1);
                assert(t.last() == plugins@[i as int]);
                if hit_a || hit_b {
                    if hit_a {
                        assert(contains_substr(t.last().name@, names[0]));
                    } else {
                        assert(contains_substr(t.last().name@, names[1]));
                    }
                } else {
                    assert forall|k: int| 0 <= k < names.len() implies !contains_substr(t.last().name@, #[trigger] names[k]) by {
                        if k == 0 {
                        } else {
                            assert(k == 1);
                        }
                    }
                }
            }
            if hit_a || hit_b {
                matched.push(plugins[i].name.clone());
            }
            i = i + 1;
        }
        proof {
            assert(plugins@.take(plugins.len() as int) =~= plugins@);
        }
        let mut found: Vec<Vec<String>> = Vec::new();
        if matched.len() > 1 {
            found.push(matched);
        }
        found
    }

    /// The standard plugin directories for a system; `home` and
    /// `local_app_data` are the user's home and (on Windows) local
    /// application data directories, when known.
    pub fn get_vst3_search_paths(os: TargetOs, home: Option<&str>, local_app_data: Option<&str>) -> (paths: Vec<String>)
        ensures
            paths@.len() == search_paths(os, opt_view(home), opt_view(local_app_data)).len(),
            forall|i: int| 0 <= i < paths@.len() ==> (#[trigger] paths@[i])@ == search_paths(os, opt_view(home), opt_view(local_app_data))[i],
    {
        let mut paths: Vec<String> = Vec::new();
        match os {
            TargetOs::MacOs => {
                paths.push(String::from_str("/Library/Audio/Plug-Ins/VST3"));
                if let Some(h) = home {
                    paths.push(path_join(h, "Library/Audio/Plug-Ins/VST3"));
                }
            },
            TargetOs::Windows => {
                paths.push(String::from_str("C:\\Program Files\\Common Files\\VST3"));
                if let Some(a) = local_app_data {
                    paths.push(path_join_win(a, "Programs\\Common\\VST3"));
                }
            },
            TargetOs::Linux => {
                if let Some(h) = home {
                    paths.push(path_join(h, ".vst3"));
                }
                paths.push(String::from_str("/usr/lib/vst3"));
                paths.push(String::from_str("/usr/local/lib/vst3"));
            },
        }
        paths
    }

    /// A factory must export at least one class.
    pub fn check_class_count(count: i32) -> (res: Result<(), PluginError>)
        ensures
            count == 0 ==> (res matches Err(PluginError::FormatError(m)) && m@ == "Plugin has no exported classes"@),
            count != 0 ==> res is Ok,
    {
        if count == 0 {
            Err(PluginError::FormatError(String::from_str("Plugin has no exported classes")))
        } else {
            Ok(())
        }
    }

    /// Plugin information built from the first class of a factory: the
    /// class name, vendor `Unknown`, version `1.0.0`, and the class id in
    /// list notation as unique id.
    pub fn plugin_info_from_class(class_info: &ClassInfo) -> (info: PluginInfo)
        ensures
            info.name@ == class_info.name@,
            info.vendor@ == "Unknown"@,
            info.version@ == "1.0.0"@,
            info.unique_id@ == bytes_list(class_info.class_id@),
    {
        PluginInfo {
            name: class_info.name.clone(),
            vendor: String::from_str("Unknown"),
            version: String::from_str("1.0.0"),
            unique_id: bytes_list_exec(&class_info.class_id),
        }
    }

    /// Outcome of scanning one bundle from what the scanner subprocess
    /// reported: whether it exited successfully, its standard output parsed
    /// as a [`ScanResult`] (or the parse error), and its raw output streams.
    pub fn interpret_scanner_output(exit_ok: bool, parsed: Result<ScanResult, String>, stdout: &str, stderr: &str) -> (res: Result<PluginInfo, PluginError>)
        ensures
            exit_ok ==> match parsed {
                Ok(ScanResult::Success { plugin }) => res == Ok::<PluginInfo, PluginError>(plugin),
                Ok(ScanResult::Error { message }) => res matches Err(PluginError::FormatError(m)) && m@ == message@,
                Err(e) => res matches Err(PluginError::FormatError(m)) && m@ == "Failed to parse scanner output as JSON: "@ + e@ + "\nOutput: "@ + stdout@,
            },
            !exit_ok ==> match parsed {
                Ok(ScanResult::Success { .. }) => res matches Err(PluginError::FormatError(m)) && m@ == "Subprocess reported success but exited with error status"@,
                Ok(ScanResult::Error { message }) => res matches Err(PluginError::FormatError(m)) && m@ == message@,
                Err(_) => res matches Err(PluginError::FormatError(m)) && m@ == "Scanner subprocess failed: "@ + if stderr@.len() == 0 { stdout@ } else { stderr@ },
            },
    {
        if !exit_ok {
            return match parsed {
                Ok(ScanResult::Error { message }) => Err(PluginError::FormatError(message)),
                Ok(ScanResult::Success { .. }) => Err(PluginError::FormatError(String::from_str("Subprocess reported success but exited with error status"))),
                Err(_) => {
                    let mut m = String::from_str("Scanner subprocess failed: ");
                    if stderr.unicode_len() == 0 {
                        m.append(stdout);
                    } else {
                        m.append(stderr);
                    }
                    Err(PluginError::FormatError(m))
                },
            };
        }
        match parsed {
            Ok(ScanResult::Success { plugin }) => Ok(plugin),
            Ok(ScanResult::Error { message }) => Err(PluginError::FormatError(message)),
            Err(e) => {
                let mut m = String::from_str("Failed to parse scanner output as JSON: ");
                m.append(e.as_str());
                m.append("\nOutput: ");
                m.append(stdout);
                Err(PluginError::FormatError(m))
            },
        }
    }
}

} // verus!
