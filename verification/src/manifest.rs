//! One plugin directory's descriptor and its conversion into a loaded
//! plugin: version parsing with defaults, declared files paired with their
//! contents, folder bundles packaged into archives, and the metadata
//! summary. Reading the descriptor document and the files from disk is the
//! caller's part; everything handed in is plain values.

use vstd::prelude::*;
use crate::archive::{
    archive_encoding, bundle_clean, bundle_entries, bundle_under_root, package_bundle,
    ArchiveError, BundleFile,
};
use crate::location::InstallLocation;
use crate::paths::{append_suffix, archive_suffix, archive_suffix_spec};
use crate::version::{parse_version, semver_parts, version_has_key, version_is_zero, Version};

verus! {

/// One declared file of a descriptor: where it installs, and the file that
/// holds its contents beside the descriptor.
pub struct PluginFile {
    pub install_location: InstallLocation,
    pub filename: String,
}

/// One declared folder bundle of a descriptor: where its archive installs,
/// and the folder's name beside the descriptor.
pub struct PluginFolder {
    pub install_root_location: InstallLocation,
    pub root_name: String,
}

/// The optional metadata block of a descriptor.
pub struct TomlMetadata {
    pub name: Option<String>,
    pub images: Option<Vec<String>>,
    pub description: Option<String>,
    pub changelog: Option<String>,
}

/// A plugin descriptor, as the descriptor document states it.
pub struct PluginToml {
    pub version: String,
    pub name: String,
    pub beta: Option<bool>,
    pub files: Vec<PluginFile>,
    pub folders: Option<Vec<PluginFolder>>,
    pub skyline_version: Option<String>,
    pub metadata: Option<TomlMetadata>,
}

/// A loaded plugin's metadata: the raw bytes of each image and the
/// changelog text, where the descriptor named them.
pub struct Metadata {
    pub name: Option<String>,
    pub images: Option<Vec<Vec<u8>>>,
    pub description: Option<String>,
    pub changelog: Option<String>,
}

impl Default for Metadata {
    /// A metadata block with nothing in it.
    fn default() -> (r: Metadata)
        ensures
            r.name is None,
            r.images is None,
            r.description is None,
            r.changelog is None,
    {
        Metadata { name: None, images: None, description: None, changelog: None }
    }
}

/// One fully loaded plugin: every served file's location and contents, with
/// packaged bundle archives after the declared files.
pub struct Plugin {
    pub name: String,
    pub plugin_version: Version,
    pub files: Vec<(InstallLocation, Vec<u8>)>,
    pub skyline_version: Version,
    pub beta: bool,
    pub metadata: Metadata,
}

/// Why one plugin failed to load. A failing plugin is skipped; it never
/// blocks the others.
#[derive(Debug)]
pub enum ManifestError {
    /// The descriptor file was not found beside the plugin directory.
    DescriptorMissing,
    /// The descriptor document could not be decoded.
    DescriptorMalformed,
    /// A declared file, bundle source, image or changelog could not be
    /// read.
    FileUnreadable,
    /// The descriptor's `version` is not a semantic version.
    BadVersion,
    /// A folder bundle could not be packaged.
    Archive(ArchiveError),
}

/// The enumeration of one folder bundle's source: the root that was walked
/// and every file found below it.
pub struct BundleSource {
    pub root: String,
    pub files: Vec<BundleFile>,
}

/// An absent `beta` flag means a regular release.
pub open spec fn default_bool(o: Option<bool>) -> bool {
    match o {
        Some(b) => b,
        None => false,
    }
}

/// The minimum runtime version a descriptor asks for: `v` is the version
/// the text names, or version zero where the text is absent or unreadable.
pub open spec fn skyline_version_ok(o: Option<String>, v: Version) -> bool {
    match o {
        Some(s) => match semver_parts(s@) {
            Some(k) => version_has_key(v, k),
            None => version_is_zero(v),
        },
        None => version_is_zero(v),
    }
}

/// The declared folder bundles of a descriptor, absent meaning none.
pub open spec fn folder_seq(o: Option<Vec<PluginFolder>>) -> Seq<PluginFolder> {
    match o {
        Some(v) => v@,
        None => Seq::empty(),
    }
}

/// Where a declared file's contents are read from: its own path where it is
/// absolute, otherwise beside the plugin directory.
pub fn source_path(dir: &str, filename: &str) -> (r: String)
    ensures
        r@ == if filename@.len() > 0 && filename@[0] == '/' {
            filename@
        } else {
            dir@ + "/"@ + filename@
        },
{
    if crate::paths::is_absolute(filename) {
        String::from_str(filename)
    } else {
        crate::paths::join_path(dir, filename)
    }
}

/// The descriptor file expected inside every plugin directory.
pub fn descriptor_path(dir: &str) -> (r: String)
    ensures
        r@ == dir@ + "/"@ + "plugin.toml"@,
{
    crate::paths::join_path(dir, "plugin.toml")
}

/// Turn one decoded descriptor into a loaded plugin.
///
/// `file_data` holds the contents of each declared file, in declaration
/// order; `bundles` the enumerated source tree of each declared folder, in
/// declaration order. An unreadable `version` fails the plugin; so does a
/// bundle whose files do not lie below its root, or whose archive could not
/// be written. The loaded plugin serves the declared files first, then one
/// packaged archive per folder bundle, installed at the folder's location
/// with the archive suffix appended.
pub fn folder_to_plugin(
    doc: PluginToml,
    file_data: Vec<Vec<u8>>,
    bundles: Vec<BundleSource>,
    images: Option<Vec<Vec<u8>>>,
    changelog: Option<String>,
) -> (r: Result<Plugin, ManifestError>)
    requires
        file_data@.len() == doc.files@.len(),
        bundles@.len() == folder_seq(doc.folders).len(),
    ensures
        (r matches Err(ManifestError::BadVersion)) <==> semver_parts(doc.version@) is None,
        semver_parts(doc.version@) is Some && (forall|k: int|
            0 <= k < bundles@.len() ==> bundle_clean(
                #[trigger] bundles@[k].root@,
                bundles@[k].files@,
            )) ==> r is Ok,
        (exists|k: int|
            0 <= k < bundles@.len() && !bundle_under_root(
                bundles@[k].root@,
                bundles@[k].files@,
            )) ==> r is Err,
        r matches Ok(p) ==> {
            &&& p.name == doc.name
            &&& (semver_parts(doc.version@) matches Some(k) && version_has_key(
                p.plugin_version,
                k,
            ))
            &&& p.beta == default_bool(doc.beta)
            &&& skyline_version_ok(doc.skyline_version, p.skyline_version)
            &&& p.files@.len() == doc.files@.len() + bundles@.len()
            &&& forall|k: int|
                0 <= k < doc.files@.len() ==> #[trigger] p.files@[k].0
                    == doc.files@[k].install_location && p.files@[k].1 == file_data@[k]
            &&& forall|k: int|
                0 <= k < bundles@.len() ==> {
                    &&& (#[trigger] p.files@[doc.files@.len() + k]).0.path_spec() == folder_seq(
                        doc.folders,
                    )[k].install_root_location.path_spec() + archive_suffix_spec()
                    &&& p.files@[doc.files@.len() + k].1@ == archive_encoding(
                        bundle_entries(bundles@[k].root@, bundles@[k].files@),
                    )
                    &&& bundle_under_root(bundles@[k].root@, bundles@[k].files@)
                }
            &&& (doc.metadata matches Some(m) ==> p.metadata.name == m.name
                && p.metadata.description == m.description && p.metadata.images == images
                && p.metadata.changelog == changelog)
            &&& (doc.metadata is None ==> p.metadata.name is None && p.metadata.images is None
                && p.metadata.description is None && p.metadata.changelog is None)
        },
{
    let PluginToml { version, name, beta, files: declared, folders, skyline_version, metadata } =
        doc;

    let plugin_version = match parse_version(version.as_str()) {
        Some(v) => v,
        None => {
            return Err(ManifestError::BadVersion);
        },
    };
    let skyline_version = match &skyline_version {
        Some(s) => match parse_version(s.as_str()) {
            Some(v) => v,
            None => Version::zero(),
        },
        None => Version::zero(),
    };
    let beta = match beta {
        Some(b) => b,
        None => false,
    };
    let folders_vec: Vec<PluginFolder> = match folders {
        Some(v) => v,
        None => Vec::new(),
    };

    let ghost fd0 = file_data@;
    let mut data = file_data;
    let mut files: Vec<(InstallLocation, Vec<u8>)> = Vec::new();
    let n = declared.len();
    let mut k: usize = 0;
    while k < n
        invariant
            n == declared@.len(),
            fd0.len() == n,
            k <= n,
            data@ == fd0.skip(k as int),
            files@.len() == k,
            forall|j: int|
                0 <= j < k ==> #[trigger] files@[j].0 == declared@[j].install_location
                    && files@[j].1 == fd0[j],
        decreases n - k,
    {
        let d = data.remove(0);
        proof {
            assert(fd0.skip(k as int).remove(0) =~= fd0.skip(k + 1));
        }
        let loc = declared[k].install_location.dup();
        files.push((loc, d));
        k += 1;
    }

    let mut k: usize = 0;
    while k < bundles.len()
        invariant
            n == declared@.len(),
            fd0.len() == n,
            k <= bundles@.len(),
            folders_vec@ == folder_seq(doc.folders),
            bundles@.len() == folders_vec@.len(),
            semver_parts(doc.version@) matches Some(k) && version_has_key(
                plugin_version,
                k,
            ),
            forall|j: int|
                0 <= j < k ==> bundle_under_root(
                    #[trigger] bundles@[j].root@,
                    bundles@[j].files@,
                ),
            files@.len() == n + k,
            forall|j: int|
                0 <= j < n ==> #[trigger] files@[j].0 == declared@[j].install_location
                    && files@[j].1 == fd0[j],
            forall|j: int|
                0 <= j < k ==> {
                    &&& (#[trigger] files@[n + j]).0.path_spec() == folders_vec@[
                        j
                    ].install_root_location.path_spec() + archive_suffix_spec()
                    &&& files@[n + j].1@ == archive_encoding(
                        bundle_entries(bundles@[j].root@, bundles@[j].files@),
                    )
                    &&& bundle_under_root(bundles@[j].root@, bundles@[j].files@)
                },
        decreases bundles@.len() - k,
    {
        let bytes = match package_bundle(bundles[k].root.as_str(), &bundles[k].files) {
            Ok(b) => b,
            Err(e) => {
                return Err(ManifestError::Archive(e));
            },
        };
        let base = folders_vec[k].install_root_location.path();
        let tarred = append_suffix(base.as_str(), archive_suffix());
        files.push((InstallLocation::AbsolutePath(tarred), bytes));
        k += 1;
    }

    let metadata = match metadata {
        Some(m) => Metadata {
            name: m.name,
            images,
            description: m.description,
            changelog,
        },
        None => Metadata { name: None, images: None, description: None, changelog: None },
    };

    Ok(Plugin { name, plugin_version, files, skyline_version, beta, metadata })
}

/// The plugins that loaded, in order; a failing plugin is skipped.
pub open spec fn loaded_plugins(s: Seq<Result<Plugin, ManifestError>>) -> Seq<Plugin>
    decreases s.len(),
{
    if s.len() == 0 {
        Seq::empty()
    } else {
        match s[0] {
            Ok(p) => seq![p] + loaded_plugins(s.drop_first()),
            Err(_) => loaded_plugins(s.drop_first()),
        }
    }
}

/// Keep every plugin that loaded, in order, and drop the failures: one bad
/// plugin never blocks the others.
pub fn collect_loaded(results: Vec<Result<Plugin, ManifestError>>) -> (r: Vec<Plugin>)
    ensures
        r@ == loaded_plugins(results@),
{
    let ghost r0 = results@;
    let mut rest = results;
    let mut out: Vec<Plugin> = Vec::new();
    while rest.len() > 0
        invariant
            loaded_plugins(r0) == out@ + loaded_plugins(rest@),
        decreases rest@.len(),
    {
        let ghost pre = rest@;
        let item = rest.remove(0);
        proof {
            assert(pre.remove(0) =~= pre.drop_first());
        }
        match item {
            Ok(p) => {
                proof {
                    assert(loaded_plugins(pre) =~= seq![pre[0]->Ok_0] + loaded_plugins(
                        pre.drop_first(),
                    ));
                }
                out.push(p);
                proof {
                    assert(out@ + loaded_plugins(rest@) =~= loaded_plugins(r0));
                }
            },
            Err(_) => {},
        }
    }
    proof {
        assert(loaded_plugins(rest@) =~= Seq::<Plugin>::empty());
        assert(out@ + loaded_plugins(rest@) =~= out@);
        assert(out@ == loaded_plugins(r0));
    }
    out
}

} // verus!
