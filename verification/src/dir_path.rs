//! The folders of the two caches and their measured sizes.

use vstd::prelude::*;
use crate::text::same_text;

verus! {

/// A folder of the caches.
#[derive(Clone, Copy, Debug, PartialEq, Eq, Structural)]
pub enum CacheFolder {
    /// The git cache as a whole.
    Git,
    /// The checkouts of the git cache.
    Checkout,
    /// The bare repository stores of the git cache.
    Db,
    /// The registry cache as a whole.
    Registry,
    /// The compressed packages of the registry cache.
    Cache,
    /// The index of the registry.
    Index,
    /// The cache that the package manager keeps below the index.
    IndexCache,
    /// The extracted sources of the registry cache.
    Src,
}

/// The measured size of each folder; `None` where a folder is missing or
/// could not be measured.
#[derive(Clone, Copy, Debug)]
pub struct FolderSizes {
    pub git: Option<u64>,
    pub checkout: Option<u64>,
    pub db: Option<u64>,
    pub registry: Option<u64>,
    pub cache: Option<u64>,
    pub index: Option<u64>,
    pub src: Option<u64>,
}

/// One line of a size report: a folder, the number of artifacts in it where
/// the report gives one, and its size in bytes.
#[derive(Clone, Copy, Debug)]
pub struct QueryLine {
    pub folder: CacheFolder,
    pub crates: Option<usize>,
    pub bytes: u64,
}

/// A measured size, zero where there is none.
pub open spec fn measured(size: Option<u64>) -> u64 {
    match size {
        Some(bytes) => bytes,
        None => 0,
    }
}

/// A measured size, zero where there is none.
pub fn bytes_of(size: Option<u64>) -> (r: u64)
    ensures
        r == measured(size),
{
    match size {
        Some(bytes) => bytes,
        None => 0,
    }
}

/// The folder that a word names.
pub open spec fn folder_named(value: Seq<char>) -> Option<CacheFolder> {
    if value == "git"@ {
        Some(CacheFolder::Git)
    } else if value == "checkouts"@ {
        Some(CacheFolder::Checkout)
    } else if value == "db"@ {
        Some(CacheFolder::Db)
    } else if value == "registry"@ {
        Some(CacheFolder::Registry)
    } else if value == "cache"@ {
        Some(CacheFolder::Cache)
    } else if value == "index"@ {
        Some(CacheFolder::Index)
    } else if value == "src"@ {
        Some(CacheFolder::Src)
    } else {
        None
    }
}

/// The folder to wipe for the word given on the command line; `None` where
/// the word names no folder, and nothing is to be wiped.
pub fn wipe_directory(value: &str) -> (r: Option<CacheFolder>)
    ensures
        r == folder_named(value@),
{
    if same_text(value, "git") {
        Some(CacheFolder::Git)
    } else if same_text(value, "checkouts") {
        Some(CacheFolder::Checkout)
    } else if same_text(value, "db") {
        Some(CacheFolder::Db)
    } else if same_text(value, "registry") {
        Some(CacheFolder::Registry)
    } else if same_text(value, "cache") {
        Some(CacheFolder::Cache)
    } else if same_text(value, "index") {
        Some(CacheFolder::Index)
    } else if same_text(value, "src") {
        Some(CacheFolder::Src)
    } else {
        None
    }
}

/// The folders that a forced removal deletes.
pub open spec fn forced_folders(app: bool, git: bool, registry: bool) -> Seq<CacheFolder> {
    (if app || registry {
        seq![CacheFolder::Cache, CacheFolder::Src]
    } else {
        Seq::empty()
    }) + (if app || git {
        seq![CacheFolder::Checkout, CacheFolder::Db]
    } else {
        Seq::empty()
    })
}

/// The folders to delete outright, whatever the tracked projects
/// reference: those of the registry cache where the command or its registry
/// subcommand asks for it, then those of the git cache likewise.
pub fn force_remove(flags: (bool, bool, bool)) -> (r: Vec<CacheFolder>)
    ensures
        r@ == forced_folders(flags.0, flags.1, flags.2),
{
    let (force_remove_app, force_remove_git, force_remove_registry) = flags;
    let mut out: Vec<CacheFolder> = Vec::new();
    if force_remove_app || force_remove_registry {
        out.push(CacheFolder::Cache);
        out.push(CacheFolder::Src);
    }
    if force_remove_app || force_remove_git {
        out.push(CacheFolder::Checkout);
        out.push(CacheFolder::Db);
    }
    assert(out@ =~= forced_folders(flags.0, flags.1, flags.2));
    out
}

} // verus!
