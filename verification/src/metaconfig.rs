//! What a repository's configuration consists of.

use vstd::prelude::*;
use vstd::string::*;
use vstd::utf8::is_ascii_chars;

verus! {

/// A pattern that the regular-expression engine has accepted.
#[derive(Debug, PartialEq, Eq, Clone)]
pub struct Pattern {
    text: String,
}

/// Asks `regex::Regex::new` whether it compiles `pattern`. Nothing is
/// claimed about the answer.
#[verifier::external_body]
fn regex_compiles(pattern: &str) -> (ok: bool) {
    regex::Regex::new(pattern).is_ok()
}

impl Pattern {
    /// The text of the pattern.
    pub closed spec fn view(&self) -> Seq<char> {
        self.text@
    }

    /// Keeps `text` as a pattern exactly when `compiles` says that the
    /// engine took it.
    pub fn from_verdict(text: String, compiles: bool) -> (p: Option<Pattern>)
        ensures
            p is Some <==> compiles,
            p matches Some(q) ==> q@ == text@,
    {
        if compiles {
            Some(Pattern { text })
        } else {
            None
        }
    }

    /// Has the regular-expression engine compile `text`, and keeps it as a
    /// pattern if the engine accepts it.
    pub fn new(text: String) -> (p: Option<Pattern>)
        ensures
            p matches Some(q) ==> q@ == text@,
    {
        let ok = regex_compiles(text.as_str());
        Pattern::from_verdict(text, ok)
    }

    /// The text of the pattern.
    pub fn as_str(&self) -> (s: &str)
        ensures
            s@ == self@,
    {
        self.text.as_str()
    }

    /// The same pattern once more.
    pub fn duplicate(&self) -> (p: Pattern)
        ensures
            p == *self,
    {
        Pattern { text: self.text.clone() }
    }
}

/// The name of a bookmark: a string of ASCII characters.
#[derive(Debug, PartialEq, Eq, Clone)]
pub struct Bookmark {
    name: String,
}

impl Bookmark {
    /// The name.
    pub closed spec fn view(&self) -> Seq<char> {
        self.name@
    }

    /// The bookmark named `name`, if the name is made of ASCII characters.
    pub fn new(name: String) -> (b: Option<Bookmark>)
        ensures
            b is Some <==> is_ascii_chars(name@),
            b matches Some(x) ==> x@ == name@,
    {
        if name.is_ascii() {
            Some(Bookmark { name })
        } else {
            None
        }
    }

    /// The bookmark named `name`, which is known to be made of ASCII
    /// characters.
    pub(crate) fn from_ascii(name: String) -> (b: Bookmark)
        requires
            is_ascii_chars(name@),
        ensures
            b@ == name@,
    {
        Bookmark { name }
    }

    /// The name.
    pub fn as_str(&self) -> (s: &str)
        ensures
            s@ == self@,
    {
        self.name.as_str()
    }
}

/// The identifier of one blob store among several.
#[derive(Debug, PartialEq, Eq, Structural, Clone, Copy, Hash)]
pub struct BlobstoreId(pub u64);

/// Where a Manifold blob store is.
#[derive(Debug, PartialEq, Eq, Clone)]
pub struct ManifoldArgs {
    pub bucket: String,
    pub prefix: String,
}

/// Where a Gluster blob store is.
#[derive(Debug, PartialEq, Eq, Clone)]
pub struct GlusterArgs {
    pub tier: String,
    pub export: String,
    pub basepath: String,
}

/// Where a MySQL blob store is. The number of shards is not zero.
#[derive(Debug, PartialEq, Eq, Clone)]
pub struct MysqlBlobstoreArgs {
    pub shardmap: String,
    pub shard_num: usize,
}

/// One remote blob store.
#[derive(Debug, PartialEq, Eq, Clone)]
pub enum BlobstoreArgs {
    Manifold(ManifoldArgs),
    Gluster(GlusterArgs),
    Mysql(MysqlBlobstoreArgs),
}

/// The remote blob stores of a repository: a single one, or several that
/// are written and read together.
#[derive(Debug, PartialEq, Eq, Clone)]
pub enum RemoteBlobstoreArgs {
    Single(BlobstoreArgs),
    Multiplexed { scuba_table: Option<String>, blobstores: Vec<(BlobstoreId, BlobstoreArgs)> },
}

/// How the file nodes are sharded. The number of shards is not zero.
#[derive(Debug, PartialEq, Eq, Clone)]
pub struct ShardedFilenodesParams {
    pub shard_map: String,
    pub shard_num: usize,
}

/// The storage behind a repository.
#[derive(Debug, PartialEq, Eq, Clone)]
pub enum RepoType {
    BlobFiles(String),
    BlobRocks(String),
    BlobSqlite(String),
    BlobRemote {
        blobstores_args: RemoteBlobstoreArgs,
        db_address: String,
        sharded_filenodes: Option<ShardedFilenodesParams>,
        write_lock_db_address: Option<String>,
    },
}

/// What is loaded into the caches when a repository starts.
#[derive(Debug, PartialEq, Eq, Clone)]
pub struct CacheWarmupParams {
    pub bookmark: Bookmark,
    pub commit_limit: usize,
}

/// Limits of the hook manager.
#[derive(Debug, PartialEq, Eq, Structural, Clone, Copy)]
pub struct HookManagerParams {
    pub entrylimit: usize,
    pub weightlimit: usize,
    pub disable_acl_checker: bool,
}

/// One bookmark, or all bookmarks whose names match a pattern.
#[derive(Debug, PartialEq, Eq, Clone)]
pub enum BookmarkOrRegex {
    Bookmark(Bookmark),
    Regex(Pattern),
}

/// The rules for a bookmark or for the bookmarks that match a pattern.
#[derive(Debug, PartialEq, Eq, Clone)]
pub struct BookmarkParams {
    pub bookmark: BookmarkOrRegex,
    pub hooks: Vec<String>,
    pub only_fast_forward: bool,
    pub allowed_users: Option<Pattern>,
}

/// What a hook runs on.
#[derive(Debug, PartialEq, Eq, Structural, Clone, Copy)]
pub enum HookType {
    PerAddedOrModifiedFile,
    PerChangeset,
}

/// How a hook can be bypassed.
#[derive(Debug, PartialEq, Eq, Clone)]
pub enum HookBypass {
    CommitMessage(String),
    Pushvar { name: String, value: String },
}

/// The settings of a hook.
#[derive(Debug, PartialEq, Eq, Clone)]
pub struct HookConfig {
    pub bypass: Option<HookBypass>,
    pub strings: Vec<(String, String)>,
    pub ints: Vec<(String, i32)>,
}

/// A hook: its name, its code if it is not built in, and its settings.
#[derive(Debug, PartialEq, Eq, Clone)]
pub struct HookParams {
    pub name: String,
    pub code: Option<String>,
    pub hook_type: HookType,
    pub config: HookConfig,
}

/// How pushes are rebased.
#[derive(Debug, PartialEq, Eq, Clone)]
pub struct PushrebaseParams {
    pub rewritedates: bool,
    pub recursion_limit: usize,
    pub commit_scribe_category: Option<String>,
    pub block_merges: bool,
    pub forbid_p2_root_rebases: bool,
    pub casefolding_check: bool,
    pub emit_obsmarkers: bool,
}

/// From which size on a file is stored as a large file.
#[derive(Debug, PartialEq, Eq, Structural, Clone, Copy)]
pub struct LfsParams {
    pub threshold: Option<u64>,
}

/// What is kept of bundles for replay.
#[derive(Debug, PartialEq, Eq, Structural, Clone, Copy)]
pub struct Bundle2ReplayParams {
    pub preserve_raw_bundle2: bool,
}

/// Whether a repository takes writes, and if not, why not.
#[derive(Debug, PartialEq, Eq, Clone)]
pub enum RepoReadOnly {
    ReadOnly(String),
    ReadWrite,
}

/// Who may use the service without further checks.
#[derive(Debug, PartialEq, Eq, Clone)]
pub enum WhitelistEntry {
    Tier(String),
    HardcodedIdentity { ty: String, data: String },
}

/// The configuration that all repositories share.
#[derive(Debug, PartialEq, Eq, Clone)]
pub struct CommonConfig {
    pub security_config: Vec<WhitelistEntry>,
}

/// The configuration of one repository.
#[derive(Debug, PartialEq, Eq, Clone)]
pub struct RepoConfig {
    pub enabled: bool,
    pub repotype: RepoType,
    pub generation_cache_size: usize,
    pub repoid: i32,
    pub scuba_table: Option<String>,
    pub cache_warmup: Option<CacheWarmupParams>,
    pub hook_manager_params: Option<HookManagerParams>,
    pub bookmarks: Vec<BookmarkParams>,
    /// In milliseconds.
    pub bookmarks_cache_ttl: Option<u64>,
    pub hooks: Vec<HookParams>,
    pub pushrebase: PushrebaseParams,
    pub lfs: LfsParams,
    pub wireproto_scribe_category: Option<String>,
    pub hash_validation_percentage: usize,
    pub readonly: RepoReadOnly,
    pub skiplist_index_blobstore_key: Option<String>,
    pub bundle2_replay_params: Bundle2ReplayParams,
}

impl Default for PushrebaseParams {
    /// The settings of a repository that sets none. No scribe category is set.
    fn default() -> (p: PushrebaseParams)
        ensures
            p.rewritedates,
            p.recursion_limit == 16384,
            p.commit_scribe_category is None,
            !p.block_merges,
            p.forbid_p2_root_rebases,
            p.casefolding_check,
            !p.emit_obsmarkers,
    {
        PushrebaseParams {
            rewritedates: true,
            recursion_limit: 16384,
            commit_scribe_category: None,
            block_merges: false,
            forbid_p2_root_rebases: true,
            casefolding_check: true,
            emit_obsmarkers: false,
        }
    }
}

impl Default for LfsParams {
    /// No threshold.
    fn default() -> (p: LfsParams)
        ensures
            p.threshold is None,
    {
        LfsParams { threshold: None }
    }
}

impl Default for Bundle2ReplayParams {
    /// Raw bundles are not preserved.
    fn default() -> (p: Bundle2ReplayParams)
        ensures
            !p.preserve_raw_bundle2,
    {
        Bundle2ReplayParams { preserve_raw_bundle2: false }
    }
}

impl Default for CommonConfig {
    /// Nobody is whitelisted.
    fn default() -> (c: CommonConfig)
        ensures
            c.security_config@.len() == 0,
    {
        CommonConfig { security_config: Vec::new() }
    }
}

} // verus!
