//! Structures describing the configuration of all repositories, and the
//! rules that turn raw, freshly parsed configuration into them.

use vstd::prelude::*;
use vstd::string::*;
use vstd::utf8::is_ascii_chars;
use crate::metaconfig::{
    BlobstoreArgs, BlobstoreId, Bookmark, BookmarkOrRegex, BookmarkParams, Bundle2ReplayParams,
    CacheWarmupParams, CommonConfig, GlusterArgs, HookBypass, HookConfig, HookManagerParams,
    HookParams, HookType, LfsParams, ManifoldArgs, MysqlBlobstoreArgs, Pattern, PushrebaseParams,
    RemoteBlobstoreArgs, RepoConfig, RepoReadOnly, RepoType, ShardedFilenodesParams, WhitelistEntry,
};

verus! {

/// Configuration of a metaconfig repository.
#[derive(Debug, PartialEq, Eq, Structural, Clone, Copy)]
pub struct MetaConfig {}

/// Holds all configuration that was read from the metaconfig repository.
#[derive(Debug, PartialEq, Eq, Clone)]
pub struct RepoConfigs {
    /// Config for the config repository
    pub metaconfig: MetaConfig,
    /// Configs for all other repositories, by name
    pub repos: Vec<(String, RepoConfig)>,
    /// Common configs for all repos
    pub common: CommonConfig,
}

/// What is wrong with a configuration.
#[derive(Debug, PartialEq, Eq, Clone)]
pub enum ConfigError {
    /// The files are not laid out or filled in as they have to be.
    InvalidFileStructure(String),
    /// A setting is missing or contradicts another.
    InvalidConfig(String),
    /// A hook that is not built in names no file with its code.
    MissingPath,
    /// A bypass by push variable is not of the form `name=value`.
    InvalidPushvar(String),
    /// A hook names more than one way to bypass it.
    TooManyBypassOptions(String),
}

#[derive(Debug, PartialEq, Eq, Clone)]
pub struct RawCommonConfig {
    pub whitelist_entry: Option<Vec<RawWhitelistEntry>>,
}

#[derive(Debug, PartialEq, Eq, Clone)]
pub struct RawWhitelistEntry {
    pub tier: Option<String>,
    pub identity_data: Option<String>,
    pub identity_type: Option<String>,
}

#[derive(Debug, PartialEq, Eq, Clone)]
pub struct RawRepoConfig {
    pub path: Option<String>,
    pub repotype: RawRepoType,
    pub enabled: Option<bool>,
    pub generation_cache_size: Option<usize>,
    pub repoid: i32,
    pub db_address: Option<String>,
    pub write_lock_db_address: Option<String>,
    pub scuba_table: Option<String>,
    pub blobstore_scuba_table: Option<String>,
    pub delay_mean: Option<u64>,
    pub delay_stddev: Option<u64>,
    pub cache_warmup: Option<RawCacheWarmupConfig>,
    pub bookmarks: Option<Vec<RawBookmarkConfig>>,
    pub bookmarks_cache_ttl: Option<u64>,
    pub hooks: Option<Vec<RawHookConfig>>,
    pub pushrebase: Option<RawPushrebaseParams>,
    pub lfs: Option<RawLfsParams>,
    pub wireproto_scribe_category: Option<String>,
    pub hash_validation_percentage: Option<usize>,
    pub readonly: Option<bool>,
    pub hook_manager_params: Option<HookManagerParams>,
    pub skiplist_index_blobstore_key: Option<String>,
    pub remote_blobstore: Option<Vec<RawRemoteBlobstoreConfig>>,
    pub bundle2_replay_params: Option<RawBundle2ReplayParams>,
    pub sharded_filenodes: Option<RawShardedFilenodesParams>,
}

#[derive(Debug, PartialEq, Eq, Clone)]
pub struct RawCacheWarmupConfig {
    pub bookmark: String,
    pub commit_limit: Option<usize>,
}

#[derive(Debug, PartialEq, Eq, Clone)]
pub struct RawBookmarkConfig {
    /// Either the regex or the name should be provided, not both
    pub regex: Option<Pattern>,
    pub name: Option<String>,
    pub hooks: Option<Vec<RawBookmarkHook>>,
    /// Whether only fast-forward moves are allowed for this bookmark
    pub only_fast_forward: Option<bool>,
    /// Only users matching this pattern will be allowed to move this bookmark
    pub allowed_users: Option<Pattern>,
}

#[derive(Debug, PartialEq, Eq, Clone)]
pub struct RawBookmarkHook {
    pub hook_name: String,
}

#[derive(Debug, PartialEq, Eq, Clone)]
pub struct RawHookConfig {
    pub name: String,
    pub path: Option<String>,
    pub hook_type: HookType,
    pub bypass_commit_string: Option<String>,
    pub bypass_pushvar: Option<String>,
    pub config_strings: Option<Vec<(String, String)>>,
    pub config_ints: Option<Vec<(String, i32)>>,
}

#[derive(Debug, PartialEq, Eq, Clone)]
pub struct RawRemoteBlobstoreConfig {
    pub blobstore_type: RawBlobstoreType,
    pub blobstore_id: BlobstoreId,
    // required manifold arguments
    pub manifold_bucket: Option<String>,
    pub manifold_prefix: Option<String>,
    // required gluster arguments
    pub gluster_tier: Option<String>,
    pub gluster_export: Option<String>,
    pub gluster_basepath: Option<String>,
    // required mysql arguments
    pub mysql_shardmap: Option<String>,
    pub mysql_shard_num: Option<i32>,
}

/// Types of repositories supported
#[derive(Debug, PartialEq, Eq, Structural, Clone, Copy)]
pub enum RawRepoType {
    Files,
    BlobRocks,
    BlobSqlite,
    BlobRemote,
}

/// Types of blobstores supported
#[derive(Debug, PartialEq, Eq, Structural, Clone, Copy)]
pub enum RawBlobstoreType {
    Manifold,
    Gluster,
    Mysql,
}

#[derive(Debug, PartialEq, Eq, Clone)]
pub struct RawPushrebaseParams {
    pub rewritedates: Option<bool>,
    pub recursion_limit: Option<usize>,
    pub commit_scribe_category: Option<String>,
    pub block_merges: Option<bool>,
    pub forbid_p2_root_rebases: Option<bool>,
    pub casefolding_check: Option<bool>,
    pub emit_obsmarkers: Option<bool>,
}

#[derive(Debug, PartialEq, Eq, Structural, Clone, Copy)]
pub struct RawLfsParams {
    pub threshold: Option<u64>,
}

#[derive(Debug, PartialEq, Eq, Structural, Clone, Copy)]
pub struct RawBundle2ReplayParams {
    pub preserve_raw_bundle2: Option<bool>,
}

#[derive(Debug, PartialEq, Eq, Clone)]
pub struct RawShardedFilenodesParams {
    pub shard_map: String,
    pub shard_num: usize,
}

/// Whether `s` begins with `prefix`.
fn has_prefix(s: &str, prefix: &str) -> (b: bool)
    ensures
        b == prefix@.is_prefix_of(s@),
{
    let n = prefix.unicode_len();
    let m = s.unicode_len();
    if n > m {
        return false;
    }
    let mut i: usize = 0;
    while i < n
        invariant
            i <= n <= m,
            n == prefix@.len(),
            m == s@.len(),
            forall|j: int| 0 <= j < i ==> s@[j] == prefix@[j],
        decreases n - i,
    {
        if s.get_char(i) != prefix.get_char(i) {
            assert(s@.subrange(0, n as int)[i as int] != prefix@[i as int]);
            return false;
        }
        i += 1;
    }
    assert(prefix@ =~= s@.subrange(0, n as int));
    true
}

/// The only `=` of `s` stands at `k`.
pub open spec fn single_eq_at(s: Seq<char>, k: int) -> bool {
    &&& 0 <= k < s.len()
    &&& s[k] == '='
    &&& forall|j: int| 0 <= j < s.len() && j != k ==> s[j] != '='
}

/// `s` is `name`, one `=`, and `value`, and holds no other `=`.
pub open spec fn is_pushvar(s: Seq<char>, name: Seq<char>, value: Seq<char>) -> bool {
    exists|k: int| #[trigger] single_eq_at(s, k) && name == s.take(k) && value == s.skip(k + 1)
}

/// `s` has the form `name=value` with a single `=`.
pub open spec fn well_formed_pushvar(s: Seq<char>) -> bool {
    exists|k: int| #[trigger] single_eq_at(s, k)
}

/// Splits `s` at its `=`, if it has exactly one.
fn split_pushvar(s: &str) -> (r: Option<(String, String)>)
    ensures
        r is Some <==> well_formed_pushvar(s@),
        r matches Some((name, value)) ==> is_pushvar(s@, name@, value@),
{
    let n = s.unicode_len();
    let mut at: usize = n;
    let mut i: usize = 0;
    while i < n
        invariant
            i <= n,
            n == s@.len(),
            at <= n,
            at < n ==> at < i && s@[at as int] == '=',
            forall|j: int| 0 <= j < i && j != at ==> s@[j] != '=',
        decreases n - i,
    {
        if s.get_char(i) == '=' {
            if at < n {
                proof {
                    assert forall|k: int| !#[trigger] single_eq_at(s@, k) by {
                        if single_eq_at(s@, k) {
                            if k == i {
                                assert(s@[at as int] == '=');
                            } else {
                                assert(s@[i as int] == '=');
                            }
                        }
                    }
                }
                return None;
            }
            at = i;
        }
        i += 1;
    }
    if at < n {
        let name = s.substring_char(0, at).to_owned();
        let value = s.substring_char(at + 1, n).to_owned();
        proof {
            assert(single_eq_at(s@, at as int));
            assert(name@ =~= s@.take(at as int));
            assert(value@ =~= s@.skip(at + 1));
        }
        Some((name, value))
    } else {
        proof {
            assert forall|k: int| !#[trigger] single_eq_at(s@, k) by {}
        }
        None
    }
}

/// `r` is what the bypass settings of `raw` come to.
pub open spec fn bypass_is(raw: RawHookConfig, r: Result<Option<HookBypass>, ConfigError>) -> bool {
    match raw.bypass_pushvar {
        Some(s) => if !well_formed_pushvar(s@) {
            r == Err::<Option<HookBypass>, ConfigError>(ConfigError::InvalidPushvar(s))
        } else if raw.bypass_commit_string is Some {
            r == Err::<Option<HookBypass>, ConfigError>(ConfigError::TooManyBypassOptions(raw.name))
        } else {
            r matches Ok(Some(HookBypass::Pushvar { name, value })) && is_pushvar(s@, name@, value@)
        },
        None => match raw.bypass_commit_string {
            Some(c) => r == Ok::<Option<HookBypass>, ConfigError>(
                Some(HookBypass::CommitMessage(c)),
            ),
            None => r == Ok::<Option<HookBypass>, ConfigError>(None),
        },
    }
}

/// What is wrong with the whitelist entry `e` by itself, if anything.
pub open spec fn whitelist_fault(e: RawWhitelistEntry) -> Option<Seq<char>> {
    if (e.identity_data is None) != (e.identity_type is None) {
        Some("identity type and data must be specified"@)
    } else if e.tier is Some && e.identity_type is Some {
        Some("tier and identity cannot be both specified"@)
    } else if e.tier is None && e.identity_type is None {
        Some("tier or identity must be specified"@)
    } else {
        None
    }
}

/// The first of `entries`, from `i` on, with which something is wrong; the
/// number of entries if there is none.
pub open spec fn first_whitelist_fault(entries: Seq<RawWhitelistEntry>, i: int) -> int
    decreases entries.len() - i,
{
    if i < 0 || i >= entries.len() {
        entries.len() as int
    } else if whitelist_fault(entries[i]) is Some {
        i
    } else {
        first_whitelist_fault(entries, i + 1)
    }
}

/// The number of the first `n` of `entries` that name a tier.
pub open spec fn tiers_among(entries: Seq<RawWhitelistEntry>, n: int) -> int
    decreases n,
{
    if n <= 0 {
        0
    } else {
        tiers_among(entries, n - 1) + (if entries[n - 1].tier is Some {
            1int
        } else {
            0int
        })
    }
}

/// What is wrong with `entries`, if anything: more than one tier among the
/// entries up to the first faulty one, or else that entry's fault.
pub open spec fn whitelist_error(entries: Seq<RawWhitelistEntry>) -> Option<Seq<char>> {
    let k = first_whitelist_fault(entries, 0);
    if tiers_among(entries, k) > 1 {
        Some("only one tier is allowed"@)
    } else if k < entries.len() {
        whitelist_fault(entries[k])
    } else {
        None
    }
}

/// `w` is the entry that `e` describes.
pub open spec fn whitelist_entry_is(e: RawWhitelistEntry, w: WhitelistEntry) -> bool {
    match e.tier {
        Some(t) => w == WhitelistEntry::Tier(t),
        None => e.identity_type matches Some(ty) && e.identity_data matches Some(data) && w
            == (WhitelistEntry::HardcodedIdentity { ty, data }),
    }
}

/// `r` is what the common configuration `raw` comes to.
pub open spec fn common_config_is(
    raw: Option<RawCommonConfig>,
    r: Result<Option<CommonConfig>, ConfigError>,
) -> bool {
    match raw {
        None => r == Ok::<Option<CommonConfig>, ConfigError>(None),
        Some(c) => {
            let entries = match c.whitelist_entry {
                Some(v) => v@,
                None => Seq::empty(),
            };
            match whitelist_error(entries) {
                Some(msg) => r matches Err(ConfigError::InvalidFileStructure(m)) && m@ == msg,
                None => r matches Ok(Some(common)) && common.security_config@.len()
                    == entries.len() && forall|i: int|
                    0 <= i < entries.len() ==> whitelist_entry_is(
                        entries[i],
                        #[trigger] common.security_config@[i],
                    ),
            }
        },
    }
}

fn clone_opt(s: &Option<String>) -> (r: Option<String>)
    ensures
        r == *s,
{
    match s {
        Some(x) => Some(x.clone()),
        None => None,
    }
}

impl RepoConfigs {
    /// How the hook that `raw` describes can be bypassed: by a commit
    /// message, by a push variable given as `name=value`, or not at all.
    /// A push variable of another form is refused, and so is a hook with
    /// both ways.
    pub fn get_bypass(raw: &RawHookConfig) -> (r: Result<Option<HookBypass>, ConfigError>)
        ensures
            bypass_is(*raw, r),
    {
        let bypass_pushvar = match &raw.bypass_pushvar {
            Some(s) => match split_pushvar(s.as_str()) {
                Some((name, value)) => Some(HookBypass::Pushvar { name, value }),
                None => {
                    return Err(ConfigError::InvalidPushvar(s.clone()));
                },
            },
            None => None,
        };
        match &raw.bypass_commit_string {
            Some(c) => {
                if bypass_pushvar.is_some() {
                    Err(ConfigError::TooManyBypassOptions(raw.name.clone()))
                } else {
                    Ok(Some(HookBypass::CommitMessage(c.clone())))
                }
            },
            None => Ok(bypass_pushvar),
        }
    }

    /// The common configuration that `raw` describes, if there is any to
    /// describe. Each whitelist entry names either a tier or an identity
    /// with its type and data, and at most one entry names a tier.
    pub fn read_common_config(raw: Option<RawCommonConfig>) -> (r: Result<
        Option<CommonConfig>,
        ConfigError,
    >)
        ensures
            common_config_is(raw, r),
    {
        let common = match raw {
            Some(c) => c,
            None => {
                return Ok(None);
            },
        };
        let entries = match common.whitelist_entry {
            Some(v) => v,
            None => Vec::new(),
        };
        let ghost all = entries@;
        let mut out: Vec<WhitelistEntry> = Vec::new();
        let mut tiers: usize = 0;
        let mut fault: Option<String> = None;
        let mut i: usize = 0;
        while i < entries.len() && fault.is_none()
            invariant
                all == entries@,
                i <= all.len(),
                tiers == tiers_among(all, i as int),
                tiers <= i,
                fault is None ==> first_whitelist_fault(all, 0) == first_whitelist_fault(all, i as int),
                fault is None ==> out@.len() == i,
                fault is None ==> forall|j: int|
                    0 <= j < i ==> whitelist_entry_is(all[j], #[trigger] out@[j]),
                fault is None ==> forall|j: int|
                    0 <= j < i ==> whitelist_fault(#[trigger] all[j]) is None,
                fault matches Some(m) ==> first_whitelist_fault(all, 0) == i && i < all.len() && Some(
                    m@,
                ) == whitelist_fault(all[i as int]),
            decreases all.len() - i + (if fault is None { 1int } else { 0int }),
        {
            let e = &entries[i];
            if e.identity_data.is_none() != e.identity_type.is_none() {
                fault = Some(String::from_str("identity type and data must be specified"));
            } else if e.tier.is_some() && e.identity_type.is_some() {
                fault = Some(String::from_str("tier and identity cannot be both specified"));
            } else if e.tier.is_none() && e.identity_type.is_none() {
                fault = Some(String::from_str("tier or identity must be specified"));
            } else {
                match &e.tier {
                    Some(t) => {
                        tiers = tiers + 1;
                        out.push(WhitelistEntry::Tier(t.clone()));
                    },
                    None => {
                        let ty = e.identity_type.as_ref().unwrap().clone();
                        let data = e.identity_data.as_ref().unwrap().clone();
                        out.push(WhitelistEntry::HardcodedIdentity { ty, data });
                    },
                }
                i += 1;
            }
        }
        if tiers > 1 {
            return Err(
                ConfigError::InvalidFileStructure(String::from_str("only one tier is allowed")),
            );
        }
        match fault {
            Some(m) => Err(ConfigError::InvalidFileStructure(m)),
            None => Ok(Some(CommonConfig { security_config: out })),
        }
    }
}

/// What is wrong with the blob store `b` by itself, if anything.
pub open spec fn blobstore_fault(b: RawRemoteBlobstoreConfig) -> Option<Seq<char>> {
    match b.blobstore_type {
        RawBlobstoreType::Manifold => if b.manifold_bucket is None {
            Some("manifold bucket must be specified"@)
        } else {
            None
        },
        RawBlobstoreType::Gluster => if b.gluster_tier is None {
            Some("gluster tier must be specified"@)
        } else if b.gluster_export is None {
            Some("gluster bucket must be specified"@)
        } else if b.gluster_basepath is None {
            Some("gluster basepath must be specified"@)
        } else {
            None
        },
        RawBlobstoreType::Mysql => if b.mysql_shardmap is None {
            Some("mysql shardmap must be specified"@)
        } else if !(b.mysql_shard_num matches Some(n) && n > 0) {
            Some("mysql shard num must be specified and an interger larger than 0"@)
        } else {
            None
        },
    }
}

/// An earlier one of `bs` has the identifier of `bs[k]`.
pub open spec fn repeats_identifier(bs: Seq<RawRemoteBlobstoreConfig>, k: int) -> bool {
    exists|j: int| 0 <= j < k && (#[trigger] bs[j]).blobstore_id == bs[k].blobstore_id
}

/// What is wrong with `bs[k]`, by itself or as a repetition, if anything.
pub open spec fn blobstore_problem(bs: Seq<RawRemoteBlobstoreConfig>, k: int) -> Option<Seq<char>> {
    match blobstore_fault(bs[k]) {
        Some(m) => Some(m),
        None => if repeats_identifier(bs, k) {
            Some("blobstore identifiers are not unique"@)
        } else {
            None
        },
    }
}

/// The first of `bs`, from `i` on, with which something is wrong; the
/// number of blob stores if there is none.
pub open spec fn first_blobstore_problem(bs: Seq<RawRemoteBlobstoreConfig>, i: int) -> int
    decreases bs.len() - i,
{
    if i < 0 || i >= bs.len() {
        bs.len() as int
    } else if blobstore_problem(bs, i) is Some {
        i
    } else {
        first_blobstore_problem(bs, i + 1)
    }
}

/// `a` is the blob store that `b` describes.
pub open spec fn blobstore_is(b: RawRemoteBlobstoreConfig, a: BlobstoreArgs) -> bool {
    match b.blobstore_type {
        RawBlobstoreType::Manifold => a matches BlobstoreArgs::Manifold(m) && Some(m.bucket)
            == b.manifold_bucket && m.prefix@ == (match b.manifold_prefix {
            Some(p) => p@,
            None => ""@,
        }),
        RawBlobstoreType::Gluster => a matches BlobstoreArgs::Gluster(g) && Some(g.tier)
            == b.gluster_tier && Some(g.export) == b.gluster_export && Some(g.basepath)
            == b.gluster_basepath,
        RawBlobstoreType::Mysql => a matches BlobstoreArgs::Mysql(x) && Some(x.shardmap)
            == b.mysql_shardmap && b.mysql_shard_num == Some(x.shard_num as i32) && x.shard_num
            <= i32::MAX,
    }
}

/// `a` are the blob stores that `bs` describe: the one, if there is one,
/// or all of them together, in order, with the table `scuba`.
pub open spec fn remote_args_are(
    bs: Seq<RawRemoteBlobstoreConfig>,
    scuba: Option<String>,
    a: RemoteBlobstoreArgs,
) -> bool {
    if bs.len() == 1 {
        a matches RemoteBlobstoreArgs::Single(x) && blobstore_is(bs[0], x)
    } else {
        a matches RemoteBlobstoreArgs::Multiplexed { scuba_table, blobstores } && scuba_table
            == scuba && blobstores_are(bs, blobstores@)
    }
}

/// `list` holds, in order, the blob stores that `bs` describe.
pub open spec fn blobstores_are(
    bs: Seq<RawRemoteBlobstoreConfig>,
    list: Seq<(BlobstoreId, BlobstoreArgs)>,
) -> bool {
    list.len() == bs.len() && forall|i: int|
        0 <= i < bs.len() ==> (#[trigger] list[i]).0 == bs[i].blobstore_id && blobstore_is(
            bs[i],
            list[i].1,
        )
}

/// What is wrong with the storage settings of `raw`, if anything.
pub open spec fn repotype_error(raw: RawRepoConfig) -> Option<Seq<char>> {
    match raw.repotype {
        RawRepoType::Files => if raw.path is None {
            Some("No path provided for Files type of repo"@)
        } else {
            None
        },
        RawRepoType::BlobRocks => if raw.path is None {
            Some("No path provided for BlobRocks type of repo"@)
        } else {
            None
        },
        RawRepoType::BlobSqlite => if raw.path is None {
            Some("No path provided for BlobSqlite type of repo"@)
        } else {
            None
        },
        RawRepoType::BlobRemote => match raw.remote_blobstore {
            None => Some("remote blobstores must be specified"@),
            Some(bs) => if raw.db_address is None {
                Some("xdb tier was not specified"@)
            } else if first_blobstore_problem(bs@, 0) < bs@.len() {
                blobstore_problem(bs@, first_blobstore_problem(bs@, 0))
            } else if raw.sharded_filenodes matches Some(p) && p.shard_num == 0 {
                Some("filenodes shard_num must be > 0"@)
            } else {
                None
            },
        },
    }
}

/// `t` is the storage that `raw` describes.
pub open spec fn repotype_is(raw: RawRepoConfig, t: RepoType) -> bool {
    match raw.repotype {
        RawRepoType::Files => t matches RepoType::BlobFiles(p) && Some(p) == raw.path,
        RawRepoType::BlobRocks => t matches RepoType::BlobRocks(p) && Some(p) == raw.path,
        RawRepoType::BlobSqlite => t matches RepoType::BlobSqlite(p) && Some(p) == raw.path,
        RawRepoType::BlobRemote => {
            &&& t matches RepoType::BlobRemote {
                blobstores_args,
                db_address,
                sharded_filenodes,
                write_lock_db_address,
            }
            &&& Some(db_address) == raw.db_address
            &&& write_lock_db_address == raw.write_lock_db_address
            &&& match raw.sharded_filenodes {
                Some(p) => sharded_filenodes == Some(
                    ShardedFilenodesParams { shard_map: p.shard_map, shard_num: p.shard_num },
                ),
                None => sharded_filenodes is None,
            }
            &&& raw.remote_blobstore matches Some(bs)
            &&& remote_args_are(bs@, raw.blobstore_scuba_table, blobstores_args)
        },
    }
}

/// `r` is what the storage settings of `raw` come to.
pub open spec fn repotype_converted(raw: RawRepoConfig, r: Result<RepoType, ConfigError>) -> bool {
    match repotype_error(raw) {
        Some(msg) => r matches Err(ConfigError::InvalidConfig(m)) && m@ == msg,
        None => r matches Ok(t) && repotype_is(raw, t),
    }
}

fn invalid_config<T>(msg: &str) -> (r: Result<T, ConfigError>)
    ensures
        r matches Err(ConfigError::InvalidConfig(m)) && m@ == msg@,
{
    Err(ConfigError::InvalidConfig(String::from_str(msg)))
}

/// The blob store that `b` describes.
fn convert_blobstore(b: &RawRemoteBlobstoreConfig) -> (r: Result<BlobstoreArgs, ConfigError>)
    ensures
        match blobstore_fault(*b) {
            Some(msg) => r matches Err(ConfigError::InvalidConfig(m)) && m@ == msg,
            None => r matches Ok(a) && blobstore_is(*b, a),
        },
{
    match b.blobstore_type {
        RawBlobstoreType::Manifold => {
            let bucket = match &b.manifold_bucket {
                Some(x) => x.clone(),
                None => {
                    return invalid_config("manifold bucket must be specified");
                },
            };
            let prefix = match &b.manifold_prefix {
                Some(p) => p.clone(),
                None => String::from_str(""),
            };
            Ok(BlobstoreArgs::Manifold(ManifoldArgs { bucket, prefix }))
        },
        RawBlobstoreType::Gluster => {
            let tier = match &b.gluster_tier {
                Some(x) => x.clone(),
                None => {
                    return invalid_config("gluster tier must be specified");
                },
            };
            let export = match &b.gluster_export {
                Some(x) => x.clone(),
                None => {
                    return invalid_config("gluster bucket must be specified");
                },
            };
            let basepath = match &b.gluster_basepath {
                Some(x) => x.clone(),
                None => {
                    return invalid_config("gluster basepath must be specified");
                },
            };
            Ok(BlobstoreArgs::Gluster(GlusterArgs { tier, export, basepath }))
        },
        RawBlobstoreType::Mysql => {
            let shardmap = match &b.mysql_shardmap {
                Some(x) => x.clone(),
                None => {
                    return invalid_config("mysql shardmap must be specified");
                },
            };
            let shard_num: usize = match b.mysql_shard_num {
                Some(n) => if n > 0 {
                    n as usize
                } else {
                    return invalid_config(
                        "mysql shard num must be specified and an interger larger than 0",
                    );
                },
                None => {
                    return invalid_config(
                        "mysql shard num must be specified and an interger larger than 0",
                    );
                },
            };
            Ok(BlobstoreArgs::Mysql(MysqlBlobstoreArgs { shardmap, shard_num }))
        },
    }
}

/// Whether one of the first `k` of `bs` has the identifier `id`.
fn identifier_taken(bs: &Vec<RawRemoteBlobstoreConfig>, k: usize, id: BlobstoreId) -> (b: bool)
    requires
        k <= bs@.len(),
    ensures
        b == exists|j: int| 0 <= j < k && (#[trigger] bs@[j]).blobstore_id == id,
{
    let mut j: usize = 0;
    while j < k
        invariant
            j <= k <= bs@.len(),
            forall|x: int| 0 <= x < j ==> (#[trigger] bs@[x]).blobstore_id != id,
        decreases k - j,
    {
        if bs[j].blobstore_id == id {
            return true;
        }
        j += 1;
    }
    false
}

/// The blob stores that `bs` describe, in order.
fn convert_blobstores(bs: &Vec<RawRemoteBlobstoreConfig>) -> (r: Result<
    Vec<(BlobstoreId, BlobstoreArgs)>,
    ConfigError,
>)
    ensures
        first_blobstore_problem(bs@, 0) < bs@.len() ==> (r matches Err(
            ConfigError::InvalidConfig(m),
        ) && Some(m@) == blobstore_problem(bs@, first_blobstore_problem(bs@, 0))),
        first_blobstore_problem(bs@, 0) >= bs@.len() ==> (r matches Ok(list) && blobstores_are(
            bs@,
            list@,
        )),
{
    let mut list: Vec<(BlobstoreId, BlobstoreArgs)> = Vec::new();
    let mut i: usize = 0;
    while i < bs.len()
        invariant
            i <= bs@.len(),
            first_blobstore_problem(bs@, 0) == first_blobstore_problem(bs@, i as int),
            list@.len() == i,
            forall|j: int|
                0 <= j < i ==> (#[trigger] list@[j]).0 == bs@[j].blobstore_id && blobstore_is(
                    bs@[j],
                    list@[j].1,
                ),
        decreases bs@.len() - i,
    {
        let args = match convert_blobstore(&bs[i]) {
            Ok(a) => a,
            Err(e) => {
                return Err(e);
            },
        };
        let id = bs[i].blobstore_id;
        if identifier_taken(bs, i, id) {
            assert(repeats_identifier(bs@, i as int));
            return invalid_config("blobstore identifiers are not unique");
        }
        assert(!repeats_identifier(bs@, i as int));
        list.push((id, args));
        i += 1;
    }
    Ok(list)
}

/// The storage that `raw` describes.
fn convert_repotype(raw: &RawRepoConfig) -> (r: Result<RepoType, ConfigError>)
    ensures
        repotype_converted(*raw, r),
{
    match raw.repotype {
        RawRepoType::Files => match &raw.path {
            Some(p) => Ok(RepoType::BlobFiles(p.clone())),
            None => invalid_config("No path provided for Files type of repo"),
        },
        RawRepoType::BlobRocks => match &raw.path {
            Some(p) => Ok(RepoType::BlobRocks(p.clone())),
            None => invalid_config("No path provided for BlobRocks type of repo"),
        },
        RawRepoType::BlobSqlite => match &raw.path {
            Some(p) => Ok(RepoType::BlobSqlite(p.clone())),
            None => invalid_config("No path provided for BlobSqlite type of repo"),
        },
        RawRepoType::BlobRemote => {
            let bs = match &raw.remote_blobstore {
                Some(bs) => bs,
                None => {
                    return invalid_config("remote blobstores must be specified");
                },
            };
            let db_address = match &raw.db_address {
                Some(a) => a.clone(),
                None => {
                    return invalid_config("xdb tier was not specified");
                },
            };
            let mut blobstores = match convert_blobstores(bs) {
                Ok(list) => list,
                Err(e) => {
                    return Err(e);
                },
            };
            let blobstores_args = if blobstores.len() == 1 {
                let only = blobstores.remove(0);
                RemoteBlobstoreArgs::Single(only.1)
            } else {
                RemoteBlobstoreArgs::Multiplexed {
                    scuba_table: clone_opt(&raw.blobstore_scuba_table),
                    blobstores,
                }
            };
            let sharded_filenodes = match &raw.sharded_filenodes {
                Some(p) => {
                    if p.shard_num == 0 {
                        return invalid_config("filenodes shard_num must be > 0");
                    }
                    Some(
                        ShardedFilenodesParams {
                            shard_map: p.shard_map.clone(),
                            shard_num: p.shard_num,
                        },
                    )
                },
                None => None,
            };
            Ok(
                RepoType::BlobRemote {
                    blobstores_args,
                    db_address,
                    sharded_filenodes,
                    write_lock_db_address: clone_opt(&raw.write_lock_db_address),
                },
            )
        },
    }
}

/// The bookmark entry `b` names both a pattern and a bookmark, or neither.
pub open spec fn bookmark_malformed(b: RawBookmarkConfig) -> bool {
    (b.regex is Some) == (b.name is Some)
}

/// The first malformed one of `bs`, from `i` on; the number of entries if
/// there is none.
pub open spec fn first_malformed_bookmark(bs: Seq<RawBookmarkConfig>, i: int) -> int
    decreases bs.len() - i,
{
    if i < 0 || i >= bs.len() {
        bs.len() as int
    } else if bookmark_malformed(bs[i]) {
        i
    } else {
        first_malformed_bookmark(bs, i + 1)
    }
}

proof fn lemma_first_malformed_bookmark(bs: Seq<RawBookmarkConfig>, i: int)
    requires
        0 <= i <= bs.len(),
    ensures
        i <= first_malformed_bookmark(bs, i) <= bs.len(),
    decreases bs.len() - i,
{
    if i < bs.len() && !bookmark_malformed(bs[i]) {
        lemma_first_malformed_bookmark(bs, i + 1);
    }
}

/// The names of the bookmarks up to the first malformed entry are made of
/// ASCII characters.
pub open spec fn bookmark_names_ascii(bs: Seq<RawBookmarkConfig>) -> bool {
    forall|k: int|
        0 <= k < first_malformed_bookmark(bs, 0) ==> ((#[trigger] bs[k]).name matches Some(n)
            ==> is_ascii_chars(n@))
}

/// `p` are the rules that the entry `b` describes.
pub open spec fn bookmark_is(b: RawBookmarkConfig, p: BookmarkParams) -> bool {
    &&& match b.regex {
        Some(re) => p.bookmark == BookmarkOrRegex::Regex(re),
        None => b.name matches Some(n) && p.bookmark matches BookmarkOrRegex::Bookmark(bm) && bm@
            == n@,
    }
    &&& p.only_fast_forward == (match b.only_fast_forward {
        Some(x) => x,
        None => false,
    })
    &&& p.allowed_users == b.allowed_users
    &&& match b.hooks {
        Some(hs) => p.hooks@.len() == hs@.len() && forall|i: int|
            0 <= i < hs@.len() ==> #[trigger] p.hooks@[i] == hs@[i].hook_name,
        None => p.hooks@.len() == 0,
    }
}

/// `list` holds, in order, the rules that the entries `bs` describe.
pub open spec fn bookmarks_are(bs: Seq<RawBookmarkConfig>, list: Seq<BookmarkParams>) -> bool {
    list.len() == bs.len() && forall|i: int|
        0 <= i < bs.len() ==> bookmark_is(bs[i], #[trigger] list[i])
}

fn duplicate_opt(p: &Option<Pattern>) -> (r: Option<Pattern>)
    ensures
        r == *p,
{
    match p {
        Some(x) => Some(x.duplicate()),
        None => None,
    }
}

fn hook_names(hooks: &Option<Vec<RawBookmarkHook>>) -> (r: Vec<String>)
    ensures
        match *hooks {
            Some(hs) => r@.len() == hs@.len() && forall|i: int|
                0 <= i < hs@.len() ==> #[trigger] r@[i] == hs@[i].hook_name,
            None => r@.len() == 0,
        },
{
    let mut r: Vec<String> = Vec::new();
    match hooks {
        Some(hs) => {
            let mut i: usize = 0;
            while i < hs.len()
                invariant
                    i <= hs@.len(),
                    r@.len() == i,
                    forall|j: int| 0 <= j < i ==> #[trigger] r@[j] == hs@[j].hook_name,
                decreases hs@.len() - i,
            {
                r.push(hs[i].hook_name.clone());
                i += 1;
            }
        },
        None => {},
    }
    r
}

/// The rules that the bookmark entries `bs` describe, in order.
fn convert_bookmarks(bs: &Vec<RawBookmarkConfig>) -> (r: Result<Vec<BookmarkParams>, ConfigError>)
    requires
        bookmark_names_ascii(bs@),
    ensures
        first_malformed_bookmark(bs@, 0) < bs@.len() ==> (r matches Err(
            ConfigError::InvalidConfig(m),
        ) && m@ == "bookmark's params need to specify regex xor name"@),
        first_malformed_bookmark(bs@, 0) >= bs@.len() ==> (r matches Ok(list) && bookmarks_are(
            bs@,
            list@,
        )),
{
    let mut list: Vec<BookmarkParams> = Vec::new();
    let mut i: usize = 0;
    while i < bs.len()
        invariant
            i <= bs@.len(),
            bookmark_names_ascii(bs@),
            first_malformed_bookmark(bs@, 0) == first_malformed_bookmark(bs@, i as int),
            list@.len() == i,
            forall|j: int| 0 <= j < i ==> bookmark_is(bs@[j], #[trigger] list@[j]),
        decreases bs@.len() - i,
    {
        let b = &bs[i];
        let bookmark = match &b.regex {
            Some(re) => {
                if b.name.is_some() {
                    return invalid_config("bookmark's params need to specify regex xor name");
                }
                BookmarkOrRegex::Regex(re.duplicate())
            },
            None => match &b.name {
                Some(n) => {
                    proof {
                        lemma_first_malformed_bookmark(bs@, i + 1);
                    }
                    assert(bs@[i as int].name matches Some(x) ==> is_ascii_chars(x@));
                    BookmarkOrRegex::Bookmark(Bookmark::from_ascii(n.clone()))
                },
                None => {
                    return invalid_config("bookmark's params need to specify regex xor name");
                },
            },
        };
        let only_fast_forward = match b.only_fast_forward {
            Some(x) => x,
            None => false,
        };
        list.push(
            BookmarkParams {
                bookmark,
                hooks: hook_names(&b.hooks),
                only_fast_forward,
                allowed_users: duplicate_opt(&b.allowed_users),
            },
        );
        i += 1;
    }
    Ok(list)
}

/// The names of bookmarks that the conversion of `this` takes are made of
/// ASCII characters.
pub open spec fn names_are_ascii(this: RawRepoConfig) -> bool {
    &&& this.cache_warmup matches Some(c) ==> is_ascii_chars(c.bookmark@)
    &&& this.bookmarks matches Some(bs) ==> bookmark_names_ascii(bs@)
}

/// What is wrong with the settings of `this`, if anything: with its
/// storage, or else with its bookmarks.
pub open spec fn conf_error(this: RawRepoConfig) -> Option<Seq<char>> {
    match repotype_error(this) {
        Some(m) => Some(m),
        None => match this.bookmarks {
            Some(bs) => if first_malformed_bookmark(bs@, 0) < bs@.len() {
                Some("bookmark's params need to specify regex xor name"@)
            } else {
                None
            },
            None => None,
        },
    }
}

/// `p` are the settings for rebasing pushes that `raw` describes, with the
/// default for each setting that `raw` leaves out.
pub open spec fn pushrebase_is(raw: Option<RawPushrebaseParams>, p: PushrebaseParams) -> bool {
    match raw {
        Some(x) => {
            &&& p.rewritedates == (match x.rewritedates {
                Some(v) => v,
                None => true,
            })
            &&& p.recursion_limit == (match x.recursion_limit {
                Some(v) => v,
                None => 16384,
            })
            &&& p.commit_scribe_category == x.commit_scribe_category
            &&& p.block_merges == (match x.block_merges {
                Some(v) => v,
                None => false,
            })
            &&& p.forbid_p2_root_rebases == (match x.forbid_p2_root_rebases {
                Some(v) => v,
                None => true,
            })
            &&& p.casefolding_check == (match x.casefolding_check {
                Some(v) => v,
                None => true,
            })
            &&& p.emit_obsmarkers == (match x.emit_obsmarkers {
                Some(v) => v,
                None => false,
            })
        },
        None => {
            &&& p.rewritedates
            &&& p.recursion_limit == 16384
            &&& p.commit_scribe_category is None
            &&& !p.block_merges
            &&& p.forbid_p2_root_rebases
            &&& p.casefolding_check
            &&& !p.emit_obsmarkers
        },
    }
}

/// `c` is the configuration that `this` describes, but for its hooks.
pub open spec fn conf_fields_are(this: RawRepoConfig, c: RepoConfig) -> bool {
    &&& c.enabled == (match this.enabled {
        Some(v) => v,
        None => true,
    })
    &&& repotype_is(this, c.repotype)
    &&& c.generation_cache_size == (match this.generation_cache_size {
        Some(v) => v,
        None => 10485760,
    })
    &&& c.repoid == this.repoid
    &&& c.scuba_table == this.scuba_table
    &&& c.wireproto_scribe_category == this.wireproto_scribe_category
    &&& match this.cache_warmup {
        Some(w) => c.cache_warmup matches Some(x) && x.bookmark@ == w.bookmark@ && x.commit_limit
            == (match w.commit_limit {
            Some(l) => l,
            None => 200000,
        }),
        None => c.cache_warmup is None,
    }
    &&& c.hook_manager_params == this.hook_manager_params
    &&& match this.bookmarks {
        Some(bs) => bookmarks_are(bs@, c.bookmarks@),
        None => c.bookmarks@.len() == 0,
    }
    &&& c.bookmarks_cache_ttl == this.bookmarks_cache_ttl
    &&& pushrebase_is(this.pushrebase, c.pushrebase)
    &&& c.lfs.threshold == (match this.lfs {
        Some(l) => l.threshold,
        None => None,
    })
    &&& c.hash_validation_percentage == (match this.hash_validation_percentage {
        Some(v) => v,
        None => 0,
    })
    &&& if this.readonly == Some(true) {
        c.readonly matches RepoReadOnly::ReadOnly(why) && why@ == "Set by config option"@
    } else {
        c.readonly is ReadWrite
    }
    &&& c.skiplist_index_blobstore_key == this.skiplist_index_blobstore_key
    &&& c.bundle2_replay_params.preserve_raw_bundle2 == (match this.bundle2_replay_params {
        Some(b) => match b.preserve_raw_bundle2 {
            Some(v) => v,
            None => false,
        },
        None => false,
    })
}

/// `r` is what the settings of `this`, with the hooks `hooks`, come to.
pub open spec fn conf_is(
    this: RawRepoConfig,
    hooks: Vec<HookParams>,
    r: Result<RepoConfig, ConfigError>,
) -> bool {
    match conf_error(this) {
        Some(msg) => r matches Err(ConfigError::InvalidConfig(m)) && m@ == msg,
        None => r matches Ok(c) && conf_fields_are(this, c) && c.hooks == hooks,
    }
}

fn convert_pushrebase(raw: &Option<RawPushrebaseParams>) -> (p: PushrebaseParams)
    ensures
        pushrebase_is(*raw, p),
{
    let default = PushrebaseParams::default();
    match raw {
        Some(x) => PushrebaseParams {
            rewritedates: match x.rewritedates {
                Some(v) => v,
                None => default.rewritedates,
            },
            recursion_limit: match x.recursion_limit {
                Some(v) => v,
                None => default.recursion_limit,
            },
            commit_scribe_category: clone_opt(&x.commit_scribe_category),
            block_merges: match x.block_merges {
                Some(v) => v,
                None => default.block_merges,
            },
            forbid_p2_root_rebases: match x.forbid_p2_root_rebases {
                Some(v) => v,
                None => default.forbid_p2_root_rebases,
            },
            casefolding_check: match x.casefolding_check {
                Some(v) => v,
                None => default.casefolding_check,
            },
            emit_obsmarkers: match x.emit_obsmarkers {
                Some(v) => v,
                None => default.emit_obsmarkers,
            },
        },
        None => default,
    }
}

impl RepoConfigs {
    /// The configuration that `this` describes, with the hooks `hooks`.
    ///
    /// The storage settings are looked at first: a local store needs a path;
    /// remote storage needs its blob stores, each with the settings of its
    /// type and an identifier of its own, and a database address. Then the
    /// bookmarks: each entry names a bookmark or a pattern, not both.
    /// Settings that are left out take their defaults.
    pub fn convert_conf(this: RawRepoConfig, hooks: Vec<HookParams>) -> (r: Result<
        RepoConfig,
        ConfigError,
    >)
        requires
            repotype_error(this) is None ==> names_are_ascii(this),
        ensures
            conf_is(this, hooks, r),
    {
        RepoConfigs::convert(&this, hooks)
    }

    fn convert(this: &RawRepoConfig, hooks: Vec<HookParams>) -> (r: Result<RepoConfig, ConfigError>)
        requires
            repotype_error(*this) is None ==> names_are_ascii(*this),
        ensures
            conf_is(*this, hooks, r),
    {
        let repotype = match convert_repotype(this) {
            Ok(t) => t,
            Err(e) => {
                return Err(e);
            },
        };
        let enabled = match this.enabled {
            Some(v) => v,
            None => true,
        };
        let generation_cache_size: usize = match this.generation_cache_size {
            Some(v) => v,
            None => 10485760,
        };
        let cache_warmup = match &this.cache_warmup {
            Some(w) => Some(
                CacheWarmupParams {
                    bookmark: Bookmark::from_ascii(w.bookmark.clone()),
                    commit_limit: match w.commit_limit {
                        Some(l) => l,
                        None => 200000,
                    },
                },
            ),
            None => None,
        };
        let bookmarks = match &this.bookmarks {
            Some(bs) => match convert_bookmarks(bs) {
                Ok(list) => list,
                Err(e) => {
                    return Err(e);
                },
            },
            None => Vec::new(),
        };
        let lfs = match this.lfs {
            Some(l) => LfsParams { threshold: l.threshold },
            None => LfsParams::default(),
        };
        let hash_validation_percentage: usize = match this.hash_validation_percentage {
            Some(v) => v,
            None => 0,
        };
        let readonly = match this.readonly {
            Some(true) => RepoReadOnly::ReadOnly(String::from_str("Set by config option")),
            _ => RepoReadOnly::ReadWrite,
        };
        let bundle2_replay_params = match this.bundle2_replay_params {
            Some(b) => Bundle2ReplayParams {
                preserve_raw_bundle2: match b.preserve_raw_bundle2 {
                    Some(v) => v,
                    None => false,
                },
            },
            None => Bundle2ReplayParams::default(),
        };
        Ok(
            RepoConfig {
                enabled,
                repotype,
                generation_cache_size,
                repoid: this.repoid,
                scuba_table: clone_opt(&this.scuba_table),
                cache_warmup,
                hook_manager_params: this.hook_manager_params,
                bookmarks,
                bookmarks_cache_ttl: this.bookmarks_cache_ttl,
                hooks,
                pushrebase: convert_pushrebase(&this.pushrebase),
                lfs,
                wireproto_scribe_category: clone_opt(&this.wireproto_scribe_category),
                hash_validation_percentage,
                readonly,
                skiplist_index_blobstore_key: clone_opt(&this.skiplist_index_blobstore_key),
                bundle2_replay_params,
            },
        )
    }
}

/// Where the code of a hook is to be read from.
#[derive(Debug, PartialEq, Eq, Clone)]
pub enum HookLocation {
    /// A path below the directory of the repository's own configuration.
    InRepo(String),
    /// A path below the root of the configuration.
    InRoot(String),
}

/// The hook is built in: its name begins with `rust:`, and it has no code
/// to read.
pub open spec fn is_builtin_hook(name: Seq<char>) -> bool {
    "rust:"@.is_prefix_of(name)
}

/// What is wrong with the bypass settings of `raw`, if anything.
pub open spec fn bypass_error(raw: RawHookConfig) -> Option<ConfigError> {
    match raw.bypass_pushvar {
        Some(s) => if !well_formed_pushvar(s@) {
            Some(ConfigError::InvalidPushvar(s))
        } else if raw.bypass_commit_string is Some {
            Some(ConfigError::TooManyBypassOptions(raw.name))
        } else {
            None
        },
        None => None,
    }
}

/// What is wrong with the hook `raw`, if anything: with its bypass
/// settings, or else that it is not built in and names no file.
pub open spec fn hook_error(raw: RawHookConfig) -> Option<ConfigError> {
    match bypass_error(raw) {
        Some(e) => Some(e),
        None => if !is_builtin_hook(raw.name@) && raw.path is None {
            Some(ConfigError::MissingPath)
        } else {
            None
        },
    }
}

/// `loc` is where the path `p` of a hook's code points: below the
/// repository's own directory if `p` begins with `./`, which is left off,
/// and else below the root.
pub open spec fn location_is(p: Seq<char>, loc: HookLocation) -> bool {
    if "./"@.is_prefix_of(p) {
        loc matches HookLocation::InRepo(rest) && rest@ == p.skip(2)
    } else {
        loc matches HookLocation::InRoot(whole) && whole@ == p
    }
}

/// `r` says where the code of the hook `raw` is to be read from.
pub open spec fn hook_location_is(
    raw: RawHookConfig,
    r: Result<Option<HookLocation>, ConfigError>,
) -> bool {
    match hook_error(raw) {
        Some(e) => r == Err::<Option<HookLocation>, ConfigError>(e),
        None => if is_builtin_hook(raw.name@) {
            r == Ok::<Option<HookLocation>, ConfigError>(None)
        } else {
            r matches Ok(Some(loc)) && raw.path matches Some(p) && location_is(p@, loc)
        },
    }
}

/// `h` is the hook that `raw` describes, with the code `code` unless it is
/// built in.
pub open spec fn hook_is(raw: RawHookConfig, code: Option<String>, h: HookParams) -> bool {
    &&& h.name == raw.name
    &&& h.hook_type == raw.hook_type
    &&& h.code == (if is_builtin_hook(raw.name@) {
        None
    } else {
        code
    })
    &&& bypass_is(raw, Ok(h.config.bypass))
    &&& h.config.strings@ == (match raw.config_strings {
        Some(v) => v@,
        None => Seq::empty(),
    })
    &&& h.config.ints@ == (match raw.config_ints {
        Some(v) => v@,
        None => Seq::empty(),
    })
}

/// `r` is what the hook `raw` comes to, with the code `code`.
pub open spec fn hook_params_are(
    raw: RawHookConfig,
    code: Option<String>,
    r: Result<HookParams, ConfigError>,
) -> bool {
    match hook_error(raw) {
        Some(e) => r == Err::<HookParams, ConfigError>(e),
        None => r matches Ok(h) && hook_is(raw, code, h),
    }
}

fn clone_strings(v: &Option<Vec<(String, String)>>) -> (r: Vec<(String, String)>)
    ensures
        r@ == (match *v {
            Some(x) => x@,
            None => Seq::empty(),
        }),
{
    let mut r: Vec<(String, String)> = Vec::new();
    match v {
        Some(x) => {
            let mut i: usize = 0;
            while i < x.len()
                invariant
                    i <= x@.len(),
                    r@ == x@.subrange(0, i as int),
                decreases x@.len() - i,
            {
                r.push((x[i].0.clone(), x[i].1.clone()));
                assert(r@ =~= x@.subrange(0, i + 1));
                i += 1;
            }
            assert(x@.subrange(0, x@.len() as int) =~= x@);
        },
        None => {},
    }
    r
}

fn clone_ints(v: &Option<Vec<(String, i32)>>) -> (r: Vec<(String, i32)>)
    ensures
        r@ == (match *v {
            Some(x) => x@,
            None => Seq::empty(),
        }),
{
    let mut r: Vec<(String, i32)> = Vec::new();
    match v {
        Some(x) => {
            let mut i: usize = 0;
            while i < x.len()
                invariant
                    i <= x@.len(),
                    r@ == x@.subrange(0, i as int),
                decreases x@.len() - i,
            {
                r.push((x[i].0.clone(), x[i].1));
                assert(r@ =~= x@.subrange(0, i + 1));
                i += 1;
            }
            assert(x@.subrange(0, x@.len() as int) =~= x@);
        },
        None => {},
    }
    r
}

impl RepoConfigs {
    /// Where the code of the hook `raw` is to be read from, if it has code
    /// to read. A built-in hook has none.
    pub fn hook_location(raw: &RawHookConfig) -> (r: Result<Option<HookLocation>, ConfigError>)
        ensures
            hook_location_is(*raw, r),
    {
        match RepoConfigs::get_bypass(raw) {
            Ok(_) => {},
            Err(e) => {
                return Err(e);
            },
        }
        if has_prefix(raw.name.as_str(), "rust:") {
            return Ok(None);
        }
        let path = match &raw.path {
            Some(p) => p,
            None => {
                return Err(ConfigError::MissingPath);
            },
        };
        if has_prefix(path.as_str(), "./") {
            proof {
                reveal_strlit("./");
            }
            let n = path.as_str().unicode_len();
            let rest = path.as_str().substring_char(2, n).to_owned();
            assert(rest@ =~= path@.skip(2));
            Ok(Some(HookLocation::InRepo(rest)))
        } else {
            Ok(Some(HookLocation::InRoot(path.clone())))
        }
    }

    /// The hook that `raw` describes, with the code `code` that was read
    /// for it. A built-in hook has no code, whatever `code` is.
    pub fn hook_params(raw: &RawHookConfig, code: Option<String>) -> (r: Result<
        HookParams,
        ConfigError,
    >)
        ensures
            hook_params_are(*raw, code, r),
    {
        let bypass = match RepoConfigs::get_bypass(raw) {
            Ok(b) => b,
            Err(e) => {
                return Err(e);
            },
        };
        let config = HookConfig {
            bypass,
            strings: clone_strings(&raw.config_strings),
            ints: clone_ints(&raw.config_ints),
        };
        if has_prefix(raw.name.as_str(), "rust:") {
            Ok(HookParams { name: raw.name.clone(), code: None, hook_type: raw.hook_type, config })
        } else {
            if raw.path.is_none() {
                return Err(ConfigError::MissingPath);
            }
            Ok(HookParams { name: raw.name.clone(), code, hook_type: raw.hook_type, config })
        }
    }
}

/// What was read for one repository: the name of its directory, its
/// settings, and for each of its hooks, in order, the code that was read
/// for it, if any was.
#[derive(Debug, PartialEq, Eq, Clone)]
pub struct RepoSource {
    pub name: String,
    pub config: RawRepoConfig,
    pub hook_codes: Vec<Option<String>>,
}

/// What was read of a whole configuration: the repositories, and the
/// common settings if there were any.
#[derive(Debug, PartialEq, Eq, Clone)]
pub struct ConfigSources {
    pub repos: Vec<RepoSource>,
    pub common: Option<RawCommonConfig>,
}

/// The hooks that `raw` lists.
pub open spec fn raw_hooks(raw: RawRepoConfig) -> Seq<RawHookConfig> {
    match raw.hooks {
        Some(h) => h@,
        None => Seq::empty(),
    }
}

/// The first of `hooks`, from `i` on, with which something is wrong; the
/// number of hooks if there is none.
pub open spec fn first_hook_problem(hooks: Seq<RawHookConfig>, i: int) -> int
    decreases hooks.len() - i,
{
    if i < 0 || i >= hooks.len() {
        hooks.len() as int
    } else if hook_error(hooks[i]) is Some {
        i
    } else {
        first_hook_problem(hooks, i + 1)
    }
}

/// `list` holds, in order, the hooks that `hooks` describe, each with its
/// code from `codes`.
pub open spec fn hooks_are(
    hooks: Seq<RawHookConfig>,
    codes: Seq<Option<String>>,
    list: Seq<HookParams>,
) -> bool {
    list.len() == hooks.len() && forall|i: int|
        0 <= i < hooks.len() ==> hook_is(hooks[i], codes[i], #[trigger] list[i])
}

/// Something is wrong with the repository `src`: with one of its hooks, or
/// with its settings.
pub open spec fn repo_fails(src: RepoSource) -> bool {
    first_hook_problem(raw_hooks(src.config), 0) < raw_hooks(src.config).len() || conf_error(
        src.config,
    ) is Some
}

/// `src` holds one code, or none, for each hook, and the names of
/// bookmarks that its conversion takes are made of ASCII characters.
pub open spec fn repo_prepared(src: RepoSource) -> bool {
    &&& src.hook_codes@.len() == raw_hooks(src.config).len()
    &&& first_hook_problem(raw_hooks(src.config), 0) >= raw_hooks(src.config).len()
        && repotype_error(src.config) is None ==> names_are_ascii(src.config)
}

/// `r` is what the repository `src` comes to: the fault of its first
/// faulty hook, or else the fault of its settings, or else its name and
/// its configuration.
pub open spec fn single_repo_is(src: RepoSource, r: Result<(String, RepoConfig), ConfigError>) -> bool {
    let hooks = raw_hooks(src.config);
    let k = first_hook_problem(hooks, 0);
    if k < hooks.len() {
        r matches Err(e) && hook_error(hooks[k]) == Some(e)
    } else {
        match conf_error(src.config) {
            Some(msg) => r matches Err(ConfigError::InvalidConfig(m)) && m@ == msg,
            None => r matches Ok((name, c)) && name == src.name && conf_fields_are(src.config, c)
                && hooks_are(hooks, src.hook_codes@, c.hooks@),
        }
    }
}

/// The first of `repos`, from `i` on, with which something is wrong; the
/// number of repositories if there is none.
pub open spec fn first_failing_repo(repos: Seq<RepoSource>, i: int) -> int
    decreases repos.len() - i,
{
    if i < 0 || i >= repos.len() {
        repos.len() as int
    } else if repo_fails(repos[i]) {
        i
    } else {
        first_failing_repo(repos, i + 1)
    }
}

/// Every repository up to the first faulty one is prepared.
pub open spec fn sources_prepared(sources: ConfigSources) -> bool {
    forall|j: int|
        0 <= j < sources.repos@.len() && j <= first_failing_repo(sources.repos@, 0)
            ==> repo_prepared(#[trigger] sources.repos@[j])
}

/// What is wrong with the common settings, if anything.
pub open spec fn common_error(raw: Option<RawCommonConfig>) -> Option<Seq<char>> {
    match raw {
        Some(c) => whitelist_error(
            match c.whitelist_entry {
                Some(v) => v@,
                None => Seq::empty(),
            },
        ),
        None => None,
    }
}

/// `r` is what `sources` come to: the fault of the first faulty
/// repository, or else the fault of the common settings, or else the
/// configuration of every repository, in order, with the common settings,
/// which are empty where there were none.
pub open spec fn configs_are(sources: ConfigSources, r: Result<RepoConfigs, ConfigError>) -> bool {
    let repos = sources.repos@;
    let k = first_failing_repo(repos, 0);
    if k < repos.len() {
        r matches Err(e) && single_repo_is(repos[k], Err(e))
    } else {
        match common_error(sources.common) {
            Some(msg) => r matches Err(ConfigError::InvalidFileStructure(m)) && m@ == msg,
            None => {
                &&& r matches Ok(all)
                &&& all.repos@.len() == repos.len()
                &&& forall|i: int|
                    0 <= i < repos.len() ==> single_repo_is(repos[i], Ok(#[trigger] all.repos@[i]))
                &&& match sources.common {
                    Some(_) => common_config_is(sources.common, Ok(Some(all.common))),
                    None => all.common.security_config@.len() == 0,
                }
            },
        }
    }
}

proof fn lemma_first_failing_repo(repos: Seq<RepoSource>, i: int)
    requires
        0 <= i <= repos.len(),
    ensures
        i <= first_failing_repo(repos, i) <= repos.len(),
    decreases repos.len() - i,
{
    if i < repos.len() && !repo_fails(repos[i]) {
        lemma_first_failing_repo(repos, i + 1);
    }
}

impl RepoConfigs {
    /// The name and the configuration of the repository `src`. Its hooks
    /// are taken first, in order, each with the code that was read for it;
    /// then its settings.
    pub fn read_single_repo_config(src: &RepoSource) -> (r: Result<(String, RepoConfig), ConfigError>)
        requires
            repo_prepared(*src),
        ensures
            single_repo_is(*src, r),
    {
        let ghost hooks = raw_hooks(src.config);
        let mut all_hook_params: Vec<HookParams> = Vec::new();
        match &src.config.hooks {
            Some(listed) => {
                let mut i: usize = 0;
                while i < listed.len()
                    invariant
                        hooks == listed@,
                        hooks == raw_hooks(src.config),
                        src.hook_codes@.len() == hooks.len(),
                        i <= hooks.len(),
                        first_hook_problem(hooks, 0) == first_hook_problem(hooks, i as int),
                        all_hook_params@.len() == i,
                        forall|j: int|
                            0 <= j < i ==> hook_is(
                                hooks[j],
                                src.hook_codes@[j],
                                #[trigger] all_hook_params@[j],
                            ),
                    decreases hooks.len() - i,
                {
                    let code = clone_opt(&src.hook_codes[i]);
                    match RepoConfigs::hook_params(&listed[i], code) {
                        Ok(h) => {
                            all_hook_params.push(h);
                        },
                        Err(e) => {
                            return Err(e);
                        },
                    }
                    i += 1;
                }
            },
            None => {},
        }
        match RepoConfigs::convert(&src.config, all_hook_params) {
            Ok(c) => Ok((src.name.clone(), c)),
            Err(e) => Err(e),
        }
    }

    /// The configuration of all repositories that `sources` describe. The
    /// repositories are taken first, in order, then the common settings.
    pub fn read_configs(sources: &ConfigSources) -> (r: Result<RepoConfigs, ConfigError>)
        requires
            sources_prepared(*sources),
        ensures
            configs_are(*sources, r),
    {
        let ghost all = sources.repos@;
        let mut repos: Vec<(String, RepoConfig)> = Vec::new();
        let mut i: usize = 0;
        while i < sources.repos.len()
            invariant
                all == sources.repos@,
                sources_prepared(*sources),
                i <= all.len(),
                first_failing_repo(all, 0) == first_failing_repo(all, i as int),
                repos@.len() == i,
                forall|j: int| 0 <= j < i ==> single_repo_is(all[j], Ok(#[trigger] repos@[j])),
            decreases all.len() - i,
        {
            proof {
                lemma_first_failing_repo(all, i as int);
            }
            match RepoConfigs::read_single_repo_config(&sources.repos[i]) {
                Ok(pair) => {
                    repos.push(pair);
                },
                Err(e) => {
                    return Err(e);
                },
            }
            i += 1;
        }
        let common = match &sources.common {
            Some(c) => {
                let raw = RawCommonConfig {
                    whitelist_entry: match &c.whitelist_entry {
                        Some(v) => Some(clone_whitelist(v)),
                        None => None,
                    },
                };
                match RepoConfigs::read_common_config(Some(raw)) {
                    Ok(Some(common)) => common,
                    Ok(None) => CommonConfig::default(),
                    Err(e) => {
                        return Err(e);
                    },
                }
            },
            None => CommonConfig::default(),
        };
        Ok(RepoConfigs { metaconfig: MetaConfig {  }, repos, common })
    }
}

fn clone_whitelist(v: &Vec<RawWhitelistEntry>) -> (r: Vec<RawWhitelistEntry>)
    ensures
        r@ == v@,
{
    let mut r: Vec<RawWhitelistEntry> = Vec::new();
    let mut i: usize = 0;
    while i < v.len()
        invariant
            i <= v@.len(),
            r@ == v@.subrange(0, i as int),
        decreases v@.len() - i,
    {
        r.push(
            RawWhitelistEntry {
                tier: clone_opt(&v[i].tier),
                identity_data: clone_opt(&v[i].identity_data),
                identity_type: clone_opt(&v[i].identity_type),
            },
        );
        assert(r@ =~= v@.subrange(0, i + 1));
        i += 1;
    }
    assert(v@.subrange(0, v@.len() as int) =~= v@);
    r
}

/// Whether the names of the bookmarks in `bs` up to the first malformed
/// entry are made of ASCII characters.
fn bookmark_names_checked(bs: &Vec<RawBookmarkConfig>) -> (b: bool)
    ensures
        b == bookmark_names_ascii(bs@),
{
    let mut i: usize = 0;
    while i < bs.len()
        invariant
            i <= bs@.len(),
            first_malformed_bookmark(bs@, 0) == first_malformed_bookmark(bs@, i as int),
            forall|k: int|
                0 <= k < i ==> ((#[trigger] bs@[k]).name matches Some(n) ==> is_ascii_chars(n@)),
        decreases bs@.len() - i,
    {
        proof {
            lemma_first_malformed_bookmark(bs@, i + 1);
        }
        if bs[i].regex.is_some() == bs[i].name.is_some() {
            return true;
        }
        match &bs[i].name {
            Some(n) => {
                if !n.is_ascii() {
                    return false;
                }
            },
            None => {},
        }
        i += 1;
    }
    true
}

impl RepoConfigs {
    /// Whether `convert_conf` can take `this`: whether the names of
    /// bookmarks that it would make are made of ASCII characters.
    pub fn can_convert(this: &RawRepoConfig) -> (b: bool)
        ensures
            b == (repotype_error(*this) is None ==> names_are_ascii(*this)),
    {
        if convert_repotype(this).is_err() {
            return true;
        }
        match &this.cache_warmup {
            Some(w) => {
                if !w.bookmark.is_ascii() {
                    return false;
                }
            },
            None => {},
        }
        match &this.bookmarks {
            Some(bs) => bookmark_names_checked(bs),
            None => true,
        }
    }

    /// Whether `read_single_repo_config` can take `src`: whether it holds
    /// a place for each hook's code and `convert_conf` can take its
    /// settings, should its hooks be in order.
    pub fn is_prepared(src: &RepoSource) -> (b: bool)
        ensures
            b == repo_prepared(*src),
    {
        let ghost hooks = raw_hooks(src.config);
        match &src.config.hooks {
            Some(listed) => {
                if src.hook_codes.len() != listed.len() {
                    return false;
                }
                let mut i: usize = 0;
                while i < listed.len()
                    invariant
                        hooks == listed@,
                        hooks == raw_hooks(src.config),
                        src.hook_codes@.len() == hooks.len(),
                        i <= hooks.len(),
                        first_hook_problem(hooks, 0) == first_hook_problem(hooks, i as int),
                    decreases hooks.len() - i,
                {
                    if RepoConfigs::hook_location(&listed[i]).is_err() {
                        return true;
                    }
                    i += 1;
                }
            },
            None => {
                if src.hook_codes.len() != 0 {
                    return false;
                }
            },
        }
        RepoConfigs::can_convert(&src.config)
    }
}

} // verus!







