//! Storage configuration: which backend a deployment runs on, where it is, and what is
//! missing when it cannot be built.

use vstd::prelude::*;
use crate::cascade::{canonical_order, key_value_order, object_store_order, CascadePlan};
use crate::delete_report::{DeleteConsistencyLevel, DeleteThreadPhase};
use crate::errors::StateError;
use crate::fs_path::{FsPath, FsPathView};
use crate::json::{json_bool, json_entries, json_from_bool, json_object_insert, json_object_new};
use crate::registry::StorageBackendKind;
use crate::text::{starts_with, str_eq, trim_start_char, leading_count};

verus! {

#[verifier::external_type_specification]
#[verifier::external_body]
pub struct ExSqlxError(sqlx::Error);

#[verifier::external_type_specification]
#[verifier::external_body]
pub struct ExRedisError(redis::RedisError);

/// The storage modes of the file-based configuration.
#[derive(Debug, Clone, Copy, PartialEq, Eq, Structural)]
pub enum StorageMode {
    LocalFs,
    Sqlite,
    Postgres,
}

/// The variant's name, as `{:?}` prints it.
pub open spec fn storage_mode_name(m: StorageMode) -> Seq<char> {
    match m {
        StorageMode::LocalFs => "LocalFs"@,
        StorageMode::Sqlite => "Sqlite"@,
        StorageMode::Postgres => "Postgres"@,
    }
}

impl StorageMode {
    pub fn name(&self) -> (r: &'static str)
        ensures
            r@ == storage_mode_name(*self),
    {
        match self {
            StorageMode::LocalFs => "LocalFs",
            StorageMode::Sqlite => "Sqlite",
            StorageMode::Postgres => "Postgres",
        }
    }
}

/// Where the local file store keeps its data.
#[derive(Debug, Clone)]
pub struct LocalFsConfig {
    pub root: String,
}

/// The file-based storage configuration.
#[derive(Debug, Clone)]
pub struct StorageConfig {
    pub mode: StorageMode,
    pub local_fs: Option<LocalFsConfig>,
    pub sqlite: Option<()>,
}

/// The local store's root when the configuration names none.
pub open spec fn default_local_fs_root() -> Seq<char> {
    ".deer-flow/local-fs"@
}

impl Default for StorageConfig {
    fn default() -> (r: Self)
        ensures
            r.mode == StorageMode::LocalFs,
            r.local_fs matches Some(l) && l.root@ == default_local_fs_root(),
            r.sqlite is None,
    {
        StorageConfig {
            mode: StorageMode::LocalFs,
            local_fs: Some(LocalFsConfig { root: ".deer-flow/local-fs".to_string() }),
            sqlite: None,
        }
    }
}

pub open spec fn memory_mode_unsupported_message(m: StorageMode) -> Seq<char> {
    "Storage mode "@ + storage_mode_name(m) + " not implemented for memory store"@
}

/// Where the memory store of a configuration lives: under the workspace, the local
/// store's root (the default one when none is configured), then the memory path.
/// Only the local file mode has a memory store.
pub fn memory_store_location(
    storage_config: &StorageConfig,
    workspace_root: &str,
    memory_storage_path: &str,
) -> (r: Result<FsPath, StateError>)
    ensures
        storage_config.mode == StorageMode::LocalFs ==> (r matches Ok(p) && p@ == FsPathView {
            base: workspace_root@,
            components: seq![
                match storage_config.local_fs {
                    Some(l) => l.root@,
                    None => default_local_fs_root(),
                },
                memory_storage_path@,
            ],
        }),
        storage_config.mode != StorageMode::LocalFs ==> (r matches Err(StateError::Config(m)) && m@
            == memory_mode_unsupported_message(storage_config.mode)),
{
    match storage_config.mode {
        StorageMode::LocalFs => {
            let root = match &storage_config.local_fs {
                Some(l) => l.root.clone(),
                None => ".deer-flow/local-fs".to_string(),
            };
            let p = FsPath::new(workspace_root.to_string()).join(root).join_str(memory_storage_path);
            assert(p@.components =~= seq![
                match storage_config.local_fs {
                    Some(l) => l.root@,
                    None => default_local_fs_root(),
                },
                memory_storage_path@,
            ]);
            Ok(p)
        },
        _ => {
            let mut m = "Storage mode ".to_string();
            m.append(storage_config.mode.name());
            m.append(" not implemented for memory store");
            Err(StateError::Config(m))
        },
    }
}

/// The storage settings of the application configuration that select and locate the
/// runtime backend.
#[derive(Debug, Clone)]
pub struct RuntimeStorageSettings {
    /// `storage.mode`: one of `local_fs`, `sqlite`, `postgres`, `redis`, `s3`.
    pub mode: String,
    /// `storage.local_fs.root`.
    pub local_fs_root: String,
    /// `storage.sqlite.url`.
    pub sqlite_url: Option<String>,
    /// `manage.sqlite_url`, used when `storage.sqlite.url` is not set.
    pub manage_sqlite_url: Option<String>,
    /// `storage.postgres.url`.
    pub postgres_url: Option<String>,
    /// `manage.postgres_url`, used when `storage.postgres.url` is not set.
    pub manage_postgres_url: Option<String>,
    /// `storage.redis.url`.
    pub redis_url: Option<String>,
    /// `storage.s3.bucket`.
    pub s3_bucket: Option<String>,
    /// `storage.s3.prefix`.
    pub s3_prefix: String,
}

/// The backend to build, with what connecting to it needs.
#[derive(Debug, Clone)]
pub enum RuntimeStoragePlan {
    LocalFs { root: String },
    Sqlite { url: String },
    Postgres { url: String },
    Redis { url: String },
    S3 { bucket: String, prefix: String },
}

/// Why runtime storage could not be built.
#[derive(Debug)]
pub enum StorageBuildError {
    MissingConfig(String),
    Database(sqlx::Error),
    Redis(redis::RedisError),
    State(StateError),
}

pub open spec fn sqlite_missing_message() -> Seq<char> {
    "sqlite_url (storage or manage) is required"@
}

pub open spec fn postgres_missing_message() -> Seq<char> {
    "postgres_url is required"@
}

pub open spec fn redis_missing_message() -> Seq<char> {
    "redis_url is required"@
}

pub open spec fn s3_missing_message() -> Seq<char> {
    "s3_bucket is required"@
}

pub open spec fn unknown_mode_message(mode: Seq<char>) -> Seq<char> {
    "unknown storage.mode: "@ + mode + " (expected local_fs|sqlite|postgres|redis|s3)"@
}

/// A SQLite location as a connection URL: kept when it already is one (`sqlite:`...),
/// else `sqlite://` followed by the location without its leading slashes.
pub open spec fn sqlite_url_text(u: Seq<char>) -> Seq<char> {
    if u.len() >= 7 && u.take(7) == "sqlite:"@ {
        u
    } else {
        "sqlite://"@ + u.skip(leading_count(u, '/') as int)
    }
}

/// The first of two optional values that is set.
pub open spec fn first_set(a: Option<String>, b: Option<String>) -> Option<String> {
    if a is Some {
        a
    } else {
        b
    }
}

fn first_of(a: &Option<String>, b: &Option<String>) -> (r: Option<String>)
    ensures
        match first_set(*a, *b) {
            Some(s) => r matches Some(t) && t@ == s@,
            None => r is None,
        },
{
    match a {
        Some(s) => Some(s.clone()),
        None => match b {
            Some(s) => Some(s.clone()),
            None => None,
        },
    }
}

/// The SQLite connection URL: the storage URL, or else the manage URL, normalized.
pub fn sqlite_connection_url(settings: &RuntimeStorageSettings) -> (r: Option<String>)
    ensures
        match first_set(settings.sqlite_url, settings.manage_sqlite_url) {
            Some(u) => r matches Some(t) && t@ == sqlite_url_text(u@),
            None => r is None,
        },
{
    let u = first_of(&settings.sqlite_url, &settings.manage_sqlite_url)?;
    if starts_with(u.as_str(), "sqlite:") {
        proof {
            reveal_strlit("sqlite:");
        }
        Some(u)
    } else {
        proof {
            reveal_strlit("sqlite:");
        }
        let mut s = "sqlite://".to_string();
        let rest = trim_start_char(u.as_str(), '/');
        s.append(rest.as_str());
        Some(s)
    }
}

/// What `plan_runtime_storage` yields for these settings: the backend of the mode, or the
/// missing setting.
pub open spec fn planned_storage(settings: RuntimeStorageSettings) -> Result<RuntimeStoragePlanView, Seq<char>> {
    let mode = settings.mode@;
    if mode == "local_fs"@ {
        Ok(RuntimeStoragePlanView::LocalFs { root: settings.local_fs_root@ })
    } else if mode == "sqlite"@ {
        match first_set(settings.sqlite_url, settings.manage_sqlite_url) {
            Some(u) => Ok(RuntimeStoragePlanView::Sqlite { url: sqlite_url_text(u@) }),
            None => Err(sqlite_missing_message()),
        }
    } else if mode == "postgres"@ {
        match first_set(settings.postgres_url, settings.manage_postgres_url) {
            Some(u) => Ok(RuntimeStoragePlanView::Postgres { url: u@ }),
            None => Err(postgres_missing_message()),
        }
    } else if mode == "redis"@ {
        match settings.redis_url {
            Some(u) => Ok(RuntimeStoragePlanView::Redis { url: u@ }),
            None => Err(redis_missing_message()),
        }
    } else if mode == "s3"@ {
        match settings.s3_bucket {
            Some(b) => Ok(RuntimeStoragePlanView::S3 { bucket: b@, prefix: settings.s3_prefix@ }),
            None => Err(s3_missing_message()),
        }
    } else {
        Err(unknown_mode_message(mode))
    }
}

/// Mathematical value of a [`RuntimeStoragePlan`].
pub enum RuntimeStoragePlanView {
    LocalFs { root: Seq<char> },
    Sqlite { url: Seq<char> },
    Postgres { url: Seq<char> },
    Redis { url: Seq<char> },
    S3 { bucket: Seq<char>, prefix: Seq<char> },
}

impl View for RuntimeStoragePlan {
    type V = RuntimeStoragePlanView;

    open spec fn view(&self) -> RuntimeStoragePlanView {
        match self {
            RuntimeStoragePlan::LocalFs { root } => RuntimeStoragePlanView::LocalFs { root: root@ },
            RuntimeStoragePlan::Sqlite { url } => RuntimeStoragePlanView::Sqlite { url: url@ },
            RuntimeStoragePlan::Postgres { url } => RuntimeStoragePlanView::Postgres { url: url@ },
            RuntimeStoragePlan::Redis { url } => RuntimeStoragePlanView::Redis { url: url@ },
            RuntimeStoragePlan::S3 { bucket, prefix } => RuntimeStoragePlanView::S3 {
                bucket: bucket@,
                prefix: prefix@,
            },
        }
    }
}

/// The backend of a plan.
pub open spec fn plan_backend(p: RuntimeStoragePlanView) -> StorageBackendKind {
    match p {
        RuntimeStoragePlanView::LocalFs { .. } => StorageBackendKind::LocalFs,
        RuntimeStoragePlanView::Sqlite { .. } => StorageBackendKind::Sqlite,
        RuntimeStoragePlanView::Postgres { .. } => StorageBackendKind::Postgres,
        RuntimeStoragePlanView::Redis { .. } => StorageBackendKind::Redis,
        RuntimeStoragePlanView::S3 { .. } => StorageBackendKind::S3,
    }
}

/// The order in which a backend deletes a thread's domains.
pub open spec fn backend_cascade_order(k: StorageBackendKind) -> Seq<DeleteThreadPhase> {
    match k {
        StorageBackendKind::Redis => key_value_order(),
        StorageBackendKind::S3 => object_store_order(),
        _ => canonical_order(),
    }
}

/// Whether a backend deletes a thread in one transaction.
pub open spec fn backend_consistency(k: StorageBackendKind) -> DeleteConsistencyLevel {
    match k {
        StorageBackendKind::Sqlite | StorageBackendKind::Postgres => DeleteConsistencyLevel::StrongPerThread,
        _ => DeleteConsistencyLevel::BestEffort,
    }
}

/// The mode name a backend is selected by.
pub open spec fn backend_mode(k: StorageBackendKind) -> Seq<char> {
    match k {
        StorageBackendKind::LocalFs => "local_fs"@,
        StorageBackendKind::Sqlite => "sqlite"@,
        StorageBackendKind::Postgres => "postgres"@,
        StorageBackendKind::Redis => "redis"@,
        StorageBackendKind::S3 => "s3"@,
    }
}

impl RuntimeStoragePlan {
    /// The backend this plan builds.
    pub fn backend(&self) -> (r: StorageBackendKind)
        ensures
            r == plan_backend(self@),
    {
        match self {
            RuntimeStoragePlan::LocalFs { .. } => StorageBackendKind::LocalFs,
            RuntimeStoragePlan::Sqlite { .. } => StorageBackendKind::Sqlite,
            RuntimeStoragePlan::Postgres { .. } => StorageBackendKind::Postgres,
            RuntimeStoragePlan::Redis { .. } => StorageBackendKind::Redis,
            RuntimeStoragePlan::S3 { .. } => StorageBackendKind::S3,
        }
    }

    /// The mode the built storage reports as active.
    pub fn active_mode(&self) -> (r: String)
        ensures
            r@ == backend_mode(plan_backend(self@)),
    {
        match self {
            RuntimeStoragePlan::LocalFs { .. } => "local_fs".to_string(),
            RuntimeStoragePlan::Sqlite { .. } => "sqlite".to_string(),
            RuntimeStoragePlan::Postgres { .. } => "postgres".to_string(),
            RuntimeStoragePlan::Redis { .. } => "redis".to_string(),
            RuntimeStoragePlan::S3 { .. } => "s3".to_string(),
        }
    }

    /// How the built storage deletes a thread.
    pub fn cascade_plan(&self) -> (r: CascadePlan)
        ensures
            r.phases@ == backend_cascade_order(plan_backend(self@)),
            r.consistency == backend_consistency(plan_backend(self@)),
    {
        match self {
            RuntimeStoragePlan::LocalFs { .. } => CascadePlan::local_fs(),
            RuntimeStoragePlan::Sqlite { .. } | RuntimeStoragePlan::Postgres { .. } => CascadePlan::transactional(),
            RuntimeStoragePlan::Redis { .. } => CascadePlan::key_value(),
            RuntimeStoragePlan::S3 { .. } => CascadePlan::object_store(),
        }
    }
}

/// Decides which backend `settings.mode` selects (there is no fallback) and what building
/// it needs; an error names the missing setting or the unknown mode.
pub fn plan_runtime_storage(settings: &RuntimeStorageSettings) -> (r: Result<RuntimeStoragePlan, StorageBuildError>)
    ensures
        match planned_storage(*settings) {
            Ok(p) => r matches Ok(q) && q@ == p,
            Err(m) => r matches Err(StorageBuildError::MissingConfig(t)) && t@ == m,
        },
{
    let mode = settings.mode.as_str();
    if str_eq(mode, "local_fs") {
        Ok(RuntimeStoragePlan::LocalFs { root: settings.local_fs_root.clone() })
    } else if str_eq(mode, "sqlite") {
        match sqlite_connection_url(settings) {
            Some(url) => Ok(RuntimeStoragePlan::Sqlite { url }),
            None => Err(StorageBuildError::MissingConfig("sqlite_url (storage or manage) is required".to_string())),
        }
    } else if str_eq(mode, "postgres") {
        match first_of(&settings.postgres_url, &settings.manage_postgres_url) {
            Some(url) => Ok(RuntimeStoragePlan::Postgres { url }),
            None => Err(StorageBuildError::MissingConfig("postgres_url is required".to_string())),
        }
    } else if str_eq(mode, "redis") {
        match &settings.redis_url {
            Some(url) => Ok(RuntimeStoragePlan::Redis { url: url.clone() }),
            None => Err(StorageBuildError::MissingConfig("redis_url is required".to_string())),
        }
    } else if str_eq(mode, "s3") {
        match &settings.s3_bucket {
            Some(bucket) => Ok(RuntimeStoragePlan::S3 { bucket: bucket.clone(), prefix: settings.s3_prefix.clone() }),
            None => Err(StorageBuildError::MissingConfig("s3_bucket is required".to_string())),
        }
    } else {
        let mut m = "unknown storage.mode: ".to_string();
        m.append(mode);
        m.append(" (expected local_fs|sqlite|postgres|redis|s3)");
        Err(StorageBuildError::MissingConfig(m))
    }
}

/// The store kinds every runtime backend supports.
pub open spec fn capability_names() -> Seq<Seq<char>> {
    seq![
        "manage_tasks"@,
        "memory"@,
        "skills"@,
        "tool_records"@,
        "subagent_tasks"@,
        "sandbox_logs"@,
        "checkpoints"@,
        "artifacts"@,
        "thread_uploads"@,
        "thread_meta"@,
        "mcp_config"@,
        "manage_config"@,
        "thread_lifecycle"@,
    ]
}

/// The capability object of a runtime backend: every capability, set to `true`.
pub fn capabilities_all_supported() -> (r: serde_json::Map<String, serde_json::Value>)
    ensures
        forall|k: Seq<char>| #[trigger] json_entries(r).contains_key(k) <==> capability_names().contains(k),
        forall|k: Seq<char>| #[trigger] json_entries(r).contains_key(k) ==> json_entries(r)[k] == json_bool(true),
{
    let names = [
        "manage_tasks",
        "memory",
        "skills",
        "tool_records",
        "subagent_tasks",
        "sandbox_logs",
        "checkpoints",
        "artifacts",
        "thread_uploads",
        "thread_meta",
        "mcp_config",
        "manage_config",
        "thread_lifecycle",
    ];
    proof {
        reveal_strlit("manage_tasks");
        reveal_strlit("memory");
        reveal_strlit("skills");
        reveal_strlit("tool_records");
        reveal_strlit("subagent_tasks");
        reveal_strlit("sandbox_logs");
        reveal_strlit("checkpoints");
        reveal_strlit("artifacts");
        reveal_strlit("thread_uploads");
        reveal_strlit("thread_meta");
        reveal_strlit("mcp_config");
        reveal_strlit("manage_config");
        reveal_strlit("thread_lifecycle");
    }
    let ghost expected = capability_names();
    assert(forall|j: int| 0 <= j < 13 ==> #[trigger] names@[j]@ == expected[j]);
    let mut m = json_object_new();
    let mut i: usize = 0;
    while i < 13
        invariant
            i <= 13,
            expected == capability_names(),
            forall|j: int| 0 <= j < 13 ==> #[trigger] names@[j]@ == expected[j],
            forall|k: Seq<char>| #[trigger] json_entries(m).contains_key(k) <==> expected.take(i as int).contains(k),
            forall|k: Seq<char>| #[trigger] json_entries(m).contains_key(k) ==> json_entries(m)[k] == json_bool(true),
        decreases 13 - i,
    {
        let ghost before = json_entries(m);
        let t = json_from_bool(true);
        json_object_insert(&mut m, names[i].to_string(), t);
        proof {
            let s0 = expected.take(i as int);
            let s1 = expected.take(i as int + 1);
            assert(s1 =~= s0.push(expected[i as int]));
            assert forall|k: Seq<char>| #[trigger] json_entries(m).contains_key(k) <==> s1.contains(k) by {
                if s1.contains(k) {
                    let j = choose|j: int| 0 <= j < s1.len() && s1[j] == k;
                    if j < i {
                        assert(s0[j] == k);
                    }
                }
                if s0.contains(k) {
                    let j = choose|j: int| 0 <= j < s0.len() && s0[j] == k;
                    assert(s1[j] == k);
                }
                if k == expected[i as int] {
                    assert(s1[i as int] == k);
                }
            }
        }
        i = i + 1;
    }
    assert(expected.take(13) =~= expected);
    m
}

/// The storage is hard-selected: whatever is built reports the configured mode as active.
pub proof fn law_plan_follows_mode(settings: RuntimeStorageSettings)
    ensures
        planned_storage(settings) matches Ok(p) ==> backend_mode(plan_backend(p)) == settings.mode@,
{
}

/// A normalized SQLite URL is left as it is by normalizing it again.
pub proof fn law_sqlite_url_normalization_is_idempotent(u: Seq<char>)
    ensures
        sqlite_url_text(sqlite_url_text(u)) == sqlite_url_text(u),
{
    reveal_strlit("sqlite:");
    reveal_strlit("sqlite://");
    let n = sqlite_url_text(u);
    if !(u.len() >= 7 && u.take(7) == "sqlite:"@) {
        assert(n.take(7) =~= "sqlite:"@);
    }
}

} // verus!
