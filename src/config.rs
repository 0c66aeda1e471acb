//! Configuration: the embedding model in use, database settings and the
//! repositories to keep in sync.
use crate::text::text_eq;
use vstd::prelude::*;
use vstd::string::StringExecFns;

verus! {

/// Embedding model type.
#[derive(Debug, Clone, Copy, PartialEq, Eq, Structural)]
pub enum ModelType {
    /// all-MiniLM-L6-v2 (English, 384 dimensions, fast).
    Minilm,
    /// multilingual-e5-small (100 languages, 384 dimensions, needs a prefix).
    E5Multilingual,
}

impl ModelType {
    pub open spec fn spec_model_path(self) -> Seq<char> {
        match self {
            ModelType::Minilm => "models/all-MiniLM-L6-v2"@,
            ModelType::E5Multilingual => "models/multilingual-e5-small"@,
        }
    }

    pub open spec fn spec_tokenizer_path(self) -> Seq<char> {
        match self {
            ModelType::Minilm => "models/all-MiniLM-L6-v2/tokenizer.json"@,
            ModelType::E5Multilingual => "models/multilingual-e5-small/tokenizer.json"@,
        }
    }

    /// Default model directory.
    pub fn default_model_path(&self) -> (r: String)
        ensures
            r@ == self.spec_model_path(),
    {
        match self {
            ModelType::Minilm => String::from_str("models/all-MiniLM-L6-v2"),
            ModelType::E5Multilingual => String::from_str("models/multilingual-e5-small"),
        }
    }

    /// Default tokenizer file.
    pub fn default_tokenizer_path(&self) -> (r: String)
        ensures
            r@ == self.spec_tokenizer_path(),
    {
        match self {
            ModelType::Minilm => String::from_str("models/all-MiniLM-L6-v2/tokenizer.json"),
            ModelType::E5Multilingual => String::from_str(
                "models/multilingual-e5-small/tokenizer.json",
            ),
        }
    }

    /// Name of the model for messages.
    pub fn display_name(&self) -> (r: &'static str)
        ensures
            r@ == match *self {
                ModelType::Minilm => "all-MiniLM-L6-v2"@,
                ModelType::E5Multilingual => "multilingual-e5-small"@,
            },
    {
        match self {
            ModelType::Minilm => "all-MiniLM-L6-v2",
            ModelType::E5Multilingual => "multilingual-e5-small",
        }
    }

    pub open spec fn spec_db_str(self) -> Seq<char> {
        match self {
            ModelType::Minilm => "minilm"@,
            ModelType::E5Multilingual => "e5-multilingual"@,
        }
    }

    /// The model type as stored in the database's metadata.
    pub fn as_db_str(&self) -> (r: &'static str)
        ensures
            r@ == self.spec_db_str(),
    {
        match self {
            ModelType::Minilm => "minilm",
            ModelType::E5Multilingual => "e5-multilingual",
        }
    }

    /// Reads the stored model type; `None` for any other string.
    pub fn from_db_str(s: &str) -> (r: Option<ModelType>)
        ensures
            s@ == "minilm"@ ==> r == Some(ModelType::Minilm),
            s@ == "e5-multilingual"@ ==> r == Some(ModelType::E5Multilingual),
            s@ != "minilm"@ && s@ != "e5-multilingual"@ ==> r is None,
    {
        proof {
            reveal_strlit("minilm");
            reveal_strlit("e5-multilingual");
            assert("minilm"@.len() != "e5-multilingual"@.len());
        }
        if text_eq(s, "minilm") {
            Some(ModelType::Minilm)
        } else if text_eq(s, "e5-multilingual") {
            Some(ModelType::E5Multilingual)
        } else {
            None
        }
    }

    /// Where the model can be downloaded by hand.
    pub fn huggingface_url(&self) -> (r: &'static str)
        ensures
            r@ == match *self {
                ModelType::Minilm => "https://huggingface.co/sentence-transformers/all-MiniLM-L6-v2"@,
                ModelType::E5Multilingual => "https://huggingface.co/intfloat/multilingual-e5-small"@,
            },
    {
        match self {
            ModelType::Minilm => "https://huggingface.co/sentence-transformers/all-MiniLM-L6-v2",
            ModelType::E5Multilingual => "https://huggingface.co/intfloat/multilingual-e5-small",
        }
    }

    /// Whether queries and passages take a prefix for this model.
    pub fn requires_prefix(&self) -> (r: bool)
        ensures
            r == (*self == ModelType::E5Multilingual),
    {
        match self {
            ModelType::Minilm => false,
            ModelType::E5Multilingual => true,
        }
    }
}

impl Default for ModelType {
    fn default() -> (r: ModelType)
        ensures
            r == ModelType::Minilm,
    {
        ModelType::Minilm
    }
}

/// Database and embedding settings.
#[derive(Debug)]
pub struct Config {
    pub db_path: String,
    pub model_type: ModelType,
    pub model_path: String,
    pub tokenizer_path: String,
    /// Vector dimension (384 for both supported models).
    pub embedding_dim: usize,
    pub batch_size: usize,
    /// Number of results a vector search returns.
    pub top_k: usize,
}

impl Config {
    /// Default settings for a database at `db_path`.
    pub fn new(db_path: String) -> (r: Config)
        ensures
            r.db_path == db_path,
            r.model_type == ModelType::Minilm,
            r.model_path@ == ModelType::Minilm.spec_model_path(),
            r.tokenizer_path@ == ModelType::Minilm.spec_tokenizer_path(),
            r.embedding_dim == 384,
            r.batch_size == 32,
            r.top_k == 50,
    {
        let model_type = ModelType::Minilm;
        Config {
            db_path,
            model_path: model_type.default_model_path(),
            tokenizer_path: model_type.default_tokenizer_path(),
            model_type,
            embedding_dim: 384,
            batch_size: 32,
            top_k: 50,
        }
    }

    /// The same settings with another model and its default paths.
    pub fn with_model_type(self, model_type: ModelType) -> (r: Config)
        ensures
            r.db_path == self.db_path,
            r.model_type == model_type,
            r.model_path@ == model_type.spec_model_path(),
            r.tokenizer_path@ == model_type.spec_tokenizer_path(),
            r.embedding_dim == self.embedding_dim,
            r.batch_size == self.batch_size,
            r.top_k == self.top_k,
    {
        let mut c = self;
        c.model_path = model_type.default_model_path();
        c.tokenizer_path = model_type.default_tokenizer_path();
        c.model_type = model_type;
        c
    }
}

impl Default for Config {
    fn default() -> (r: Config)
        ensures
            r.db_path@ == "rpm_search.db"@,
            r.model_type == ModelType::Minilm,
            r.embedding_dim == 384,
            r.batch_size == 32,
            r.top_k == 50,
    {
        Config::new(String::from_str("rpm_search.db"))
    }
}

/// Paths of the files a model needs.
pub struct ModelFiles {
    /// config.json
    pub config: String,
    /// model.safetensors
    pub weights: String,
    /// tokenizer.json
    pub tokenizer: String,
}

/// Sync settings of one repository.
#[derive(Debug)]
pub struct RepoSyncConfig {
    /// Name under which the repository's packages are stored.
    pub name: String,
    pub base_url: String,
    pub interval_seconds: u64,
    pub enabled: bool,
    /// Architecture filter.
    pub arch: Option<String>,
    /// Whether file lists are synced too.
    pub sync_filelists: bool,
}

/// Sync settings of all repositories.
#[derive(Debug)]
pub struct SyncConfig {
    pub repositories: Vec<RepoSyncConfig>,
    /// Where downloaded metadata is kept.
    pub work_dir: String,
}

/// Sync interval when none is given: one hour.
pub fn default_interval() -> (r: u64)
    ensures
        r == 3600,
{
    3600
}

/// A repository is synced unless said otherwise.
pub fn default_enabled() -> (r: bool)
    ensures
        r,
{
    true
}

/// Working directory when none is given.
pub fn default_work_dir() -> (r: String)
    ensures
        r@ == ".rpm-sync"@,
{
    String::from_str(".rpm-sync")
}

pub open spec fn opt_text(o: Option<String>) -> Option<Seq<char>> {
    match o {
        Some(s) => Some(s@),
        None => None,
    }
}

impl SyncConfig {
    /// An example with two Rocky Linux 9 repositories.
    pub fn example() -> (r: SyncConfig)
        ensures
            r.repositories@.len() == 2,
            r.repositories@[0].name@ == "rocky9-baseos"@,
            r.repositories@[0].base_url@ == "https://dl.rockylinux.org/pub/rocky/9/BaseOS/x86_64/os"@,
            r.repositories@[1].name@ == "rocky9-appstream"@,
            r.repositories@[1].base_url@
                == "https://dl.rockylinux.org/pub/rocky/9/AppStream/x86_64/os"@,
            forall|i: int|
                0 <= i < 2 ==> (#[trigger] r.repositories@[i]).interval_seconds == 3600
                    && r.repositories@[i].enabled && opt_text(r.repositories@[i].arch) == Some(
                    "x86_64"@,
                ) && !r.repositories@[i].sync_filelists,
            r.work_dir@ == ".rpm-sync"@,
    {
        let mut repositories: Vec<RepoSyncConfig> = Vec::new();
        repositories.push(
            RepoSyncConfig {
                name: String::from_str("rocky9-baseos"),
                base_url: String::from_str("https://dl.rockylinux.org/pub/rocky/9/BaseOS/x86_64/os"),
                interval_seconds: default_interval(),
                enabled: default_enabled(),
                arch: Some(String::from_str("x86_64")),
                sync_filelists: false,
            },
        );
        repositories.push(
            RepoSyncConfig {
                name: String::from_str("rocky9-appstream"),
                base_url: String::from_str(
                    "https://dl.rockylinux.org/pub/rocky/9/AppStream/x86_64/os",
                ),
                interval_seconds: default_interval(),
                enabled: default_enabled(),
                arch: Some(String::from_str("x86_64")),
                sync_filelists: false,
            },
        );
        SyncConfig { repositories, work_dir: default_work_dir() }
    }
}

/// Outcome of the last sync of a repository.
#[derive(Debug, Clone, Copy, PartialEq, Eq, Structural)]
pub enum SyncStatus {
    Never,
    Success,
    Failed,
    InProgress,
}

impl SyncStatus {
    /// The status as it is shown and stored.
    pub fn as_str(&self) -> (r: &'static str)
        ensures
            r@ == match *self {
                SyncStatus::Never => "never"@,
                SyncStatus::Success => "success"@,
                SyncStatus::Failed => "failed"@,
                SyncStatus::InProgress => "in-progress"@,
            },
    {
        match self {
            SyncStatus::Never => "never",
            SyncStatus::Success => "success",
            SyncStatus::Failed => "failed",
            SyncStatus::InProgress => "in-progress",
        }
    }
}

/// What one repository sync did.
#[derive(Debug)]
pub struct SyncResult {
    /// Whether the repository's primary checksum had changed.
    pub changed: bool,
    pub checksum: String,
    pub packages_synced: usize,
}

impl SyncResult {
    /// Whether embeddings are to be built after this sync: only where that
    /// is enabled and the sync brought new or changed packages.
    pub fn needs_embeddings(&self, embedding_enabled: bool) -> (r: bool)
        ensures
            r == (embedding_enabled && self.changed && self.packages_synced > 0),
    {
        embedding_enabled && self.changed && self.packages_synced > 0
    }
}

/// Runs the syncs of all configured repositories.
pub struct SyncScheduler {
    pub sync_config: SyncConfig,
    pub db_config: Config,
    pub embedding_enabled: bool,
}

impl SyncScheduler {
    /// A scheduler that builds embeddings after each sync.
    pub fn new(sync_config: SyncConfig, db_config: Config) -> (r: SyncScheduler)
        ensures
            r.sync_config == sync_config,
            r.db_config == db_config,
            r.embedding_enabled,
    {
        SyncScheduler { sync_config, db_config, embedding_enabled: true }
    }

    /// Positions of the repositories that are enabled for syncing, in order.
    pub fn enabled_repositories(&self) -> (r: Vec<usize>)
        ensures
            forall|k: int| 0 <= k < r@.len() ==> (#[trigger] r@[k]) < self.sync_config.repositories@.len()
                && self.sync_config.repositories@[r@[k] as int].enabled,
            forall|i: int|
                0 <= i < self.sync_config.repositories@.len() && (
                #[trigger] self.sync_config.repositories@[i]).enabled ==> r@.contains(i as usize),
            forall|a: int, b: int| 0 <= a < b < r@.len() ==> r@[a] < r@[b],
    {
        let repos = &self.sync_config.repositories;
        let mut out: Vec<usize> = Vec::new();
        let mut i: usize = 0;
        while i < repos.len()
            invariant
                i <= repos@.len(),
                forall|k: int| 0 <= k < out@.len() ==> (#[trigger] out@[k]) < i && repos@[out@[k] as int].enabled,
                forall|j: int| 0 <= j < i && (#[trigger] repos@[j]).enabled ==> out@.contains(j as usize),
                forall|a: int, b: int| 0 <= a < b < out@.len() ==> out@[a] < out@[b],
            decreases repos@.len() - i,
        {
            if repos[i].enabled {
                let ghost before = out@;
                out.push(i);
                assert forall|j: int| 0 <= j < i + 1 && (#[trigger] repos@[j]).enabled implies out@.contains(
                    j as usize,
                ) by {
                    if j < i {
                        let k = choose|k: int| 0 <= k < before.len() && before[k] == j as usize;
                        assert(out@[k] == j as usize);
                    } else {
                        assert(out@[out@.len() - 1] == i);
                    }
                }
            }
            i = i + 1;
        }
        out
    }

    /// Turns embedding generation after a sync on or off.
    pub fn set_embedding_enabled(&mut self, enabled: bool)
        ensures
            final(self).embedding_enabled == enabled,
            final(self).sync_config == old(self).sync_config,
            final(self).db_config == old(self).db_config,
    {
        self.embedding_enabled = enabled;
    }
}

} // verus!
