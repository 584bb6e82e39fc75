//! Loader configuration: the three sections of the TOML file, their defaults,
//! and the checks a configuration must pass before any work starts.

use vstd::prelude::*;

verus! {

/// `[oracle]`: connection, partitioning column and fetch tuning.
pub struct OracleConfig {
    /// EZConnect string, e.g. "host:1521/SERVICE".
    pub dsn: String,
    pub user: String,
    pub password: String,
    /// Column hashed to give each reader a disjoint slice of the table.
    pub partition_column: String,
    /// Rows per `fetch_more` round-trip.
    pub fetch_size: u32,
}

/// `[kinetica]`: REST endpoint, credentials and target table.
pub struct KineticaConfig {
    pub url: String,
    pub user: String,
    pub password: String,
    pub table: String,
}

/// `[pipeline]`: concurrency, batching and retry tuning.
pub struct PipelineConfig {
    /// Number of concurrent Oracle reader tasks.
    pub threads: usize,
    /// Number of concurrent Kinetica writer tasks.
    pub writers: usize,
    /// Records per HTTP POST.
    pub batch_size: usize,
    /// Maximum number of batches queued between readers and writers.
    pub channel_capacity: usize,
    /// Retries per failed Kinetica POST (exponential backoff): a batch is
    /// sent at most `max_retries + 1` times.
    pub max_retries: u32,
}

/// The whole configuration file.
pub struct Config {
    pub oracle: OracleConfig,
    pub kinetica: KineticaConfig,
    pub pipeline: PipelineConfig,
}

/// Why a configuration is refused.
#[derive(Debug, Clone, Copy, PartialEq, Eq, Structural)]
pub enum ConfigError {
    NoReaders,
    NoWriters,
    EmptyBatches,
    NoChannelCapacity,
}

pub open spec fn spec_default_partition_column() -> Seq<char> {
    seq!['R', 'O', 'W', 'I', 'D']
}

/// Default partitioning column: `ROWID` exists in every table.
pub fn default_partition_column() -> (s: String)
    ensures
        s@ == spec_default_partition_column(),
{
    proof {
        reveal_strlit("ROWID");
    }
    String::from_str("ROWID")
}

/// Default rows per fetch round-trip.
pub fn default_fetch_size() -> (n: u32)
    ensures
        n == 10_000,
{
    10_000
}

/// Default number of reader tasks.
pub fn default_threads() -> (n: usize)
    ensures
        n == 8,
{
    8
}

/// Default number of writer tasks.
pub fn default_writers() -> (n: usize)
    ensures
        n == 4,
{
    4
}

/// Default records per insert request.
pub fn default_batch_size() -> (n: usize)
    ensures
        n == 5_000,
{
    5_000
}

/// Default number of batches the channel holds.
pub fn default_channel_capacity() -> (n: usize)
    ensures
        n == 64,
{
    64
}

/// Default attempts per batch.
pub fn default_max_retries() -> (n: u32)
    ensures
        n == 5,
{
    5
}

impl Default for PipelineConfig {
    /// The `[pipeline]` section when the file leaves it out.
    fn default() -> (p: Self)
        ensures
            p.threads == 8,
            p.writers == 4,
            p.batch_size == 5_000,
            p.channel_capacity == 64,
            p.max_retries == 5,
    {
        PipelineConfig {
            threads: default_threads(),
            writers: default_writers(),
            batch_size: default_batch_size(),
            channel_capacity: default_channel_capacity(),
            max_retries: default_max_retries(),
        }
    }
}

impl PipelineConfig {
    /// The first refusal, in the order threads, writers, batch size, capacity.
    pub open spec fn spec_check(&self) -> Result<(), ConfigError> {
        if self.threads == 0 {
            Err(ConfigError::NoReaders)
        } else if self.writers == 0 {
            Err(ConfigError::NoWriters)
        } else if self.batch_size == 0 {
            Err(ConfigError::EmptyBatches)
        } else if self.channel_capacity == 0 {
            Err(ConfigError::NoChannelCapacity)
        } else {
            Ok(())
        }
    }
}

impl Config {
    /// Refuses a pipeline without readers, writers, batch room or queue room.
    pub fn validate(&self) -> (r: Result<(), ConfigError>)
        ensures
            r == self.pipeline.spec_check(),
            r is Ok <==> (self.pipeline.threads >= 1 && self.pipeline.writers >= 1
                && self.pipeline.batch_size >= 1 && self.pipeline.channel_capacity >= 1),
    {
        if self.pipeline.threads == 0 {
            return Err(ConfigError::NoReaders);
        }
        if self.pipeline.writers == 0 {
            return Err(ConfigError::NoWriters);
        }
        if self.pipeline.batch_size == 0 {
            return Err(ConfigError::EmptyBatches);
        }
        if self.pipeline.channel_capacity == 0 {
            return Err(ConfigError::NoChannelCapacity);
        }
        Ok(())
    }
}

pub open spec fn spec_error_message(e: ConfigError) -> Seq<char> {
    match e {
        ConfigError::NoReaders => "pipeline.threads must be >= 1"@,
        ConfigError::NoWriters => "pipeline.writers must be >= 1"@,
        ConfigError::EmptyBatches => "pipeline.batch_size must be >= 1"@,
        ConfigError::NoChannelCapacity => "pipeline.channel_capacity must be >= 1"@,
    }
}

impl ConfigError {
    /// The text the loader reports for this refusal.
    pub fn message(&self) -> (s: String)
        ensures
            s@ == spec_error_message(*self),
    {
        match self {
            ConfigError::NoReaders => String::from_str("pipeline.threads must be >= 1"),
            ConfigError::NoWriters => String::from_str("pipeline.writers must be >= 1"),
            ConfigError::EmptyBatches => String::from_str("pipeline.batch_size must be >= 1"),
            ConfigError::NoChannelCapacity => String::from_str(
                "pipeline.channel_capacity must be >= 1",
            ),
        }
    }
}

/// The built-in pipeline defaults pass validation, so a file may omit
/// `[pipeline]` altogether.
pub proof fn lemma_default_pipeline_is_valid(p: PipelineConfig)
    requires
        p.threads == 8,
        p.writers == 4,
        p.batch_size == 5_000,
        p.channel_capacity == 64,
        p.max_retries == 5,
    ensures
        p.spec_check() is Ok,
{
}

} // verus!
