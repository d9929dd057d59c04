//! The worker's configuration and the settings derived from it.

use vstd::prelude::*;

verus! {

/// Ping interval used when none is configured, in seconds.
pub const DEFAULT_PING_INTERVAL_SECS: u64 = 30;

/// Ping timeout used when none is configured, in seconds.
pub const DEFAULT_PING_TIMEOUT_SECS: u64 = 10;

/// Number of concurrent processing tasks used when none is configured.
pub const DEFAULT_CONCURRENCY: usize = 1;

/// Startup configuration of one worker.
#[derive(Clone, Debug)]
pub struct IndexerGrpcProcessorConfig {
    pub processor_name: String,
    pub postgres_connection_string: String,
    pub indexer_grpc_data_service_address: String,
    pub indexer_grpc_http2_ping_interval_in_secs: Option<u64>,
    pub indexer_grpc_http2_ping_timeout_in_secs: Option<u64>,
    pub auth_token: String,
    pub starting_version: Option<u64>,
    pub ending_version: Option<u64>,
    pub number_concurrent_processing_tasks: Option<usize>,
    pub nft_points_contract: Option<String>,
    pub pubsub_topic_name: Option<String>,
    pub google_application_credentials: Option<String>,
}

/// Why a configuration cannot start a worker.
#[derive(Clone, Copy, Debug, PartialEq, Eq, Structural)]
pub enum ConfigError {
    /// `ending_version` lies before the configured starting version.
    EndingBeforeStarting { starting: u64, ending: u64 },
    /// The concurrency degree was set to zero.
    ZeroConcurrency,
}

/// The values a worker runs with once every default has been applied.
#[derive(Clone, Debug)]
pub struct WorkerSettings {
    pub processor_name: String,
    pub postgres_connection_string: String,
    pub indexer_grpc_data_service_address: String,
    pub ping_interval_secs: u64,
    pub ping_timeout_secs: u64,
    pub auth_token: String,
    pub starting_version: Option<u64>,
    pub ending_version: Option<u64>,
    pub concurrency: usize,
    pub nft_points_contract: Option<String>,
    pub pubsub_topic_name: Option<String>,
    pub google_application_credentials: Option<String>,
}

/// The value of an optional setting, or its default.
pub open spec fn or_default<T>(o: Option<T>, d: T) -> T {
    match o {
        Some(v) => v,
        None => d,
    }
}

impl IndexerGrpcProcessorConfig {
    /// The version from which a worker starts when no checkpoint exists.
    pub open spec fn spec_starting_version(&self) -> u64 {
        or_default(self.starting_version, 0)
    }

    /// The configuration can start a worker.
    pub open spec fn spec_is_valid(&self) -> bool {
        &&& self.number_concurrent_processing_tasks != Some(0usize)
        &&& match self.ending_version {
            Some(e) => self.spec_starting_version() <= e,
            None => true,
        }
    }

    /// Name under which the worker is served.
    pub fn get_server_name(&self) -> (r: String)
        ensures
            r@ == "idxproc"@,
    {
        let r = String::from_str("idxproc");
        proof {
            reveal_strlit("idxproc");
        }
        r
    }

    /// Seconds between two liveness pings.
    pub fn ping_interval_secs(&self) -> (r: u64)
        ensures
            r == or_default(self.indexer_grpc_http2_ping_interval_in_secs, DEFAULT_PING_INTERVAL_SECS),
    {
        match self.indexer_grpc_http2_ping_interval_in_secs {
            Some(v) => v,
            None => DEFAULT_PING_INTERVAL_SECS,
        }
    }

    /// Seconds to wait for a ping's answer before the connection is dead.
    pub fn ping_timeout_secs(&self) -> (r: u64)
        ensures
            r == or_default(self.indexer_grpc_http2_ping_timeout_in_secs, DEFAULT_PING_TIMEOUT_SECS),
    {
        match self.indexer_grpc_http2_ping_timeout_in_secs {
            Some(v) => v,
            None => DEFAULT_PING_TIMEOUT_SECS,
        }
    }

    /// Number of batches processed at the same time.
    pub fn concurrency(&self) -> (r: usize)
        ensures
            r == or_default(self.number_concurrent_processing_tasks, DEFAULT_CONCURRENCY),
    {
        match self.number_concurrent_processing_tasks {
            Some(v) => v,
            None => DEFAULT_CONCURRENCY,
        }
    }

    /// The version from which a worker starts when no checkpoint exists.
    pub fn starting_version_or_default(&self) -> (r: u64)
        ensures
            r == self.spec_starting_version(),
    {
        match self.starting_version {
            Some(v) => v,
            None => 0,
        }
    }

    /// Checks the configuration and applies every default.
    pub fn worker_settings(&self) -> (r: Result<WorkerSettings, ConfigError>)
        ensures
            r is Ok <==> self.spec_is_valid(),
            self.number_concurrent_processing_tasks == Some(0usize) ==> r == Err::<
                WorkerSettings,
                ConfigError,
            >(ConfigError::ZeroConcurrency),
            self.number_concurrent_processing_tasks != Some(0usize) && !self.spec_is_valid()
                ==> r == Err::<WorkerSettings, ConfigError>(
                (ConfigError::EndingBeforeStarting {
                    starting: self.spec_starting_version(),
                    ending: self.ending_version->Some_0,
                }),
            ),
            r matches Ok(s) ==> {
                &&& s.processor_name@ == self.processor_name@
                &&& s.postgres_connection_string@ == self.postgres_connection_string@
                &&& s.indexer_grpc_data_service_address@ == self.indexer_grpc_data_service_address@
                &&& s.auth_token@ == self.auth_token@
                &&& s.ping_interval_secs == or_default(
                    self.indexer_grpc_http2_ping_interval_in_secs,
                    DEFAULT_PING_INTERVAL_SECS,
                )
                &&& s.ping_timeout_secs == or_default(
                    self.indexer_grpc_http2_ping_timeout_in_secs,
                    DEFAULT_PING_TIMEOUT_SECS,
                )
                &&& s.starting_version == self.starting_version
                &&& s.ending_version == self.ending_version
                &&& s.concurrency == or_default(
                    self.number_concurrent_processing_tasks,
                    DEFAULT_CONCURRENCY,
                )
                &&& s.concurrency > 0
                &&& s.nft_points_contract == self.nft_points_contract
                &&& s.pubsub_topic_name == self.pubsub_topic_name
                &&& s.google_application_credentials == self.google_application_credentials
            },
    {
        let concurrency = self.concurrency();
        if concurrency == 0 {
            return Err(ConfigError::ZeroConcurrency);
        }
        let starting = self.starting_version_or_default();
        if let Some(ending) = self.ending_version {
            if ending < starting {
                return Err(ConfigError::EndingBeforeStarting { starting, ending });
            }
        }
        Ok(WorkerSettings {
            processor_name: self.processor_name.clone(),
            postgres_connection_string: self.postgres_connection_string.clone(),
            indexer_grpc_data_service_address: self.indexer_grpc_data_service_address.clone(),
            ping_interval_secs: self.ping_interval_secs(),
            ping_timeout_secs: self.ping_timeout_secs(),
            auth_token: self.auth_token.clone(),
            starting_version: self.starting_version,
            ending_version: self.ending_version,
            concurrency,
            nft_points_contract: self.nft_points_contract.clone(),
            pubsub_topic_name: self.pubsub_topic_name.clone(),
            google_application_credentials: self.google_application_credentials.clone(),
        })
    }
}

} // verus!
