//! The configuration of a transfer: credentials, bucket and endpoint.

use crate::error::{ConfigField, TransferError};
use vstd::prelude::*;

verus! {

/// What a client needs to reach a bucket. Built once and only read after.
#[derive(Clone, Debug, PartialEq, Eq)]
pub struct OssConfig {
    pub access_key: String,
    pub secret_key: String,
    pub bucket: String,
    pub endpoint: String,
    pub region: String,
}

/// The first value that is missing, in the order in which they are looked
/// up; `None` where all five are there.
pub open spec fn first_missing(
    access_key: Option<String>,
    secret_key: Option<String>,
    bucket: Option<String>,
    endpoint: Option<String>,
    region: Option<String>,
) -> Option<ConfigField> {
    if access_key is None {
        Some(ConfigField::AccessKey)
    } else if secret_key is None {
        Some(ConfigField::SecretKey)
    } else if bucket is None {
        Some(ConfigField::Bucket)
    } else if endpoint is None {
        Some(ConfigField::Endpoint)
    } else if region is None {
        Some(ConfigField::Region)
    } else {
        None
    }
}

impl OssConfig {
    /// The values in the order in which they are looked up.
    pub fn fields() -> (all: [ConfigField; 5])
        ensures
            all@ == seq![
                ConfigField::AccessKey,
                ConfigField::SecretKey,
                ConfigField::Bucket,
                ConfigField::Endpoint,
                ConfigField::Region,
            ],
    {
        let all = [
            ConfigField::AccessKey,
            ConfigField::SecretKey,
            ConfigField::Bucket,
            ConfigField::Endpoint,
            ConfigField::Region,
        ];
        assert(all@ =~= seq![
            ConfigField::AccessKey,
            ConfigField::SecretKey,
            ConfigField::Bucket,
            ConfigField::Endpoint,
            ConfigField::Region,
        ]);
        all
    }

    /// Builds the configuration from what the environment holds for each
    /// value's variable (see `ConfigField::var_name`), `None` standing for
    /// a variable that is not set. The first missing value is the error.
    pub fn from_env(
        access_key: Option<String>,
        secret_key: Option<String>,
        bucket: Option<String>,
        endpoint: Option<String>,
        region: Option<String>,
    ) -> (r: Result<OssConfig, TransferError>)
        ensures
            r is Ok <==> first_missing(access_key, secret_key, bucket, endpoint, region) is None,
            r matches Ok(config) ==> Some(config.access_key) == access_key && Some(
                config.secret_key,
            ) == secret_key && Some(config.bucket) == bucket && Some(config.endpoint) == endpoint
                && Some(config.region) == region,
            r matches Err(e) ==> first_missing(access_key, secret_key, bucket, endpoint, region)
                == Some(e->Config_0) && e is Config,
    {
        let access_key = match access_key {
            Some(value) => value,
            None => { return Err(TransferError::Config(ConfigField::AccessKey)); },
        };
        let secret_key = match secret_key {
            Some(value) => value,
            None => { return Err(TransferError::Config(ConfigField::SecretKey)); },
        };
        let bucket = match bucket {
            Some(value) => value,
            None => { return Err(TransferError::Config(ConfigField::Bucket)); },
        };
        let endpoint = match endpoint {
            Some(value) => value,
            None => { return Err(TransferError::Config(ConfigField::Endpoint)); },
        };
        let region = match region {
            Some(value) => value,
            None => { return Err(TransferError::Config(ConfigField::Region)); },
        };
        Ok(OssConfig { access_key, secret_key, bucket, endpoint, region })
    }
}

} // verus!
