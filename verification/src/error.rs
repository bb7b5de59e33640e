//! The failures a transfer can end in.

use vstd::prelude::*;

verus! {

/// One value of the configuration.
#[derive(Clone, Copy, Debug, PartialEq, Eq, Structural)]
pub enum ConfigField {
    AccessKey,
    SecretKey,
    Bucket,
    Endpoint,
    Region,
}

/// Why an operation failed.
#[derive(Clone, Debug, PartialEq, Eq)]
pub enum TransferError {
    /// A configuration value is missing; reported before any transfer begins.
    Config(ConfigField),
    /// A local file could not be read or written as expected.
    Io(String),
    /// A call to the remote service failed.
    RemoteApi(String),
    /// Fewer (or more) parts completed than the session was planned with;
    /// the remote session is left open.
    IncompleteUpload { expected: u64, completed: u64 },
}

impl ConfigField {
    /// The name of the environment variable that carries this value.
    pub open spec fn var_name_of(self) -> Seq<char> {
        match self {
            ConfigField::AccessKey => "OSS_ACCESS_KEY"@,
            ConfigField::SecretKey => "OSS_SECRET_KEY"@,
            ConfigField::Bucket => "OSS_BUCKET"@,
            ConfigField::Endpoint => "OSS_ENDPOINT"@,
            ConfigField::Region => "OSS_REGION"@,
        }
    }

    /// The name of the environment variable that carries this value.
    pub fn var_name(self) -> (name: &'static str)
        ensures
            name@ == self.var_name_of(),
    {
        match self {
            ConfigField::AccessKey => "OSS_ACCESS_KEY",
            ConfigField::SecretKey => "OSS_SECRET_KEY",
            ConfigField::Bucket => "OSS_BUCKET",
            ConfigField::Endpoint => "OSS_ENDPOINT",
            ConfigField::Region => "OSS_REGION",
        }
    }
}

} // verus!
