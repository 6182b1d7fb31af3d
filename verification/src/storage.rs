//! Storage configuration and the decisions of the blob-store interface.
//! The store itself is an outside collaborator with plain get/put
//! semantics; only the decisions made around it live here.

use vstd::prelude::*;
use crate::errors::ErrorCodes;

verus! {

pub struct S3StorageConfig {
    pub bucket: String,
}

pub struct LocalStorageConfig {
    pub root: String,
}

/// Which storage backend the worker is wired to.
pub enum StorageConfig {
    S3(S3StorageConfig),
    Local(LocalStorageConfig),
}

#[derive(Clone, Copy, Debug, PartialEq, Eq, Structural)]
pub enum StorageConfigError {
    InvalidStorageConfig,
}

impl StorageConfigError {
    /// The status code this configuration error reports.
    pub fn code(&self) -> (r: ErrorCodes)
        ensures
            r == ErrorCodes::InvalidArgument,
    {
        match self {
            StorageConfigError::InvalidStorageConfig => ErrorCodes::InvalidArgument,
        }
    }
}

/// The bucket an object-store client is to be built for. Only the
/// object-store variant of the configuration can yield one; any other
/// backend is an invalid configuration for this store.
pub fn s3_bucket_for_config(config: &StorageConfig) -> (r: Result<String, StorageConfigError>)
    ensures
        match config {
            StorageConfig::S3(c) => r matches Ok(b) && b@ == c.bucket@,
            _ => r == Err::<String, StorageConfigError>(StorageConfigError::InvalidStorageConfig),
        },
{
    match config {
        StorageConfig::S3(c) => {
            let b = c.bucket.clone();
            proof {
                assert(b@ == c.bucket@);
            }
            Ok(b)
        },
        _ => Err(StorageConfigError::InvalidStorageConfig),
    }
}

/// How bucket creation ended, as the store reports it.
pub enum CreateBucketOutcome {
    Created,
    AlreadyExists,
    AlreadyOwnedByYou,
    Failed(String),
}

/// Bucket provisioning succeeds when the bucket was created or already
/// exists (owned by anyone); only a genuine store failure is an error.
pub fn create_bucket_result(outcome: CreateBucketOutcome) -> (r: Result<(), String>)
    ensures
        match outcome {
            CreateBucketOutcome::Failed(msg) => r matches Err(m) && m@ == msg@,
            _ => r is Ok,
        },
{
    match outcome {
        CreateBucketOutcome::Created => Ok(()),
        CreateBucketOutcome::AlreadyExists => Ok(()),
        CreateBucketOutcome::AlreadyOwnedByYou => Ok(()),
        CreateBucketOutcome::Failed(msg) => Err(msg),
    }
}

} // verus!
