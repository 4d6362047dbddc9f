//! Resolution of the object store's connection settings.
//!
//! The surrounding application decodes its free-form settings blob into a
//! `StorageConfig` if it can; resolution here substitutes the documented
//! defaults whenever no usable configuration was decoded. Resolution never
//! fails outward, and is a pure function of the decoded settings, so repeated
//! resolutions of the same settings agree.

use vstd::prelude::*;
use vstd::string::StringExecFns;

verus! {

/// Connection parameters for an S3-compatible object store, immutable for the
/// process lifetime once resolved.
#[derive(Debug, Clone)]
pub struct StorageConfig {
    pub endpoint: String,
    pub bucket: String,
    pub region: String,
    pub access_key: String,
    pub secret_key: String,
}

impl StorageConfig {
    /// The documented defaults: a local development endpoint, bucket `files`,
    /// region `us-east-1`, and the development credentials.
    pub open spec fn is_default(self) -> bool {
        &&& self.endpoint@ == "http://minio:9000"@
        &&& self.bucket@ == "files"@
        &&& self.region@ == "us-east-1"@
        &&& self.access_key@ == "minioadmin"@
        &&& self.secret_key@ == "minioadmin"@
    }
}

impl Default for StorageConfig {
    fn default() -> (r: Self)
        ensures
            r.is_default(),
    {
        StorageConfig {
            endpoint: String::from_str("http://minio:9000"),
            bucket: String::from_str("files"),
            region: String::from_str("us-east-1"),
            access_key: String::from_str("minioadmin"),
            secret_key: String::from_str("minioadmin"),
        }
    }
}

/// Turns the outcome of decoding the settings blob into the configuration to
/// use: the decoded value where decoding succeeded, the documented defaults
/// where the blob was absent or malformed.
pub fn resolve_config(decoded: Option<StorageConfig>) -> (r: StorageConfig)
    ensures
        decoded matches Some(c) ==> r == c,
        decoded is None ==> r.is_default(),
{
    match decoded {
        Some(c) => c,
        None => StorageConfig::default(),
    }
}

/// With no settings decoded, resolution yields the documented defaults, in
/// particular bucket `files` and region `us-east-1`; and any two resolutions
/// with no settings agree field by field, so the resolved value is stable
/// across repeated resolution calls.
pub proof fn lemma_default_resolution(a: StorageConfig, b: StorageConfig)
    requires
        a.is_default(),
        b.is_default(),
    ensures
        a.bucket@ == "files"@,
        a.region@ == "us-east-1"@,
        a.endpoint@ == b.endpoint@,
        a.bucket@ == b.bucket@,
        a.region@ == b.region@,
        a.access_key@ == b.access_key@,
        a.secret_key@ == b.secret_key@,
{
}

} // verus!
