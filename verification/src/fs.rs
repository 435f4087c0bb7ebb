//! The local-filesystem flavour of the downloader.
//!
//! Reading files is a host concern; here lives the marker client and
//! its tie to the download core.

use vstd::prelude::*;

use crate::config::Config;
use crate::errors::CondowError;
use crate::Condow;

verus! {

/// The marker for a downloader that reads local files; the host does
/// the actual file I/O.
#[derive(Clone, Copy, Debug)]
pub struct FsClient;

impl FsClient {
    /// Builds a downloader over local files; fails if the configuration
    /// is not valid.
    pub fn condow(config: Config) -> (r: Result<Condow<FsClient>, CondowError>)
        ensures
            (r is Ok <==> config.valid_spec()),
            (r matches Ok(c) ==> c.config_spec() == config),
    {
        Condow::new(FsClient, config)
    }
}

} // verus!
