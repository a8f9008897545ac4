//! Release artifacts: where a build put them.

use vstd::prelude::*;

verus! {

/// The files of a release.
#[derive(Debug, Clone)]
pub struct ReleaseMetrics {
    pub artifact_dir: String,
    pub archive_path: String,
    pub sample_db_path: String,
    pub checksum_path: String,
}

} // verus!
