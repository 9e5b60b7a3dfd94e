//! Deciding when a fetched item has materialised on disk.
//!
//! The fetch tool gives no reliable per-item completion signal, so the
//! driver watches and polls the item's target folder and feeds what it
//! sees into these decisions: a folder that exists as a directory with
//! content counts as fetched — unless the output scan flagged the item as
//! failed, in which case the partial folder must not count as success.

use vstd::prelude::*;
use crate::installer::{spec_is_complete, FolderSnapshot};
use crate::downloader::DownloadedMod;
use crate::paths::spec_basename;

verus! {

/// What one look at the target folder decides.
#[derive(Debug, PartialEq, Eq, Structural)]
pub enum DetectorVerdict {
    /// The folder is present with content: the item is fetched.
    Confirmed,
    /// The folder is present but the tool reported the item failed: the
    /// partial content must not count.
    SuppressedFailure,
    /// Nothing conclusive yet: keep waiting.
    NotYet,
}

/// A folder that has appeared with content.
pub open spec fn spec_materialised(s: FolderSnapshot) -> bool {
    s.exists && s.is_dir && s.has_entries
}

/// Decide one observation of the target folder.
pub fn detect_mod_download(snapshot: &FolderSnapshot, flagged_failed: bool) -> (r: DetectorVerdict)
    ensures
        r == (if spec_materialised(*snapshot) {
            if flagged_failed {
                DetectorVerdict::SuppressedFailure
            } else {
                DetectorVerdict::Confirmed
            }
        } else {
            DetectorVerdict::NotYet
        }),
{
    if snapshot.exists && snapshot.is_dir && snapshot.has_entries {
        if flagged_failed {
            DetectorVerdict::SuppressedFailure
        } else {
            DetectorVerdict::Confirmed
        }
    } else {
        DetectorVerdict::NotYet
    }
}

/// Whether a fetched folder looks structurally complete enough to install.
pub fn verify_mod_download_complete(snapshot: &FolderSnapshot) -> (r: bool)
    ensures
        r == spec_is_complete(*snapshot),
{
    snapshot.exists && snapshot.is_dir && snapshot.has_entries && snapshot.has_about_dir
}

/// Whether a folder holds a partial download worth mentioning when the
/// tool exits with an error.
pub fn is_mod_partially_downloaded(snapshot: &FolderSnapshot) -> (r: bool)
    ensures
        r == spec_materialised(*snapshot),
{
    snapshot.exists && snapshot.is_dir && snapshot.has_entries
}

/// The wait bookkeeping of one detector: how long it has waited, how often
/// it re-checks, and when it gives up.
pub struct DetectorWait {
    pub elapsed_ms: u64,
    pub poll_interval_ms: u64,
    pub timeout_ms: u64,
}

impl DetectorWait {
    /// A detector that re-checks every `poll_interval_ms` and gives up
    /// after `timeout_ms` of waiting.
    pub fn new(poll_interval_ms: u64, timeout_ms: u64) -> (r: DetectorWait)
        ensures
            r.elapsed_ms == 0,
            r.poll_interval_ms == poll_interval_ms,
            r.timeout_ms == timeout_ms,
    {
        DetectorWait { elapsed_ms: 0, poll_interval_ms, timeout_ms }
    }

    /// How long to wait before the next re-check, or nothing when the
    /// absolute timeout has passed and only the final check is left.
    pub fn next_wait(&self) -> (r: Option<u64>)
        ensures
            r == (if self.elapsed_ms >= self.timeout_ms {
                None::<u64>
            } else if self.timeout_ms - self.elapsed_ms < self.poll_interval_ms {
                Some((self.timeout_ms - self.elapsed_ms) as u64)
            } else {
                Some(self.poll_interval_ms)
            }),
    {
        if self.elapsed_ms >= self.timeout_ms {
            None
        } else if self.timeout_ms - self.elapsed_ms < self.poll_interval_ms {
            Some(self.timeout_ms - self.elapsed_ms)
        } else {
            Some(self.poll_interval_ms)
        }
    }

    /// Record that `waited_ms` have passed, saturating at the timeout.
    pub fn advance(&mut self, waited_ms: u64)
        ensures
            final(self).poll_interval_ms == old(self).poll_interval_ms,
            final(self).timeout_ms == old(self).timeout_ms,
            final(self).elapsed_ms == if old(self).elapsed_ms + waited_ms > old(self).timeout_ms {
                old(self).timeout_ms
            } else {
                (old(self).elapsed_ms + waited_ms) as u64
            },
    {
        if waited_ms > self.timeout_ms || self.elapsed_ms > self.timeout_ms - waited_ms {
            self.elapsed_ms = self.timeout_ms;
        } else {
            self.elapsed_ms = self.elapsed_ms + waited_ms;
        }
    }
}

/// Package a confirmed fetch as a `DownloadedMod`: the item id, the folder
/// it landed in, and that folder's name.
pub fn create_downloaded_mod_result(mod_download_path: &str, mod_id: String) -> (r: DownloadedMod)
    ensures
        r.mod_id@ == mod_id@,
        r.mod_path@ == mod_download_path@,
        match r.folder {
            Some(f) => spec_basename(mod_download_path@).len() > 0 && f@ == spec_basename(
                mod_download_path@,
            ),
            None => spec_basename(mod_download_path@).len() == 0,
        },
{
    let folder = match crate::paths::extract_folder_name(mod_download_path) {
        Ok(name) => Some(name),
        Err(_) => None,
    };
    DownloadedMod { mod_id, mod_path: String::from_str(mod_download_path), folder }
}

} // verus!
