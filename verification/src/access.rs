//! Deciding whether a directory can serve as a destination tree.  The
//! driver probes the directory; the verdict, its record and its wording
//! are fixed here.

use vstd::prelude::*;

verus! {

/// Why a directory cannot be used, and what was still possible.
pub struct AccessError {
    pub path: String,
    pub can_read: bool,
    pub can_write: bool,
    pub reason: String,
}

impl AccessError {
    /// The error spelled out, for reporting.
    pub fn message(&self) -> (r: String)
        ensures
            r@ == "Access error for "@ + self.path@ + ": "@ + self.reason@,
    {
        let mut r = String::from_str("Access error for ");
        r.append(self.path.as_str());
        r.append(": ");
        r.append(self.reason.as_str());
        r
    }
}

/// Decide read/write access to a directory from what the driver probed.
/// A missing path, a non-directory, an unreadable or an unwritable
/// directory each fail with a fixed reason.
pub fn check_directory_access(path: &str, exists: bool, is_dir: bool, can_read: bool, can_write: bool) -> (r:
    Result<(), AccessError>)
    ensures
        match r {
            Ok(_) => exists && is_dir && can_read && can_write,
            Err(e) => {
                &&& e.path@ == path@
                &&& (!exists && !e.can_read && !e.can_write && e.reason@
                    == "Directory does not exist: "@ + path@) || (exists && !is_dir && !e.can_read
                    && !e.can_write && e.reason@ == "Path is not a directory: "@ + path@) || (
                exists && is_dir && !can_read && !e.can_read && !e.can_write && e.reason@
                    == "Cannot read directory: "@ + path@) || (exists && is_dir && can_read
                    && !can_write && e.can_read && !e.can_write && e.reason@
                    == "Cannot write to directory: "@ + path@)
            },
        },
{
    if !exists {
        let mut reason = String::from_str("Directory does not exist: ");
        reason.append(path);
        return Err(
            AccessError {
                path: String::from_str(path),
                can_read: false,
                can_write: false,
                reason,
            },
        );
    }
    if !is_dir {
        let mut reason = String::from_str("Path is not a directory: ");
        reason.append(path);
        return Err(
            AccessError {
                path: String::from_str(path),
                can_read: false,
                can_write: false,
                reason,
            },
        );
    }
    if !can_read {
        let mut reason = String::from_str("Cannot read directory: ");
        reason.append(path);
        return Err(
            AccessError {
                path: String::from_str(path),
                can_read: false,
                can_write: false,
                reason,
            },
        );
    }
    if !can_write {
        let mut reason = String::from_str("Cannot write to directory: ");
        reason.append(path);
        return Err(
            AccessError {
                path: String::from_str(path),
                can_read: true,
                can_write: false,
                reason,
            },
        );
    }
    Ok(())
}

/// Decide access for a read-only use of a directory: a missing, non-
/// directory or unreadable path still fails, but a merely unwritable one
/// passes with its record returned as a warning.
pub fn check_directory_access_with_warning(
    path: &str,
    exists: bool,
    is_dir: bool,
    can_read: bool,
    can_write: bool,
) -> (r: Result<Option<AccessError>, AccessError>)
    ensures
        match r {
            Ok(w) => {
                &&& exists && is_dir && can_read
                &&& match w {
                    Some(e) => !can_write && e.path@ == path@ && e.can_read && !e.can_write
                        && e.reason@ == "Cannot write to directory: "@ + path@,
                    None => can_write,
                }
            },
            Err(e) => !(exists && is_dir && can_read) && e.path@ == path@,
        },
{
    match check_directory_access(path, exists, is_dir, can_read, can_write) {
        Ok(_) => Ok(None),
        Err(e) => {
            if exists && is_dir && can_read {
                Ok(Some(e))
            } else {
                Err(e)
            }
        },
    }
}

} // verus!
