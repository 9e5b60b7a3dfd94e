//! Installing one fetched item into the destination tree.
//!
//! The installer decides; the driver acts.  `update_mod` takes what is
//! known of the world — the fetched item's folder, the destination
//! listing, the cancellation flag as sampled at each safe point — resolves
//! the destination folder name, and returns the exact sequence of
//! filesystem steps to perform together with the outcome to report.  Every
//! plan is well bracketed: the destination is registered with the
//! filesystem observer before any destructive step touches it and released
//! as the final step of every path, and no plan that reports an error
//! performs the installing copy.

use vstd::prelude::*;
use crate::naming::{
    first_named, first_with_mod_id, folder_views, resolve_from, spec_sanitize, DestFolder,
};
use crate::paths::spec_join;

verus! {

/// What the installer can observe of one folder on disk.
pub struct FolderSnapshot {
    pub exists: bool,
    pub is_dir: bool,
    pub has_entries: bool,
    pub has_about_dir: bool,
    pub has_about_xml: bool,
}

/// A folder that exists as a directory but lacks the required manifest
/// structure.
pub open spec fn spec_is_corrupted(s: FolderSnapshot) -> bool {
    if !s.exists || !s.is_dir {
        false
    } else {
        !s.has_about_dir || !s.has_about_xml
    }
}

/// A folder that exists, has content, and carries its manifest directory.
pub open spec fn spec_is_complete(s: FolderSnapshot) -> bool {
    s.exists && s.is_dir && s.has_entries && s.has_about_dir
}

/// Why an installation did not produce an installed item.
#[derive(Debug)]
pub enum InstallError {
    CorruptedModConflict { folder_name: String, mod_id: String },
    Cancelled,
    SourceMissing { path: String },
    SourceIncomplete { path: String },
}

/// The abstraction of an `InstallError`.
pub enum InstallErrorView {
    CorruptedModConflict { folder_name: Seq<char>, mod_id: Seq<char> },
    Cancelled,
    SourceMissing { path: Seq<char> },
    SourceIncomplete { path: Seq<char> },
}

impl View for InstallError {
    type V = InstallErrorView;

    open spec fn view(&self) -> InstallErrorView {
        match self {
            InstallError::CorruptedModConflict { folder_name, mod_id } => {
                InstallErrorView::CorruptedModConflict {
                    folder_name: folder_name@,
                    mod_id: mod_id@,
                }
            },
            InstallError::Cancelled => InstallErrorView::Cancelled,
            InstallError::SourceMissing { path } => InstallErrorView::SourceMissing {
                path: path@,
            },
            InstallError::SourceIncomplete { path } => InstallErrorView::SourceIncomplete {
                path: path@,
            },
        }
    }
}

/// One filesystem step of an installation, for the driver to perform.
#[derive(Debug)]
pub enum InstallAction {
    EnsureDirExists { path: String },
    RemoveDirAllIfPresent { path: String },
    CopyDir { from: String, to: String },
    RegisterIgnore { path: String },
    SleepMillis { millis: u64 },
    RemoveDirWithRetry { path: String, attempts: u32, delay_ms: u64 },
    VerifyComplete { path: String },
    WriteMarker { dir: String, mod_id: String },
    UnregisterIgnore { path: String },
}

/// The abstraction of an `InstallAction`.
pub enum ActionView {
    EnsureDirExists { path: Seq<char> },
    RemoveDirAllIfPresent { path: Seq<char> },
    CopyDir { from: Seq<char>, to: Seq<char> },
    RegisterIgnore { path: Seq<char> },
    SleepMillis { millis: u64 },
    RemoveDirWithRetry { path: Seq<char>, attempts: u32, delay_ms: u64 },
    VerifyComplete { path: Seq<char> },
    WriteMarker { dir: Seq<char>, mod_id: Seq<char> },
    UnregisterIgnore { path: Seq<char> },
}

impl View for InstallAction {
    type V = ActionView;

    open spec fn view(&self) -> ActionView {
        match self {
            InstallAction::EnsureDirExists { path } => ActionView::EnsureDirExists {
                path: path@,
            },
            InstallAction::RemoveDirAllIfPresent { path } => ActionView::RemoveDirAllIfPresent {
                path: path@,
            },
            InstallAction::CopyDir { from, to } => ActionView::CopyDir { from: from@, to: to@ },
            InstallAction::RegisterIgnore { path } => ActionView::RegisterIgnore { path: path@ },
            InstallAction::SleepMillis { millis } => ActionView::SleepMillis { millis: *millis },
            InstallAction::RemoveDirWithRetry { path, attempts, delay_ms } => {
                ActionView::RemoveDirWithRetry {
                    path: path@,
                    attempts: *attempts,
                    delay_ms: *delay_ms,
                }
            },
            InstallAction::VerifyComplete { path } => ActionView::VerifyComplete { path: path@ },
            InstallAction::WriteMarker { dir, mod_id } => ActionView::WriteMarker {
                dir: dir@,
                mod_id: mod_id@,
            },
            InstallAction::UnregisterIgnore { path } => ActionView::UnregisterIgnore {
                path: path@,
            },
        }
    }
}

/// The views of a sequence of actions.
pub open spec fn action_views(s: Seq<InstallAction>) -> Seq<ActionView> {
    Seq::new(s.len(), |i: int| s[i]@)
}

/// A step that destroys or overwrites content under `dest`.
pub open spec fn is_destructive_on(a: ActionView, dest: Seq<char>) -> bool {
    match a {
        ActionView::RemoveDirWithRetry { path, .. } => path == dest,
        ActionView::CopyDir { to, .. } => to == dest,
        _ => false,
    }
}

/// Walk a plan and track whether `dest` is registered with the observer:
/// registering twice, releasing without registering, or touching `dest`
/// destructively while unregistered are violations (`None`); otherwise the
/// registration state after the walk is returned.
pub open spec fn scan_registration(s: Seq<ActionView>, dest: Seq<char>, registered: bool) -> Option<
    bool,
>
    decreases s.len(),
{
    if s.len() == 0 {
        Some(registered)
    } else {
        match s[0] {
            ActionView::RegisterIgnore { path } => {
                if registered || path != dest {
                    None
                } else {
                    scan_registration(s.drop_first(), dest, true)
                }
            },
            ActionView::UnregisterIgnore { path } => {
                if !registered || path != dest {
                    None
                } else {
                    scan_registration(s.drop_first(), dest, false)
                }
            },
            a => {
                if is_destructive_on(a, dest) && !registered {
                    None
                } else {
                    scan_registration(s.drop_first(), dest, registered)
                }
            },
        }
    }
}

/// A plan whose walk starts and ends unregistered: the ignore registration
/// is acquired before any destructive step on the destination and released
/// on the very path that acquired it.
pub open spec fn well_bracketed(s: Seq<ActionView>, dest: Seq<char>) -> bool {
    scan_registration(s, dest, false) == Some(false)
}

/// Walking a concatenation walks its halves in turn.
pub proof fn lemma_scan_concat(
    a: Seq<ActionView>,
    b: Seq<ActionView>,
    dest: Seq<char>,
    registered: bool,
)
    ensures
        scan_registration(a + b, dest, registered) == match scan_registration(a, dest, registered) {
            None => None::<bool>,
            Some(m) => scan_registration(b, dest, m),
        },
    decreases a.len(),
{
    if a.len() == 0 {
        assert(a + b =~= b);
    } else {
        assert((a + b)[0] == a[0]);
        assert((a + b).drop_first() =~= a.drop_first() + b);
        lemma_scan_concat(a.drop_first(), b, dest, registered);
        match a[0] {
            ActionView::RegisterIgnore { path } => {
                if !(registered || path != dest) {
                    lemma_scan_concat(a.drop_first(), b, dest, true);
                }
            },
            ActionView::UnregisterIgnore { path } => {
                if !(!registered || path != dest) {
                    lemma_scan_concat(a.drop_first(), b, dest, false);
                }
            },
            _ => {},
        }
    }
}

/// Whether a plan copies anything into `dest`: the installing step.
pub open spec fn has_install_copy(s: Seq<ActionView>, dest: Seq<char>) -> bool {
    exists|i: int|
        0 <= i < s.len() && ((#[trigger] s[i]) matches ActionView::CopyDir { to, .. } && to
            == dest)
}

/// Appending one step changes whether a plan installs only when the step
/// is the installing copy.
pub proof fn lemma_install_copy_push(s: Seq<ActionView>, a: ActionView, dest: Seq<char>)
    ensures
        has_install_copy(s.push(a), dest) <==> has_install_copy(s, dest) || (a matches
            ActionView::CopyDir { to, .. } && to == dest),
{
    let sp = s.push(a);
    if has_install_copy(sp, dest) {
        let i = choose|i: int|
            0 <= i < sp.len() && ((#[trigger] sp[i]) matches ActionView::CopyDir { to, .. } && to
                == dest);
        if i < s.len() {
            assert(s[i] == sp[i]);
        } else {
            assert(sp[i] == a);
        }
    }
    if has_install_copy(s, dest) {
        let i = choose|i: int|
            0 <= i < s.len() && ((#[trigger] s[i]) matches ActionView::CopyDir { to, .. } && to
                == dest);
        assert(sp[i] == s[i]);
    }
    if (a matches ActionView::CopyDir { to, .. } && to == dest) {
        assert(sp[sp.len() - 1] == a);
    }
}

/// One step of the registration walk, taken at the end of a plan.
pub proof fn lemma_scan_push(s: Seq<ActionView>, a: ActionView, dest: Seq<char>, m: bool)
    requires
        scan_registration(s, dest, false) == Some(m),
    ensures
        scan_registration(s.push(a), dest, false) == match a {
            ActionView::RegisterIgnore { path } => {
                if m || path != dest {
                    None::<bool>
                } else {
                    Some(true)
                }
            },
            ActionView::UnregisterIgnore { path } => {
                if !m || path != dest {
                    None::<bool>
                } else {
                    Some(false)
                }
            },
            aa => {
                if is_destructive_on(aa, dest) && !m {
                    None::<bool>
                } else {
                    Some(m)
                }
            },
        },
{
    assert(s.push(a) =~= s + seq![a]);
    lemma_scan_concat(s, seq![a], dest, false);
    assert(seq![a].drop_first() =~= Seq::<ActionView>::empty());
    assert(seq![a][0] == a);
    assert(seq![a].len() == 1);
    assert(scan_registration(Seq::<ActionView>::empty(), dest, true) == Some(true));
    assert(scan_registration(Seq::<ActionView>::empty(), dest, false) == Some(false));
    assert(scan_registration(s + seq![a], dest, false) == scan_registration(seq![a], dest, m));
}

/// The installer: resolves destination names and plans installations.
pub struct ModUpdater;

/// The folder name an installation resolves to, or the name of a corrupted
/// colliding folder that needs a caller decision.
///
/// A caller-supplied name wins; else the name of a folder already carrying
/// the item id is reused; else the sanitised title (or id) is taken, and a
/// collision with an existing folder is settled by package identity: same
/// identity overwrites, different or missing identity renames with
/// underscore suffixes, a corrupted collision without a decision is
/// surfaced, and two unidentified folders with different item ids are told
/// apart by appending the id in parentheses.
pub open spec fn spec_resolve_folder_name(
    mod_id: Seq<char>,
    existing_folder_name: Option<Seq<char>>,
    mod_title: Option<Seq<char>>,
    source_package_id: Option<Seq<char>>,
    fs: Seq<crate::naming::FolderView>,
    force_overwrite_corrupted: Option<bool>,
) -> Result<Seq<char>, Seq<char>> {
    if existing_folder_name is Some {
        Ok(existing_folder_name->0)
    } else if first_with_mod_id(fs, mod_id) is Some {
        Ok(first_with_mod_id(fs, mod_id)->0.name)
    } else {
        let base = spec_sanitize(
            match mod_title {
                Some(t) => t,
                None => mod_id,
            },
        );
        match first_named(fs, base) {
            None => Ok(base),
            Some(f) => {
                if spec_folder_corrupted(f) {
                    match force_overwrite_corrupted {
                        None => Err(base),
                        Some(true) => Ok(base),
                        Some(false) => Ok(
                            resolve_from(base, 1, fs, source_package_id, false, mod_id),
                        ),
                    }
                } else {
                    match (source_package_id, f.package_id) {
                        (Some(s), Some(e)) => {
                            if s == e {
                                Ok(base)
                            } else {
                                Ok(resolve_from(base, 1, fs, Some(s), true, mod_id))
                            }
                        },
                        (Some(s), None) => Ok(resolve_from(base, 1, fs, Some(s), false, mod_id)),
                        (None, Some(_)) => Ok(resolve_from(base, 1, fs, None, false, mod_id)),
                        (None, None) => {
                            if f.mod_id is Some && f.mod_id->0 != mod_id {
                                Ok(base + " ("@ + mod_id + ")"@)
                            } else {
                                Ok(base)
                            }
                        },
                    }
                }
            },
        }
    }
}

/// What a listing records as corruption for one folder.
pub open spec fn spec_folder_corrupted(f: crate::naming::FolderView) -> bool {
    f.corrupted
}

/// The steps and outcome of an installation once the destination name is
/// resolved: back up, shield, clear, copy, verify, mark, release — cut
/// short by the first failing gate.
pub open spec fn spec_plan_steps(
    mod_id: Seq<char>,
    mod_path: Seq<char>,
    msnap: FolderSnapshot,
    download_path: Seq<char>,
    fsnap: FolderSnapshot,
    mods_path: Seq<char>,
    name: Seq<char>,
    dest_exists: bool,
    create_backup: bool,
    backup_dir: Option<Seq<char>>,
    c1: bool,
    c2: bool,
    c3: bool,
) -> (Seq<ActionView>, Result<Seq<char>, InstallErrorView>) {
    let dest = spec_join(mods_path, name);
    let pre = seq![ActionView::EnsureDirExists { path: mods_path }];
    if create_backup && c1 {
        (pre, Err(InstallErrorView::Cancelled))
    } else {
        let with_backup = if create_backup && backup_dir is Some {
            let bpath = spec_join(backup_dir->0, name);
            pre + seq![
                ActionView::EnsureDirExists { path: backup_dir->0 },
                ActionView::RemoveDirAllIfPresent { path: bpath },
            ] + if dest_exists {
                seq![ActionView::CopyDir { from: dest, to: bpath }]
            } else {
                Seq::empty()
            }
        } else {
            pre
        };
        let reg = with_backup + seq![
            ActionView::RegisterIgnore { path: dest },
            ActionView::SleepMillis { millis: 10 },
        ];
        if dest_exists && c2 {
            (
                reg + seq![ActionView::UnregisterIgnore { path: dest }],
                Err(InstallErrorView::Cancelled),
            )
        } else {
            let removed = reg + if dest_exists {
                seq![
                    ActionView::RemoveDirWithRetry { path: dest, attempts: 3, delay_ms: 200 },
                ]
            } else {
                Seq::empty()
            };
            let use_primary = msnap.exists && msnap.is_dir;
            let src = if use_primary {
                mod_path
            } else {
                spec_join(download_path, mod_id)
            };
            let ssnap = if use_primary {
                msnap
            } else {
                fsnap
            };
            if !ssnap.exists || !ssnap.is_dir {
                (
                    removed + seq![ActionView::UnregisterIgnore { path: dest }],
                    Err(InstallErrorView::SourceMissing { path: src }),
                )
            } else if !spec_is_complete(ssnap) {
                (
                    removed + seq![ActionView::UnregisterIgnore { path: dest }],
                    Err(InstallErrorView::SourceIncomplete { path: src }),
                )
            } else if c3 {
                (
                    removed + seq![ActionView::UnregisterIgnore { path: dest }],
                    Err(InstallErrorView::Cancelled),
                )
            } else {
                (
                    removed + seq![
                        ActionView::CopyDir { from: src, to: dest },
                        ActionView::VerifyComplete { path: dest },
                        ActionView::WriteMarker { dir: dest, mod_id },
                        ActionView::UnregisterIgnore { path: dest },
                    ],
                    Ok(dest),
                )
            }
        }
    }
}

/// The full plan of one installation: the steps to perform and the outcome
/// to report, as a function of everything the installer was told.
pub open spec fn spec_update_plan(
    mod_id: Seq<char>,
    mod_path: Seq<char>,
    msnap: FolderSnapshot,
    download_path: Seq<char>,
    fsnap: FolderSnapshot,
    mods_path: Seq<char>,
    fs: Seq<crate::naming::FolderView>,
    existing: Option<Seq<char>>,
    create_backup: bool,
    backup_dir: Option<Seq<char>>,
    title: Option<Seq<char>>,
    force: Option<bool>,
    src_pkg: Option<Seq<char>>,
    c1: bool,
    c2: bool,
    c3: bool,
) -> (Seq<ActionView>, Result<Seq<char>, InstallErrorView>) {
    match spec_resolve_folder_name(mod_id, existing, title, src_pkg, fs, force) {
        Err(fname) => (
            Seq::empty(),
            Err(InstallErrorView::CorruptedModConflict { folder_name: fname, mod_id }),
        ),
        Ok(name) => spec_plan_steps(
            mod_id,
            mod_path,
            msnap,
            download_path,
            fsnap,
            mods_path,
            name,
            first_named(fs, name) is Some,
            create_backup,
            backup_dir,
            c1,
            c2,
            c3,
        ),
    }
}

impl ModUpdater {
    /// The sanitised, filesystem-safe form of a name.
    pub fn sanitize_folder_name(name: &str) -> (r: String)
        ensures
            r@ == spec_sanitize(name@),
    {
        crate::naming::sanitize_name(name)
    }

    /// Whether a folder is a corrupted item: present as a directory but
    /// missing its manifest directory or manifest file.
    pub fn is_mod_corrupted(snapshot: &FolderSnapshot) -> (r: bool)
        ensures
            r == spec_is_corrupted(*snapshot),
    {
        if !snapshot.exists || !snapshot.is_dir {
            return false;
        }
        if !snapshot.has_about_dir {
            return true;
        }
        if !snapshot.has_about_xml {
            return true;
        }
        false
    }

    /// Whether a folder is a structurally complete item: present, with
    /// content and with its manifest directory.
    pub fn verify_mod_complete(snapshot: &FolderSnapshot) -> (r: bool)
        ensures
            r == spec_is_complete(*snapshot),
    {
        snapshot.exists && snapshot.is_dir && snapshot.has_entries && snapshot.has_about_dir
    }

    /// Resolve the destination folder name for one item, as
    /// `spec_resolve_folder_name` describes.
    pub fn resolve_folder_name(
        mod_id: &str,
        existing_folder_name: Option<&String>,
        mod_title: Option<&String>,
        source_package_id: Option<&String>,
        folders: &Vec<DestFolder>,
        force_overwrite_corrupted: Option<bool>,
    ) -> (r: Result<String, InstallError>)
        ensures
            ({
                let spec_r = spec_resolve_folder_name(
                    mod_id@,
                    match existing_folder_name {
                        Some(n) => Some(n@),
                        None => None,
                    },
                    match mod_title {
                        Some(t) => Some(t@),
                        None => None,
                    },
                    match source_package_id {
                        Some(p) => Some(p@),
                        None => None,
                    },
                    folder_views(folders@),
                    force_overwrite_corrupted,
                );
                match r {
                    Ok(name) => spec_r is Ok && name@ == spec_r->Ok_0,
                    Err(e) => spec_r is Err && (e@ matches InstallErrorView::CorruptedModConflict {
                        folder_name,
                        mod_id: m,
                    } && folder_name == spec_r->Err_0 && m == mod_id@),
                }
            }),
    {
        let ghost fs = folder_views(folders@);
        if let Some(name) = existing_folder_name {
            return Ok(name.clone());
        }
        let found = crate::naming::find_folder_with_mod_id(folders, mod_id);
        if let Some(i) = found {
            return Ok(folders[i].name.clone());
        }
        let base = match mod_title {
            Some(t) => Self::sanitize_folder_name(t.as_str()),
            None => Self::sanitize_folder_name(mod_id),
        };
        let named = crate::naming::find_folder_named(folders, base.as_str());
        match named {
            None => Ok(base),
            Some(i) => {
                if folders[i].corrupted {
                    match force_overwrite_corrupted {
                        None => Err(
                            InstallError::CorruptedModConflict {
                                folder_name: base,
                                mod_id: String::from_str(mod_id),
                            },
                        ),
                        Some(true) => Ok(base),
                        Some(false) => Ok(
                            crate::naming::resolve_suffixed_name(
                                base.as_str(),
                                folders,
                                source_package_id,
                                false,
                                mod_id,
                            ),
                        ),
                    }
                } else {
                    match (source_package_id, &folders[i].package_id) {
                        (Some(s), Some(e)) => {
                            if crate::strings::str_eq(s.as_str(), e.as_str()) {
                                Ok(base)
                            } else {
                                Ok(
                                    crate::naming::resolve_suffixed_name(
                                        base.as_str(),
                                        folders,
                                        source_package_id,
                                        true,
                                        mod_id,
                                    ),
                                )
                            }
                        },
                        (Some(_), None) => Ok(
                            crate::naming::resolve_suffixed_name(
                                base.as_str(),
                                folders,
                                source_package_id,
                                false,
                                mod_id,
                            ),
                        ),
                        (None, Some(_)) => Ok(
                            crate::naming::resolve_suffixed_name(
                                base.as_str(),
                                folders,
                                source_package_id,
                                false,
                                mod_id,
                            ),
                        ),
                        (None, None) => {
                            let different_id = match &folders[i].mod_id {
                                Some(m) => !crate::strings::str_eq(m.as_str(), mod_id),
                                None => false,
                            };
                            if different_id {
                                let mut name = base;
                                name.append(" (");
                                name.append(mod_id);
                                name.append(")");
                                proof {
                                    reveal_strlit(" (");
                                    reveal_strlit(")");
                                }
                                Ok(name)
                            } else {
                                Ok(base)
                            }
                        },
                    }
                }
            },
        }
    }
}

impl ModUpdater {
    /// Plan the steps that follow name resolution, as `spec_plan_steps`
    /// describes.
    #[verifier::rlimit(100)]
    fn plan_install_steps(
        mod_id: &str,
        mod_path: &str,
        mod_path_snapshot: &FolderSnapshot,
        download_path: &str,
        fallback_snapshot: &FolderSnapshot,
        mods_path: &str,
        name: String,
        dest_exists: bool,
        create_backup: bool,
        backup_directory: Option<&String>,
        cancelled_before_backup: bool,
        cancelled_before_remove: bool,
        cancelled_before_copy: bool,
    ) -> (r: (Vec<InstallAction>, Result<String, InstallError>))
        requires
            match backup_directory {
                Some(b) => b@ != mods_path@,
                None => true,
            },
        ensures
            ({
                let plan = spec_plan_steps(
                    mod_id@,
                    mod_path@,
                    *mod_path_snapshot,
                    download_path@,
                    *fallback_snapshot,
                    mods_path@,
                    name@,
                    dest_exists,
                    create_backup,
                    match backup_directory {
                        Some(b) => Some(b@),
                        None => None,
                    },
                    cancelled_before_backup,
                    cancelled_before_remove,
                    cancelled_before_copy,
                );
                let dest = spec_join(mods_path@, name@);
                &&& action_views(r.0@) == plan.0
                &&& (match r.1 {
                    Ok(p) => plan.1 is Ok && p@ == plan.1->Ok_0,
                    Err(e) => plan.1 is Err && e@ == plan.1->Err_0,
                })
                &&& well_bracketed(plan.0, dest)
                &&& (has_install_copy(plan.0, dest) <==> plan.1 is Ok)
            }),
    {
        let dest = crate::paths::path_join(mods_path, name.as_str());
        let ghost destv = dest@;
        let ghost backup_opt: Option<Seq<char>> = match backup_directory {
            Some(b) => Some(b@),
            None => None,
        };
        let ghost pre_seg = seq![ActionView::EnsureDirExists { path: mods_path@ }];
        let ghost with_backup_seg = if create_backup && backup_opt is Some {
            pre_seg + seq![
                ActionView::EnsureDirExists { path: backup_opt->0 },
                ActionView::RemoveDirAllIfPresent { path: spec_join(backup_opt->0, name@) },
            ] + if dest_exists {
                seq![ActionView::CopyDir { from: dest@, to: spec_join(backup_opt->0, name@) }]
            } else {
                Seq::<ActionView>::empty()
            }
        } else {
            pre_seg
        };
        let ghost reg_seg = with_backup_seg + seq![
            ActionView::RegisterIgnore { path: dest@ },
            ActionView::SleepMillis { millis: 10 },
        ];
        let ghost removed_seg = reg_seg + if dest_exists {
            seq![ActionView::RemoveDirWithRetry { path: dest@, attempts: 3, delay_ms: 200 }]
        } else {
            Seq::<ActionView>::empty()
        };
        let mut acts: Vec<InstallAction> = Vec::new();
        let ghost mut views = action_views(acts@);
        proof {
            assert(views =~= Seq::<ActionView>::empty());
        }
        // The destination tree itself.
        acts.push(InstallAction::EnsureDirExists { path: String::from_str(mods_path) });
        proof {
            let a = ActionView::EnsureDirExists { path: mods_path@ };
            assert(action_views(acts@) =~= views.push(a));
            lemma_scan_push(views, a, destv, false);
            lemma_install_copy_push(views, a, destv);
            views = action_views(acts@);
        }
        if create_backup && cancelled_before_backup {
            proof {
                assert(views =~= pre_seg);
            }
            return (acts, Err(InstallError::Cancelled));
        }
        // Optional backup of the current destination.
        if let Some(bdir) = backup_directory {
            if create_backup {
                let bpath = crate::paths::path_join(bdir.as_str(), name.as_str());
                proof {
                    crate::paths::lemma_join_injective_base(bdir@, mods_path@, name@);
                    assert(bpath@ != destv);
                }
                acts.push(InstallAction::EnsureDirExists { path: bdir.clone() });
                proof {
                    let a = ActionView::EnsureDirExists { path: bdir@ };
                    assert(action_views(acts@) =~= views.push(a));
                    lemma_scan_push(views, a, destv, false);
                    lemma_install_copy_push(views, a, destv);
                    views = action_views(acts@);
                }
                acts.push(InstallAction::RemoveDirAllIfPresent { path: bpath.clone() });
                proof {
                    let a = ActionView::RemoveDirAllIfPresent { path: bpath@ };
                    assert(action_views(acts@) =~= views.push(a));
                    lemma_scan_push(views, a, destv, false);
                    lemma_install_copy_push(views, a, destv);
                    views = action_views(acts@);
                }
                if dest_exists {
                    acts.push(InstallAction::CopyDir { from: dest.clone(), to: bpath });
                    proof {
                        let a = ActionView::CopyDir { from: destv, to: spec_join(backup_opt->0, name@) };
                        assert(action_views(acts@) =~= views.push(a));
                        lemma_scan_push(views, a, destv, false);
                        lemma_install_copy_push(views, a, destv);
                        views = action_views(acts@);
                    }
                }
            }
        }
        proof {
            assert(views =~= with_backup_seg);
        }
        // Shield the destination from the observer while it is mutated.
        acts.push(InstallAction::RegisterIgnore { path: dest.clone() });
        proof {
            let a = ActionView::RegisterIgnore { path: destv };
            assert(action_views(acts@) =~= views.push(a));
            lemma_scan_push(views, a, destv, false);
            lemma_install_copy_push(views, a, destv);
            views = action_views(acts@);
        }
        acts.push(InstallAction::SleepMillis { millis: 10 });
        proof {
            let a = ActionView::SleepMillis { millis: 10 };
            assert(action_views(acts@) =~= views.push(a));
            lemma_scan_push(views, a, destv, true);
            lemma_install_copy_push(views, a, destv);
            views = action_views(acts@);
            assert(views =~= reg_seg);
        }
        if dest_exists && cancelled_before_remove {
            acts.push(InstallAction::UnregisterIgnore { path: dest });
            proof {
                let a = ActionView::UnregisterIgnore { path: destv };
                assert(action_views(acts@) =~= views.push(a));
                lemma_scan_push(views, a, destv, true);
                lemma_install_copy_push(views, a, destv);
                assert(action_views(acts@) =~= reg_seg + seq![
                    ActionView::UnregisterIgnore { path: destv },
                ]);
            }
            return (acts, Err(InstallError::Cancelled));
        }
        if dest_exists {
            acts.push(
                InstallAction::RemoveDirWithRetry {
                    path: dest.clone(),
                    attempts: 3,
                    delay_ms: 200,
                },
            );
            proof {
                let a = ActionView::RemoveDirWithRetry { path: destv, attempts: 3, delay_ms: 200 };
                assert(action_views(acts@) =~= views.push(a));
                lemma_scan_push(views, a, destv, true);
                lemma_install_copy_push(views, a, destv);
                views = action_views(acts@);
            }
        }
        proof {
            assert(views =~= removed_seg);
        }
        // Choose and check the source tree.
        let use_primary = mod_path_snapshot.exists && mod_path_snapshot.is_dir;
        let src = if use_primary {
            String::from_str(mod_path)
        } else {
            crate::paths::path_join(download_path, mod_id)
        };
        let source_ok = if use_primary {
            true
        } else {
            fallback_snapshot.exists && fallback_snapshot.is_dir
        };
        if !source_ok {
            acts.push(InstallAction::UnregisterIgnore { path: dest });
            proof {
                let a = ActionView::UnregisterIgnore { path: destv };
                assert(action_views(acts@) =~= views.push(a));
                lemma_scan_push(views, a, destv, true);
                lemma_install_copy_push(views, a, destv);
                assert(action_views(acts@) =~= removed_seg + seq![
                    ActionView::UnregisterIgnore { path: destv },
                ]);
            }
            return (acts, Err(InstallError::SourceMissing { path: src }));
        }
        let source_complete = if use_primary {
            Self::verify_mod_complete(mod_path_snapshot)
        } else {
            Self::verify_mod_complete(fallback_snapshot)
        };
        if !source_complete {
            acts.push(InstallAction::UnregisterIgnore { path: dest });
            proof {
                let a = ActionView::UnregisterIgnore { path: destv };
                assert(action_views(acts@) =~= views.push(a));
                lemma_scan_push(views, a, destv, true);
                lemma_install_copy_push(views, a, destv);
                assert(action_views(acts@) =~= removed_seg + seq![
                    ActionView::UnregisterIgnore { path: destv },
                ]);
            }
            return (acts, Err(InstallError::SourceIncomplete { path: src }));
        }
        if cancelled_before_copy {
            acts.push(InstallAction::UnregisterIgnore { path: dest });
            proof {
                let a = ActionView::UnregisterIgnore { path: destv };
                assert(action_views(acts@) =~= views.push(a));
                lemma_scan_push(views, a, destv, true);
                lemma_install_copy_push(views, a, destv);
                assert(action_views(acts@) =~= removed_seg + seq![
                    ActionView::UnregisterIgnore { path: destv },
                ]);
            }
            return (acts, Err(InstallError::Cancelled));
        }
        // Install, verify, mark, release.
        let ghost srcv = if use_primary {
            mod_path@
        } else {
            spec_join(download_path@, mod_id@)
        };
        acts.push(InstallAction::CopyDir { from: src, to: dest.clone() });
        proof {
            let a = ActionView::CopyDir { from: srcv, to: destv };
            assert(action_views(acts@) =~= views.push(a));
            lemma_scan_push(views, a, destv, true);
            lemma_install_copy_push(views, a, destv);
            views = action_views(acts@);
        }
        acts.push(InstallAction::VerifyComplete { path: dest.clone() });
        proof {
            let a = ActionView::VerifyComplete { path: destv };
            assert(action_views(acts@) =~= views.push(a));
            lemma_scan_push(views, a, destv, true);
            lemma_install_copy_push(views, a, destv);
            views = action_views(acts@);
        }
        acts.push(
            InstallAction::WriteMarker { dir: dest.clone(), mod_id: String::from_str(mod_id) },
        );
        proof {
            let a = ActionView::WriteMarker { dir: destv, mod_id: mod_id@ };
            assert(action_views(acts@) =~= views.push(a));
            lemma_scan_push(views, a, destv, true);
            lemma_install_copy_push(views, a, destv);
            views = action_views(acts@);
        }
        acts.push(InstallAction::UnregisterIgnore { path: dest.clone() });
        proof {
            let a = ActionView::UnregisterIgnore { path: destv };
            assert(action_views(acts@) =~= views.push(a));
            lemma_scan_push(views, a, destv, true);
            lemma_install_copy_push(views, a, destv);
            assert(action_views(acts@) =~= removed_seg + seq![
                ActionView::CopyDir { from: srcv, to: destv },
                ActionView::VerifyComplete { path: destv },
                ActionView::WriteMarker { dir: destv, mod_id: mod_id@ },
                ActionView::UnregisterIgnore { path: destv },
            ]);
        }
        (acts, Ok(dest))
    }

    /// Plan the installation of one fetched item, as `spec_update_plan`
    /// describes: resolve the destination name, then back up, clear and
    /// replace the destination, verify it and write its id marker — or
    /// stop with the error to report.  The cancellation flag is sampled at
    /// the three safe points, in order, and never goes back from set to
    /// clear.  Every plan releases the observer registration it takes, as
    /// its final step; a plan that reports an error never performs the
    /// installing copy.
    pub fn update_mod(
        &self,
        mod_id: &str,
        mod_path: &str,
        mod_path_snapshot: &FolderSnapshot,
        download_path: &str,
        fallback_snapshot: &FolderSnapshot,
        mods_path: &str,
        folders: &Vec<DestFolder>,
        existing_folder_name: Option<&String>,
        create_backup: bool,
        backup_directory: Option<&String>,
        mod_title: Option<&String>,
        force_overwrite_corrupted: Option<bool>,
        source_package_id: Option<&String>,
        cancelled_before_backup: bool,
        cancelled_before_remove: bool,
        cancelled_before_copy: bool,
    ) -> (r: (Vec<InstallAction>, Result<String, InstallError>))
        requires
            cancelled_before_backup ==> cancelled_before_remove,
            cancelled_before_remove ==> cancelled_before_copy,
            match backup_directory {
                Some(b) => b@ != mods_path@,
                None => true,
            },
        ensures
            ({
                let plan = spec_update_plan(
                    mod_id@,
                    mod_path@,
                    *mod_path_snapshot,
                    download_path@,
                    *fallback_snapshot,
                    mods_path@,
                    folder_views(folders@),
                    match existing_folder_name {
                        Some(n) => Some(n@),
                        None => None,
                    },
                    create_backup,
                    match backup_directory {
                        Some(b) => Some(b@),
                        None => None,
                    },
                    match mod_title {
                        Some(t) => Some(t@),
                        None => None,
                    },
                    force_overwrite_corrupted,
                    match source_package_id {
                        Some(p) => Some(p@),
                        None => None,
                    },
                    cancelled_before_backup,
                    cancelled_before_remove,
                    cancelled_before_copy,
                );
                let resolved = spec_resolve_folder_name(
                    mod_id@,
                    match existing_folder_name {
                        Some(n) => Some(n@),
                        None => None,
                    },
                    match mod_title {
                        Some(t) => Some(t@),
                        None => None,
                    },
                    match source_package_id {
                        Some(p) => Some(p@),
                        None => None,
                    },
                    folder_views(folders@),
                    force_overwrite_corrupted,
                );
                &&& action_views(r.0@) == plan.0
                &&& (match r.1 {
                    Ok(p) => plan.1 is Ok && p@ == plan.1->Ok_0,
                    Err(e) => plan.1 is Err && e@ == plan.1->Err_0,
                })
                &&& (match resolved {
                    Ok(name) => well_bracketed(plan.0, spec_join(mods_path@, name)) && (
                    has_install_copy(plan.0, spec_join(mods_path@, name)) <==> plan.1 is Ok),
                    Err(_) => plan.0.len() == 0,
                })
            }),
    {
        let resolved = Self::resolve_folder_name(
            mod_id,
            existing_folder_name,
            mod_title,
            source_package_id,
            folders,
            force_overwrite_corrupted,
        );
        let name = match resolved {
            Err(e) => {
                let acts: Vec<InstallAction> = Vec::new();
                proof {
                    assert(action_views(acts@) =~= Seq::<ActionView>::empty());
                }
                return (acts, Err(e));
            },
            Ok(name) => name,
        };
        let dest_exists = crate::naming::find_folder_named(folders, name.as_str()).is_some();
        Self::plan_install_steps(
            mod_id,
            mod_path,
            mod_path_snapshot,
            download_path,
            fallback_snapshot,
            mods_path,
            name,
            dest_exists,
            create_backup,
            backup_directory,
            cancelled_before_backup,
            cancelled_before_remove,
            cancelled_before_copy,
        )
    }
}

/// Whether the id marker file must be created or corrected: only a marker
/// that already reads exactly as the item id (ignoring surrounding
/// whitespace) is left alone.
pub fn marker_needs_write(existing_content: Option<&String>, mod_id: &str) -> (r: bool)
    ensures
        r == !(match existing_content {
            Some(c) => crate::strings::spec_trim_ws(c@) == mod_id@,
            None => false,
        }),
{
    match existing_content {
        Some(c) => {
            let trimmed = crate::strings::trim_ws_string(c.as_str());
            !crate::strings::str_eq(trimmed.as_str(), mod_id)
        },
        None => true,
    }
}

/// The item id recorded in a marker file's content: the content without
/// surrounding whitespace, or nothing when that leaves nothing.
pub fn published_id_from_content(content: &str) -> (r: Option<String>)
    ensures
        match r {
            Some(id) => crate::strings::spec_trim_ws(content@).len() > 0 && id@
                == crate::strings::spec_trim_ws(content@),
            None => crate::strings::spec_trim_ws(content@).len() == 0,
        },
{
    let trimmed = crate::strings::trim_ws_string(content);
    if trimmed.unicode_len() == 0 {
        None
    } else {
        Some(trimmed)
    }
}

} // verus!
