//! Backing a destination folder up and restoring it.
//!
//! `restore_backup` plans the restore of one folder from its backup; the
//! safety gates and messages are fixed here, the driver performs the
//! steps.  An abstract interpreter over plan steps gives the round-trip
//! law: backing a destination up and restoring it, with no installation
//! in between, leaves the destination tree exactly as it was.

use vstd::prelude::*;
use crate::installer::{ActionView, InstallAction, action_views, well_bracketed};
use crate::paths::{spec_basename, spec_join, spec_path_starts_with};

verus! {

/// The effect of plan steps on an abstract filesystem: a map from paths to
/// whole trees.  Copying a missing source or removing a missing path
/// changes nothing; steps that do not move trees change nothing.
pub open spec fn apply_action<T>(st: Map<Seq<char>, T>, a: ActionView) -> Map<Seq<char>, T> {
    match a {
        ActionView::RemoveDirAllIfPresent { path } => st.remove(path),
        ActionView::RemoveDirWithRetry { path, .. } => st.remove(path),
        ActionView::CopyDir { from, to } => if st.dom().contains(from) {
            st.insert(to, st[from])
        } else {
            st
        },
        _ => st,
    }
}

/// The effect of a whole plan, step by step.
pub open spec fn apply_actions<T>(st: Map<Seq<char>, T>, s: Seq<ActionView>) -> Map<Seq<char>, T>
    decreases s.len(),
{
    if s.len() == 0 {
        st
    } else {
        apply_actions(apply_action(st, s[0]), s.drop_first())
    }
}

/// The steps that back a destination up, as they stand in an installation
/// plan: clear the stale backup, then copy the destination over it.
pub open spec fn backup_steps(dest: Seq<char>, bpath: Seq<char>) -> Seq<ActionView> {
    seq![
        ActionView::RemoveDirAllIfPresent { path: bpath },
        ActionView::CopyDir { from: dest, to: bpath },
    ]
}

/// The destructive steps of a restore: clear the destination, copy the
/// backup over it, drop the backup.
pub open spec fn restore_steps(dest: Seq<char>, bpath: Seq<char>) -> Seq<ActionView> {
    seq![
        ActionView::RemoveDirAllIfPresent { path: dest },
        ActionView::CopyDir { from: bpath, to: dest },
        ActionView::RemoveDirAllIfPresent { path: bpath },
    ]
}

/// Backing a destination up and then restoring it, with no installation in
/// between, leaves the destination tree exactly as it was.
pub proof fn lemma_backup_then_restore<T>(st: Map<Seq<char>, T>, dest: Seq<char>, bpath: Seq<char>)
    requires
        st.dom().contains(dest),
        dest != bpath,
    ensures
        ({
            let after = apply_actions(
                apply_actions(st, backup_steps(dest, bpath)),
                restore_steps(dest, bpath),
            );
            after.dom().contains(dest) && after[dest] == st[dest]
        }),
{
    let b = backup_steps(dest, bpath);
    let r = restore_steps(dest, bpath);
    assert(b[0] == ActionView::RemoveDirAllIfPresent { path: bpath });
    assert(b.drop_first() =~= seq![ActionView::CopyDir { from: dest, to: bpath }]);
    assert(b.drop_first()[0] == ActionView::CopyDir { from: dest, to: bpath });
    assert(b.drop_first().drop_first() =~= Seq::<ActionView>::empty());
    let s1 = apply_action(st, b[0]);
    let s2 = apply_action(s1, ActionView::CopyDir { from: dest, to: bpath });
    assert(apply_actions(s2, b.drop_first().drop_first()) == s2);
    assert(apply_actions(s1, b.drop_first()) == s2);
    assert(apply_actions(st, b) == s2);
    assert(s2.dom().contains(bpath) && s2[bpath] == st[dest]);
    assert(s2.dom().contains(dest) && s2[dest] == st[dest]);
    assert(r.drop_first() =~= seq![
        ActionView::CopyDir { from: bpath, to: dest },
        ActionView::RemoveDirAllIfPresent { path: bpath },
    ]);
    assert(r.drop_first().drop_first() =~= seq![
        ActionView::RemoveDirAllIfPresent { path: bpath },
    ]);
    assert(r.drop_first().drop_first().drop_first() =~= Seq::<ActionView>::empty());
    assert(r[0] == ActionView::RemoveDirAllIfPresent { path: dest });
    assert(r.drop_first()[0] == ActionView::CopyDir { from: bpath, to: dest });
    assert(r.drop_first().drop_first()[0] == ActionView::RemoveDirAllIfPresent { path: bpath });
    let t1 = apply_action(s2, ActionView::RemoveDirAllIfPresent { path: dest });
    let t2 = apply_action(t1, ActionView::CopyDir { from: bpath, to: dest });
    let t3 = apply_action(t2, ActionView::RemoveDirAllIfPresent { path: bpath });
    assert(apply_actions(t3, r.drop_first().drop_first().drop_first()) == t3);
    assert(apply_actions(t2, r.drop_first().drop_first()) == t3);
    assert(apply_actions(t1, r.drop_first()) == t3);
    assert(apply_actions(s2, r) == t3);
    assert(t1.dom().contains(bpath) && t1[bpath] == st[dest]);
    assert(t2.dom().contains(dest) && t2[dest] == st[dest]);
    assert(t3.dom().contains(dest) && t3[dest] == st[dest]);
}

/// Plan the restore of the folder at `mod_path` from its backup under
/// `backup_directory`.  Nested paths, an identical backup path, a
/// nameless path and a missing backup are rejected, each with its fixed
/// message; otherwise the plan shields the destination, performs exactly
/// the restore steps, and releases the shield last.
pub fn restore_backup(mod_path: &str, backup_directory: &str, backup_exists: bool) -> (r: Result<
    Vec<InstallAction>,
    String,
>)
    ensures
        match r {
            Ok(acts) => {
                let dest = mod_path@;
                let bpath = spec_join(backup_directory@, spec_basename(mod_path@));
                &&& !spec_path_starts_with(mod_path@, backup_directory@)
                &&& !spec_path_starts_with(backup_directory@, mod_path@)
                &&& spec_basename(mod_path@).len() > 0
                &&& bpath != dest
                &&& backup_exists
                &&& action_views(acts@) == seq![ActionView::RegisterIgnore { path: dest }]
                    + restore_steps(dest, bpath) + seq![
                    ActionView::UnregisterIgnore { path: dest },
                ]
                &&& well_bracketed(action_views(acts@), dest)
            },
            Err(e) => {
                ||| ((spec_path_starts_with(mod_path@, backup_directory@)
                    || spec_path_starts_with(backup_directory@, mod_path@)) && e@
                    == "Backup directory cannot be inside mods path or vice versa. They must be separate directories."@)
                ||| (spec_basename(mod_path@).len() == 0 && e@ == "Invalid mod path"@)
                ||| (spec_join(backup_directory@, spec_basename(mod_path@)) == mod_path@ && e@
                    == "Backup path and mod path cannot be the same. Please ensure backup directory is different from mods directory."@)
                ||| (!backup_exists && e@ == "Backup not found"@)
            },
        },
{
    if crate::paths::path_starts_with(mod_path, backup_directory) || crate::paths::path_starts_with(
        backup_directory,
        mod_path,
    ) {
        return Err(
            String::from_str(
                "Backup directory cannot be inside mods path or vice versa. They must be separate directories.",
            ),
        );
    }
    let folder_name = match crate::paths::extract_folder_name(mod_path) {
        Ok(n) => n,
        Err(e) => {
            return Err(e);
        },
    };
    let backup_path = crate::paths::path_join(backup_directory, folder_name.as_str());
    if crate::strings::str_eq(backup_path.as_str(), mod_path) {
        return Err(
            String::from_str(
                "Backup path and mod path cannot be the same. Please ensure backup directory is different from mods directory.",
            ),
        );
    }
    if !backup_exists {
        return Err(String::from_str("Backup not found"));
    }
    let dest = String::from_str(mod_path);
    let mut acts: Vec<InstallAction> = Vec::new();
    acts.push(InstallAction::RegisterIgnore { path: dest.clone() });
    acts.push(InstallAction::RemoveDirAllIfPresent { path: dest.clone() });
    acts.push(InstallAction::CopyDir { from: backup_path.clone(), to: dest.clone() });
    acts.push(InstallAction::RemoveDirAllIfPresent { path: backup_path });
    acts.push(InstallAction::UnregisterIgnore { path: dest });
    proof {
        let destv = mod_path@;
        let bpathv = spec_join(backup_directory@, spec_basename(mod_path@));
        let expect = seq![ActionView::RegisterIgnore { path: destv }] + restore_steps(
            destv,
            bpathv,
        ) + seq![ActionView::UnregisterIgnore { path: destv }];
        assert(action_views(acts@) =~= expect);
        assert(expect.drop_first() =~= restore_steps(destv, bpathv) + seq![
            ActionView::UnregisterIgnore { path: destv },
        ]);
        lemma_restore_bracketed(destv, bpathv);
    }
    Ok(acts)
}

proof fn lemma_restore_bracketed(dest: Seq<char>, bpath: Seq<char>)
    requires
        bpath != dest,
    ensures
        well_bracketed(
            seq![ActionView::RegisterIgnore { path: dest }] + restore_steps(dest, bpath) + seq![
                ActionView::UnregisterIgnore { path: dest },
            ],
            dest,
        ),
{
    let s = seq![ActionView::RegisterIgnore { path: dest }] + restore_steps(dest, bpath) + seq![
        ActionView::UnregisterIgnore { path: dest },
    ];
    assert(s.len() == 5);
    assert(s[0] == ActionView::RegisterIgnore { path: dest });
    assert(s[1] == ActionView::RemoveDirAllIfPresent { path: dest });
    assert(s[2] == ActionView::CopyDir { from: bpath, to: dest });
    assert(s[3] == ActionView::RemoveDirAllIfPresent { path: bpath });
    assert(s[4] == ActionView::UnregisterIgnore { path: dest });
    let s1 = s.drop_first();
    let s2 = s1.drop_first();
    let s3 = s2.drop_first();
    let s4 = s3.drop_first();
    let s5 = s4.drop_first();
    assert(s5 =~= Seq::<ActionView>::empty());
    assert(s4[0] == s[4]);
    assert(s3[0] == s[3]);
    assert(s2[0] == s[2]);
    assert(s1[0] == s[1]);
    assert(crate::installer::scan_registration(s5, dest, false) == Some(false));
    assert(crate::installer::scan_registration(s4, dest, true) == Some(false));
    assert(crate::installer::scan_registration(s3, dest, true) == Some(false));
    assert(crate::installer::scan_registration(s2, dest, true) == Some(false));
    assert(crate::installer::scan_registration(s1, dest, true) == Some(false));
    assert(crate::installer::scan_registration(s, dest, false) == Some(false));
}

} // verus!
