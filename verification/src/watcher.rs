//! Decisions of the passive filesystem observer.
//!
//! The observer itself lives in the driver; what is decided here is which
//! known item a removal event refers to.  A removed folder may be reported
//! under a different spelling of its path (symlinks, separators), so the
//! lookup tries an exact match first and falls back to matching the final
//! component or the separator-normalised path.

use vstd::prelude::*;
use crate::paths::spec_basename;
use crate::strings::str_eq;

verus! {

/// The kinds of filesystem event the observer receives.
#[derive(Debug, PartialEq, Eq, Structural)]
pub enum FsEventKind {
    /// A folder was created.
    Create,
    /// A folder was removed.
    Remove,
    /// A folder was renamed away.
    RenameFrom,
    /// A folder was renamed into place.
    RenameTo,
    /// Some other modification under a folder.
    OtherModify,
    /// Anything else.
    Other,
}

/// What the observer does with one event.
#[derive(Debug, PartialEq, Eq, Structural)]
pub enum WatcherAction {
    /// The folder may be a newly arrived item: examine it.
    CheckFolder,
    /// A known item may have gone: look it up and report its removal.
    LookupRemoval,
    /// The folder may have been restored: examine it only if it is not
    /// already known.
    CheckIfUnknown,
    /// The folder may have just become an item: examine it only if it was
    /// pending.
    CheckIfPending,
    /// Nothing to do.
    Nothing,
}

/// Decide what one event kind asks of the observer.
pub fn classify_fs_event(kind: &FsEventKind) -> (r: WatcherAction)
    ensures
        r == match kind {
            FsEventKind::Create => WatcherAction::CheckFolder,
            FsEventKind::Remove => WatcherAction::LookupRemoval,
            FsEventKind::RenameFrom => WatcherAction::LookupRemoval,
            FsEventKind::RenameTo => WatcherAction::CheckIfUnknown,
            FsEventKind::OtherModify => WatcherAction::CheckIfPending,
            FsEventKind::Other => WatcherAction::Nothing,
        },
{
    match kind {
        FsEventKind::Create => WatcherAction::CheckFolder,
        FsEventKind::Remove => WatcherAction::LookupRemoval,
        FsEventKind::RenameFrom => WatcherAction::LookupRemoval,
        FsEventKind::RenameTo => WatcherAction::CheckIfUnknown,
        FsEventKind::OtherModify => WatcherAction::CheckIfPending,
        FsEventKind::Other => WatcherAction::Nothing,
    }
}

/// `s` with every backslash separator turned into a forward slash.
pub open spec fn normalize_seps(s: Seq<char>) -> Seq<char> {
    Seq::new(
        s.len(),
        |i: int|
            if s[i] == '\\' {
                '/'
            } else {
                s[i]
            },
    )
}

fn normalize_path(p: &str) -> (r: Vec<char>)
    ensures
        r@ == normalize_seps(p@),
{
    let n = p.unicode_len();
    let mut r: Vec<char> = Vec::new();
    let mut i: usize = 0;
    while i < n
        invariant
            n == p@.len(),
            i <= n,
            r@.len() == i,
            forall|j: int| 0 <= j < i ==> #[trigger] r@[j] == normalize_seps(p@)[j],
        decreases n - i,
    {
        let c = p.get_char(i);
        if c == '\\' {
            r.push('/');
        } else {
            r.push(c);
        }
        i = i + 1;
    }
    proof {
        assert(r@ =~= normalize_seps(p@));
    }
    r
}

/// Whether a stored entry matches a removal event's path: exactly, by
/// final component, or with separators normalised.
pub open spec fn spec_removal_match(stored: Seq<char>, event: Seq<char>) -> bool {
    stored == event || spec_basename(stored) == spec_basename(event) || normalize_seps(stored)
        == normalize_seps(event)
}

fn removal_match(stored: &str, event: &str) -> (r: bool)
    ensures
        r == spec_removal_match(stored@, event@),
{
    if str_eq(stored, event) {
        return true;
    }
    let sb = crate::paths::extract_folder_name(stored);
    let eb = crate::paths::extract_folder_name(event);
    let name_match: bool = match (sb, eb) {
        (Ok(a), Ok(b)) => str_eq(a.as_str(), b.as_str()),
        (Err(_), Err(_)) => {
            proof {
                assert(spec_basename(stored@) =~= spec_basename(event@));
            }
            true
        },
        _ => false,
    };
    proof {
        assert(name_match == (spec_basename(stored@) == spec_basename(event@)));
    }
    if name_match {
        return true;
    }
    let sn = normalize_path(stored);
    let en = normalize_path(event);
    let n = sn.len();
    if n != en.len() {
        proof {
            assert(normalize_seps(stored@).len() != normalize_seps(event@).len());
        }
        return false;
    }
    let mut i: usize = 0;
    while i < n
        invariant
            n == sn@.len(),
            n == en@.len(),
            sn@ == normalize_seps(stored@),
            en@ == normalize_seps(event@),
            stored@ != event@,
            spec_basename(stored@) != spec_basename(event@),
            i <= n,
            forall|j: int| 0 <= j < i ==> sn@[j] == en@[j],
        decreases n - i,
    {
        if sn[i] != en[i] {
            proof {
                assert(normalize_seps(stored@)[i as int] != normalize_seps(event@)[i as int]);
            }
            return false;
        }
        i = i + 1;
    }
    proof {
        assert(sn@ =~= en@);
    }
    true
}

/// The first stored (path, item id) entry a removal event refers to:
/// first by exact path, then by final component or normalised path.
pub open spec fn spec_removal_lookup(
    known: Seq<(Seq<char>, Seq<char>)>,
    event: Seq<char>,
) -> Option<(Seq<char>, Seq<char>)> {
    if (exists|i: int| 0 <= i < known.len() && (#[trigger] known[i]).0 == event) {
        first_exact(known, event)
    } else {
        first_loose(known, event)
    }
}

/// The first entry whose path equals `event`.
pub open spec fn first_exact(known: Seq<(Seq<char>, Seq<char>)>, event: Seq<char>) -> Option<
    (Seq<char>, Seq<char>),
>
    decreases known.len(),
{
    if known.len() == 0 {
        None
    } else if known[0].0 == event {
        Some(known[0])
    } else {
        first_exact(known.drop_first(), event)
    }
}

/// The first entry whose path matches `event` loosely.
pub open spec fn first_loose(known: Seq<(Seq<char>, Seq<char>)>, event: Seq<char>) -> Option<
    (Seq<char>, Seq<char>),
>
    decreases known.len(),
{
    if known.len() == 0 {
        None
    } else if spec_removal_match(known[0].0, event) {
        Some(known[0])
    } else {
        first_loose(known.drop_first(), event)
    }
}

/// Find the known item a removal event refers to.
pub fn removal_lookup(known: &Vec<(String, String)>, event_path: &str) -> (r: Option<usize>)
    ensures
        match r {
            Some(i) => i < known@.len() && spec_removal_lookup(known.deep_view(), event_path@)
                == Some(known.deep_view()[i as int]),
            None => spec_removal_lookup(known.deep_view(), event_path@) is None,
        },
{
    let ghost kv = known.deep_view();
    let n = known.len();
    // Exact path first.
    let mut i: usize = 0;
    proof {
        assert(kv.skip(0) =~= kv);
    }
    while i < n
        invariant
            n == known@.len(),
            kv == known.deep_view(),
            i <= n,
            first_exact(kv, event_path@) == first_exact(kv.skip(i as int), event_path@),
            forall|j: int| 0 <= j < i ==> (#[trigger] kv[j]).0 != event_path@,
        decreases n - i,
    {
        let ghost sk = kv.skip(i as int);
        proof {
            assert(sk[0] == kv[i as int]);
            assert(sk.drop_first() =~= kv.skip(i + 1));
        }
        if str_eq(known[i].0.as_str(), event_path) {
            proof {
                assert(sk[0].0 == event_path@);
                assert(first_exact(kv, event_path@) == Some(kv[i as int]));
            }
            return Some(i);
        }
        proof {
            assert(sk[0].0 != event_path@);
        }
        i = i + 1;
    }
    proof {
        assert(kv.skip(n as int) =~= Seq::<(Seq<char>, Seq<char>)>::empty());
        assert(!(exists|j: int| 0 <= j < kv.len() && (#[trigger] kv[j]).0 == event_path@));
    }
    // Loose match second.
    let mut k: usize = 0;
    proof {
        assert(kv.skip(0) =~= kv);
    }
    while k < n
        invariant
            n == known@.len(),
            kv == known.deep_view(),
            k <= n,
            !(exists|j: int| 0 <= j < kv.len() && (#[trigger] kv[j]).0 == event_path@),
            first_loose(kv, event_path@) == first_loose(kv.skip(k as int), event_path@),
        decreases n - k,
    {
        let ghost sk = kv.skip(k as int);
        proof {
            assert(sk[0] == kv[k as int]);
            assert(sk.drop_first() =~= kv.skip(k + 1));
        }
        if removal_match(known[k].0.as_str(), event_path) {
            proof {
                assert(spec_removal_match(sk[0].0, event_path@));
                assert(first_loose(kv, event_path@) == Some(kv[k as int]));
            }
            return Some(k);
        }
        proof {
            assert(!spec_removal_match(sk[0].0, event_path@));
        }
        k = k + 1;
    }
    proof {
        assert(kv.skip(n as int) =~= Seq::<(Seq<char>, Seq<char>)>::empty());
    }
    None
}

} // verus!
