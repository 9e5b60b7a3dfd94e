//! Shared run state: the cooperative cancellation flag and the set of
//! destination paths the filesystem observer must treat as silent while
//! the installer mutates them.  An event under an ignored path — by
//! prefix — is suppressed.

use vstd::prelude::*;
use crate::strings::str_eq;
use crate::paths::spec_path_starts_with;

verus! {

/// The cancellation flag and the ignored-path set of one process.
pub struct Registry {
    cancelled: bool,
    ignored_paths: Vec<String>,
}

impl Registry {
    pub closed spec fn is_cancelled_spec(&self) -> bool {
        self.cancelled
    }

    /// The paths currently shielded from the observer.
    pub closed spec fn ignored(&self) -> Seq<Seq<char>> {
        self.ignored_paths.deep_view()
    }

    /// No path is registered twice.
    pub open spec fn wf(&self) -> bool {
        forall|i: int, j: int|
            0 <= i < j < self.ignored().len() ==> #[trigger] self.ignored()[i]
                != #[trigger] self.ignored()[j]
    }

    /// A fresh registry: not cancelled, nothing ignored.
    pub fn new() -> (r: Registry)
        ensures
            r.wf(),
            !r.is_cancelled_spec(),
            r.ignored().len() == 0,
    {
        Registry { cancelled: false, ignored_paths: Vec::new() }
    }

    /// Ask the running work to stop at its next safe point.
    pub fn request_cancel(&mut self)
        ensures
            final(self).is_cancelled_spec(),
            final(self).ignored() == old(self).ignored(),
    {
        self.cancelled = true;
    }

    /// Clear the flag at the start of a run.
    pub fn reset_cancel(&mut self)
        ensures
            !final(self).is_cancelled_spec(),
            final(self).ignored() == old(self).ignored(),
    {
        self.cancelled = false;
    }

    pub fn is_cancelled(&self) -> (r: bool)
        ensures
            r == self.is_cancelled_spec(),
    {
        self.cancelled
    }

    /// Shield `path`: afterwards it is ignored; everything already ignored
    /// stays so, and nothing else is added.
    pub fn ignore_path(&mut self, path: String)
        requires
            old(self).wf(),
        ensures
            final(self).wf(),
            final(self).is_cancelled_spec() == old(self).is_cancelled_spec(),
            final(self).ignored() == if old(self).ignored().contains(path@) {
                old(self).ignored()
            } else {
                old(self).ignored().push(path@)
            },
    {
        let n = self.ignored_paths.len();
        let mut i: usize = 0;
        while i < n
            invariant
                old(self).wf(),
                *self == *old(self),
                n == self.ignored_paths@.len(),
                i <= n,
                forall|j: int| 0 <= j < i ==> #[trigger] self.ignored()[j] != path@,
            decreases n - i,
        {
            if str_eq(self.ignored_paths[i].as_str(), path.as_str()) {
                proof {
                    assert(self.ignored()[i as int] == path@);
                }
                return ;
            }
            i = i + 1;
        }
        proof {
            assert forall|j: int| 0 <= j < self.ignored().len() implies #[trigger] self.ignored()[j]
                != path@ by {}
        }
        let ghost pv = path@;
        self.ignored_paths.push(path);
        proof {
            assert(self.ignored() =~= old(self).ignored().push(pv));
            assert forall|i2: int, j: int|
                0 <= i2 < j < self.ignored().len() implies #[trigger] self.ignored()[i2]
                != #[trigger] self.ignored()[j] by {
                if j == self.ignored().len() - 1 {
                    assert(old(self).ignored()[i2] != pv);
                }
            }
        }
    }

    /// Release `path`: afterwards it is no longer ignored; every other
    /// path keeps its entry.
    pub fn unignore_path(&mut self, path: &str)
        requires
            old(self).wf(),
        ensures
            final(self).wf(),
            final(self).is_cancelled_spec() == old(self).is_cancelled_spec(),
            !final(self).ignored().contains(path@),
            if old(self).ignored().contains(path@) {
                exists|i: int|
                    0 <= i < old(self).ignored().len() && old(self).ignored()[i] == path@
                        && final(self).ignored() == old(self).ignored().remove(i)
            } else {
                final(self).ignored() == old(self).ignored()
            },
    {
        let n = self.ignored_paths.len();
        let mut i: usize = 0;
        while i < n
            invariant
                old(self).wf(),
                *self == *old(self),
                n == self.ignored_paths@.len(),
                i <= n,
                forall|j: int| 0 <= j < i ==> #[trigger] self.ignored()[j] != path@,
            decreases n - i,
        {
            if str_eq(self.ignored_paths[i].as_str(), path) {
                proof {
                    assert(self.ignored()[i as int] == path@);
                }
                self.ignored_paths.remove(i);
                proof {
                    old(self).ignored_paths@.remove_ensures(i as int);
                    assert(self.ignored() =~= old(self).ignored().remove(i as int));
                    assert forall|j: int|
                        0 <= j < self.ignored().len() implies #[trigger] self.ignored()[j]
                        != path@ by {
                        if j < i {
                            assert(self.ignored()[j] == old(self).ignored()[j]);
                        } else {
                            assert(self.ignored()[j] == old(self).ignored()[j + 1]);
                        }
                    }
                    assert forall|a: int, b: int|
                        0 <= a < b < self.ignored().len() implies #[trigger] self.ignored()[a]
                        != #[trigger] self.ignored()[b] by {
                        let oa: int = if a < i {
                            a
                        } else {
                            a + 1
                        };
                        let ob: int = if b < i {
                            b
                        } else {
                            b + 1
                        };
                        assert(self.ignored()[a] == old(self).ignored()[oa]);
                        assert(self.ignored()[b] == old(self).ignored()[ob]);
                    }
                }
                return ;
            }
            i = i + 1;
        }
        proof {
            assert forall|j: int| 0 <= j < self.ignored().len() implies #[trigger] self.ignored()[j]
                != path@ by {}
        }
    }

    /// Whether an observer event at `path` must be suppressed: some
    /// registered entry is a path prefix of it.
    pub fn is_path_ignored(&self, path: &str) -> (r: bool)
        ensures
            r == exists|i: int|
                0 <= i < self.ignored().len() && spec_path_starts_with(
                    path@,
                    #[trigger] self.ignored()[i],
                ),
    {
        let n = self.ignored_paths.len();
        let mut i: usize = 0;
        while i < n
            invariant
                n == self.ignored_paths@.len(),
                i <= n,
                forall|j: int|
                    0 <= j < i ==> !spec_path_starts_with(path@, #[trigger] self.ignored()[j]),
            decreases n - i,
        {
            if crate::paths::path_starts_with(path, self.ignored_paths[i].as_str()) {
                proof {
                    assert(spec_path_starts_with(path@, self.ignored()[i as int]));
                }
                return true;
            }
            i = i + 1;
        }
        false
    }
}

} // verus!
