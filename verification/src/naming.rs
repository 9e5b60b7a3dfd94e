//! Destination folder names: sanitising a title into a filesystem-safe
//! name, and resolving collisions with folders already present.
//!
//! Sanitising removes filesystem-reserved and control characters, collapses
//! whitespace runs into single spaces, trims leading and trailing dots and
//! whitespace, falls back to a generic name when nothing is left, and caps
//! the length.  Collision resolution appends underscores until a free (or
//! same-content) name is found, and falls back to a name carrying the item
//! id after a fixed number of steps, so it always ends.

use vstd::prelude::*;
use crate::strings::{is_space, spec_is_space};

verus! {

/// Characters never allowed in a folder name: filesystem-reserved
/// punctuation and control characters.
pub open spec fn spec_is_illegal(c: char) -> bool {
    c == '<' || c == '>' || c == ':' || c == '"' || c == '/' || c == '\\' || c == '|' || c == '?'
        || c == '*' || (c as u32) < 32
}

/// Whether `c` may not appear in a folder name.
pub fn is_illegal(c: char) -> (r: bool)
    ensures
        r == spec_is_illegal(c),
{
    c == '<' || c == '>' || c == ':' || c == '"' || c == '/' || c == '\\' || c == '|' || c == '?'
        || c == '*' || (c as u32) < 32
}

/// `s` without its illegal characters.
pub open spec fn keep_legal(s: Seq<char>) -> Seq<char>
    decreases s.len(),
{
    if s.len() == 0 {
        Seq::empty()
    } else if spec_is_illegal(s[0]) {
        keep_legal(s.drop_first())
    } else {
        seq![s[0]] + keep_legal(s.drop_first())
    }
}

/// A non-whitespace character occurs at or after position `i`.
pub open spec fn has_nonspace_from(s: Seq<char>, i: int) -> bool {
    exists|j: int| i <= j < s.len() && !spec_is_space(s[j])
}

/// `s` from position `i` on with every whitespace run replaced by a single
/// space, no leading space (`in_word` false) and no trailing whitespace.
pub open spec fn collapse_from(s: Seq<char>, i: int, in_word: bool) -> Seq<char>
    decreases s.len() - i,
{
    if i < 0 || i >= s.len() {
        Seq::empty()
    } else if !spec_is_space(s[i]) {
        seq![s[i]] + collapse_from(s, i + 1, true)
    } else if in_word && has_nonspace_from(s, i + 1) {
        seq![' '] + collapse_from(s, i + 1, false)
    } else {
        collapse_from(s, i + 1, false)
    }
}

/// `s` with whitespace collapsed and trimmed.
pub open spec fn collapse_ws(s: Seq<char>) -> Seq<char> {
    collapse_from(s, 0, false)
}

/// Characters trimmed from the edges of a name.
pub open spec fn spec_trimmable(c: char) -> bool {
    c == '.' || spec_is_space(c)
}

/// `s` without leading dots and whitespace.
pub open spec fn trim_start(s: Seq<char>) -> Seq<char>
    decreases s.len(),
{
    if s.len() > 0 && spec_trimmable(s[0]) {
        trim_start(s.drop_first())
    } else {
        s
    }
}

/// `s` without trailing dots and whitespace.
pub open spec fn trim_end(s: Seq<char>) -> Seq<char>
    decreases s.len(),
{
    if s.len() > 0 && spec_trimmable(s.last()) {
        trim_end(s.drop_last())
    } else {
        s
    }
}

/// The sanitised form of a name: illegal characters removed, whitespace
/// collapsed, edges trimmed of dots and whitespace, a generic fallback when
/// empty, and at most two hundred characters.
pub open spec fn spec_sanitize(s: Seq<char>) -> Seq<char> {
    let t = trim_end(trim_start(collapse_ws(keep_legal(s))));
    if t.len() == 0 {
        "Mod"@
    } else if t.len() > 200 {
        trim_end(t.take(200))
    } else {
        t
    }
}

fn has_nonspace_after(cs: &Vec<char>, i: usize) -> (r: bool)
    ensures
        r == has_nonspace_from(cs@, i as int),
{
    let n = cs.len();
    let mut j: usize = i;
    while j < n
        invariant
            n == cs@.len(),
            i <= j,
            j <= n || (i > n && j == i),
            forall|t: int| i <= t < j ==> spec_is_space(cs@[t]),
        decreases n - j,
    {
        if !is_space(cs[j]) {
            return true;
        }
        j = j + 1;
    }
    false
}

fn filter_illegal_chars(cs: &Vec<char>) -> (r: Vec<char>)
    ensures
        r@ == keep_legal(cs@),
{
    let n = cs.len();
    let mut out: Vec<char> = Vec::new();
    let mut i: usize = 0;
    proof {
        assert(cs@.skip(0) =~= cs@);
    }
    while i < n
        invariant
            n == cs@.len(),
            i <= n,
            keep_legal(cs@) == out@ + keep_legal(cs@.skip(i as int)),
        decreases n - i,
    {
        let ghost sk = cs@.skip(i as int);
        proof {
            assert(sk[0] == cs@[i as int]);
            assert(sk.drop_first() =~= cs@.skip(i + 1));
        }
        if !is_illegal(cs[i]) {
            let ghost prev = out@;
            out.push(cs[i]);
            proof {
                assert(keep_legal(sk) == seq![cs@[i as int]] + keep_legal(cs@.skip(i + 1)));
                assert(prev + keep_legal(sk) =~= out@ + keep_legal(cs@.skip(i + 1)));
            }
        } else {
            proof {
                assert(keep_legal(sk) == keep_legal(cs@.skip(i + 1)));
            }
        }
        i = i + 1;
    }
    proof {
        assert(cs@.skip(n as int) =~= Seq::<char>::empty());
        assert(keep_legal(Seq::<char>::empty()) =~= Seq::<char>::empty());
        assert(out@ + keep_legal(cs@.skip(n as int)) =~= out@);
    }
    out
}

fn collapse_ws_chars(cs: &Vec<char>) -> (r: Vec<char>)
    ensures
        r@ == collapse_ws(cs@),
{
    let n = cs.len();
    let mut out: Vec<char> = Vec::new();
    let mut in_word = false;
    let mut i: usize = 0;
    while i < n
        invariant
            n == cs@.len(),
            i <= n,
            collapse_ws(cs@) == out@ + collapse_from(cs@, i as int, in_word),
        decreases n - i,
    {
        let ghost prev = out@;
        let ghost w = in_word;
        if !is_space(cs[i]) {
            out.push(cs[i]);
            in_word = true;
            proof {
                assert(collapse_from(cs@, i as int, w) == seq![cs@[i as int]] + collapse_from(
                    cs@,
                    i + 1,
                    true,
                ));
                assert(prev + collapse_from(cs@, i as int, w) =~= out@ + collapse_from(
                    cs@,
                    i + 1,
                    true,
                ));
            }
        } else {
            let follows = has_nonspace_after(cs, i + 1);
            if in_word && follows {
                out.push(' ');
                proof {
                    assert(collapse_from(cs@, i as int, w) == seq![' '] + collapse_from(
                        cs@,
                        i + 1,
                        false,
                    ));
                    assert(prev + collapse_from(cs@, i as int, w) =~= out@ + collapse_from(
                        cs@,
                        i + 1,
                        false,
                    ));
                }
            } else {
                proof {
                    assert(collapse_from(cs@, i as int, w) == collapse_from(cs@, i + 1, false));
                }
            }
            in_word = false;
        }
        i = i + 1;
    }
    proof {
        assert(collapse_from(cs@, n as int, in_word) =~= Seq::<char>::empty());
        assert(out@ + collapse_from(cs@, n as int, in_word) =~= out@);
    }
    out
}

/// Drop trailing trimmable characters.
fn trim_end_chars(cs: Vec<char>) -> (r: Vec<char>)
    ensures
        r@ == trim_end(cs@),
{
    let ghost orig = cs@;
    let mut cs = cs;
    while cs.len() > 0 && (cs[cs.len() - 1] == '.' || is_space(cs[cs.len() - 1]))
        invariant
            trim_end(orig) == trim_end(cs@),
        decreases cs.len(),
    {
        let ghost before = cs@;
        cs.pop();
        proof {
            assert(spec_trimmable(before.last()));
            assert(trim_end(before) == trim_end(before.drop_last()));
            assert(cs@ =~= before.drop_last());
        }
    }
    proof {
        if cs@.len() > 0 {
            assert(!spec_trimmable(cs@.last()));
            assert(trim_end(cs@) == cs@);
        } else {
            assert(trim_end(cs@) == cs@);
        }
    }
    cs
}

/// Drop leading trimmable characters.
fn trim_start_chars(cs: &Vec<char>) -> (r: Vec<char>)
    ensures
        r@ == trim_start(cs@),
{
    let n = cs.len();
    let mut a: usize = 0;
    proof {
        assert(cs@.skip(0) =~= cs@);
    }
    while a < n && (cs[a] == '.' || is_space(cs[a]))
        invariant
            n == cs@.len(),
            a <= n,
            trim_start(cs@) == trim_start(cs@.skip(a as int)),
        decreases n - a,
    {
        proof {
            let sk = cs@.skip(a as int);
            assert(sk[0] == cs@[a as int]);
            assert(spec_trimmable(sk[0]));
            assert(trim_start(sk) == trim_start(sk.drop_first()));
            assert(sk.drop_first() =~= cs@.skip(a + 1));
        }
        a = a + 1;
    }
    proof {
        let sk = cs@.skip(a as int);
        if a < n {
            assert(sk[0] == cs@[a as int]);
            assert(!spec_trimmable(sk[0]));
            assert(trim_start(sk) == sk);
        } else {
            assert(sk =~= Seq::<char>::empty());
            assert(trim_start(sk) == sk);
        }
    }
    let mut out: Vec<char> = Vec::new();
    let mut k: usize = a;
    while k < n
        invariant
            n == cs@.len(),
            a <= k <= n,
            out@ == cs@.subrange(a as int, k as int),
        decreases n - k,
    {
        let ghost prev = out@;
        out.push(cs[k]);
        proof {
            assert(out@ =~= cs@.subrange(a as int, k + 1));
        }
        k = k + 1;
    }
    proof {
        assert(cs@.subrange(a as int, n as int) =~= cs@.skip(a as int));
    }
    out
}

/// The sanitised, filesystem-safe form of `name`.
pub fn sanitize_name(name: &str) -> (r: String)
    ensures
        r@ == spec_sanitize(name@),
{
    let cs = crate::strings::str_to_chars(name);
    let filtered = filter_illegal_chars(&cs);
    let collapsed = collapse_ws_chars(&filtered);
    let trimmed_front = trim_start_chars(&collapsed);
    let mut t = trim_end_chars(trimmed_front);
    if t.len() == 0 {
        let r = String::from_str("Mod");
        proof {
            assert(r@ == "Mod"@);
        }
        r
    } else if t.len() > 200 {
        t.truncate(200);
        proof {
            assert(t@ =~= trim_end(trim_start(collapse_ws(keep_legal(name@)))).take(200));
        }
        let t2 = trim_end_chars(t);
        crate::strings::chars_to_string(&t2)
    } else {
        crate::strings::chars_to_string(&t)
    }
}

/// What the installer knows of one folder already in the destination tree:
/// its name, whether its required structure is missing, and the package and
/// item identifiers read from it, when present.
pub struct DestFolder {
    pub name: String,
    pub corrupted: bool,
    pub package_id: Option<String>,
    pub mod_id: Option<String>,
}

/// The abstraction of a `DestFolder`.
pub struct FolderView {
    pub name: Seq<char>,
    pub corrupted: bool,
    pub package_id: Option<Seq<char>>,
    pub mod_id: Option<Seq<char>>,
}

impl View for DestFolder {
    type V = FolderView;

    open spec fn view(&self) -> FolderView {
        FolderView {
            name: self.name@,
            corrupted: self.corrupted,
            package_id: match self.package_id {
                Some(ref p) => Some(p@),
                None => None,
            },
            mod_id: match self.mod_id {
                Some(ref m) => Some(m@),
                None => None,
            },
        }
    }
}

/// The views of a folder listing.
pub open spec fn folder_views(s: Seq<DestFolder>) -> Seq<FolderView> {
    Seq::new(s.len(), |i: int| s[i]@)
}

/// The first folder carrying `name`, if any.
pub open spec fn first_named(fs: Seq<FolderView>, name: Seq<char>) -> Option<FolderView>
    decreases fs.len(),
{
    if fs.len() == 0 {
        None
    } else if fs[0].name == name {
        Some(fs[0])
    } else {
        first_named(fs.drop_first(), name)
    }
}

/// The first folder whose recorded item id is `mod_id`, if any.
pub open spec fn first_with_mod_id(fs: Seq<FolderView>, mod_id: Seq<char>) -> Option<FolderView>
    decreases fs.len(),
{
    if fs.len() == 0 {
        None
    } else if fs[0].mod_id == Some(mod_id) {
        Some(fs[0])
    } else {
        first_with_mod_id(fs.drop_first(), mod_id)
    }
}

/// `k` underscores.
pub open spec fn underscores(k: int) -> Seq<char>
    decreases k,
{
    if k <= 0 {
        Seq::empty()
    } else {
        underscores(k - 1).push('_')
    }
}

/// The name the suffix loop settles on, starting from `k` appended
/// underscores: the first suffixed name that no folder carries — or, when
/// `package_break` is set, whose folder carries the source's package id —
/// and a name carrying the item id once fifty suffixes have been tried.
pub open spec fn resolve_from(
    base: Seq<char>,
    k: int,
    fs: Seq<FolderView>,
    src_pkg: Option<Seq<char>>,
    package_break: bool,
    mod_id: Seq<char>,
) -> Seq<char>
    decreases 51 - k,
{
    if k > 50 || k < 1 {
        base + seq!['_'] + mod_id
    } else {
        let cand = base + underscores(k);
        match first_named(fs, cand) {
            None => cand,
            Some(f) => {
                if package_break && src_pkg is Some && f.package_id == src_pkg {
                    cand
                } else {
                    resolve_from(base, k + 1, fs, src_pkg, package_break, mod_id)
                }
            },
        }
    }
}

/// The resolved name never grows past the base by more than the bounded
/// suffix chain or the item-id fallback: the suffix loop always ends.
pub proof fn lemma_resolve_bounded(
    base: Seq<char>,
    k: int,
    fs: Seq<FolderView>,
    src_pkg: Option<Seq<char>>,
    package_break: bool,
    mod_id: Seq<char>,
)
    requires
        1 <= k <= 51,
    ensures
        resolve_from(base, k, fs, src_pkg, package_break, mod_id).len() <= base.len() + 50
            || resolve_from(base, k, fs, src_pkg, package_break, mod_id) == base + seq!['_']
            + mod_id,
    decreases 51 - k,
{
    if k > 50 {
    } else {
        lemma_underscores_len(k);
        lemma_resolve_bounded(base, k + 1, fs, src_pkg, package_break, mod_id);
    }
}

proof fn lemma_underscores_len(k: int)
    requires
        k >= 0,
    ensures
        underscores(k).len() == k,
    decreases k,
{
    if k > 0 {
        lemma_underscores_len(k - 1);
    }
}

/// The index of the first folder carrying `name`, if any.
pub fn find_folder_named(folders: &Vec<DestFolder>, name: &str) -> (r: Option<usize>)
    ensures
        match r {
            Some(i) => i < folders@.len() && first_named(folder_views(folders@), name@) == Some(
                folders@[i as int]@,
            ),
            None => first_named(folder_views(folders@), name@) is None,
        },
{
    let n = folders.len();
    let mut i: usize = 0;
    proof {
        assert(folder_views(folders@).skip(0) =~= folder_views(folders@));
    }
    while i < n
        invariant
            n == folders@.len(),
            i <= n,
            first_named(folder_views(folders@), name@) == first_named(
                folder_views(folders@).skip(i as int),
                name@,
            ),
        decreases n - i,
    {
        let ghost sk = folder_views(folders@).skip(i as int);
        proof {
            assert(sk[0] == folder_views(folders@)[i as int]);
            assert(sk.drop_first() =~= folder_views(folders@).skip(i + 1));
        }
        if crate::strings::str_eq(folders[i].name.as_str(), name) {
            proof {
                assert(sk[0].name == name@);
            }
            return Some(i);
        }
        proof {
            assert(sk[0].name != name@);
        }
        i = i + 1;
    }
    proof {
        assert(folder_views(folders@).skip(n as int) =~= Seq::<FolderView>::empty());
    }
    None
}

/// The index of the first folder recording `mod_id` as its item id.
pub fn find_folder_with_mod_id(folders: &Vec<DestFolder>, mod_id: &str) -> (r: Option<usize>)
    ensures
        match r {
            Some(i) => i < folders@.len() && first_with_mod_id(folder_views(folders@), mod_id@)
                == Some(folders@[i as int]@),
            None => first_with_mod_id(folder_views(folders@), mod_id@) is None,
        },
{
    let n = folders.len();
    let mut i: usize = 0;
    proof {
        assert(folder_views(folders@).skip(0) =~= folder_views(folders@));
    }
    while i < n
        invariant
            n == folders@.len(),
            i <= n,
            first_with_mod_id(folder_views(folders@), mod_id@) == first_with_mod_id(
                folder_views(folders@).skip(i as int),
                mod_id@,
            ),
        decreases n - i,
    {
        let ghost sk = folder_views(folders@).skip(i as int);
        proof {
            assert(sk[0] == folder_views(folders@)[i as int]);
            assert(sk.drop_first() =~= folder_views(folders@).skip(i + 1));
        }
        let matches_id = match &folders[i].mod_id {
            Some(m) => crate::strings::str_eq(m.as_str(), mod_id),
            None => false,
        };
        if matches_id {
            proof {
                assert(sk[0].mod_id == Some(mod_id@));
            }
            return Some(i);
        }
        proof {
            assert(sk[0].mod_id != Some(mod_id@));
        }
        i = i + 1;
    }
    proof {
        assert(folder_views(folders@).skip(n as int) =~= Seq::<FolderView>::empty());
    }
    None
}

/// The indices of every folder recording `mod_id` as its item id, in
/// listing order.
pub fn find_all_folders_with_mod_id(folders: &Vec<DestFolder>, mod_id: &str) -> (r: Vec<usize>)
    ensures
        forall|k: int|
            0 <= k < r@.len() ==> (#[trigger] r@[k]) < folders@.len() && folders@[r@[k] as int]@.mod_id
                == Some(mod_id@),
        forall|i: int|
            0 <= i < folders@.len() && folders@[i]@.mod_id == Some(mod_id@) ==> r@.contains(
                i as usize,
            ),
        forall|a: int, b: int| 0 <= a < b < r@.len() ==> r@[a] < r@[b],
{
    let n = folders.len();
    let mut r: Vec<usize> = Vec::new();
    let mut i: usize = 0;
    while i < n
        invariant
            n == folders@.len(),
            i <= n,
            forall|k: int|
                0 <= k < r@.len() ==> (#[trigger] r@[k]) < i && folders@[r@[k] as int]@.mod_id
                    == Some(mod_id@),
            forall|j: int|
                0 <= j < i && folders@[j]@.mod_id == Some(mod_id@) ==> r@.contains(j as usize),
            forall|a: int, b: int| 0 <= a < b < r@.len() ==> r@[a] < r@[b],
        decreases n - i,
    {
        let matches_id = match &folders[i].mod_id {
            Some(m) => crate::strings::str_eq(m.as_str(), mod_id),
            None => false,
        };
        let ghost prev = r@;
        if matches_id {
            r.push(i);
            proof {
                assert(r@ =~= prev.push(i));
                assert(r@.last() == i);
                assert forall|j: int|
                    0 <= j < i + 1 && folders@[j]@.mod_id == Some(mod_id@) implies r@.contains(
                    j as usize,
                ) by {
                    if j < i {
                        let k = choose|k: int| 0 <= k < prev.len() && prev[k] == j as usize;
                        assert(r@[k] == j as usize);
                    } else {
                        assert(r@[r@.len() - 1] == j as usize);
                    }
                }
            }
        } else {
            proof {
                assert(folders@[i as int]@.mod_id != Some(mod_id@));
            }
        }
        i = i + 1;
    }
    r
}

/// Append underscores to `base` until a usable name is found, as
/// `resolve_from` describes, starting at one underscore.
pub fn resolve_suffixed_name(
    base: &str,
    folders: &Vec<DestFolder>,
    source_package_id: Option<&String>,
    package_break: bool,
    mod_id: &str,
) -> (r: String)
    ensures
        r@ == resolve_from(
            base@,
            1,
            folder_views(folders@),
            match source_package_id {
                Some(p) => Some(p@),
                None => None,
            },
            package_break,
            mod_id@,
        ),
{
    let ghost fs = folder_views(folders@);
    let ghost srcv: Option<Seq<char>> = match source_package_id {
        Some(p) => Some(p@),
        None => None,
    };
    let mut name = String::from_str(base);
    name.append("_");
    proof {
        reveal_strlit("_");
        assert("_"@ =~= seq!['_']);
        assert(underscores(0) =~= Seq::<char>::empty());
        assert(underscores(1) =~= Seq::<char>::empty().push('_'));
        assert(name@ =~= base@ + underscores(1));
    }
    let mut k: usize = 1;
    loop
        invariant
            1 <= k <= 50,
            fs == folder_views(folders@),
            (srcv is Some) == (source_package_id is Some),
            (match source_package_id {
                Some(p) => srcv == Some(p@),
                None => srcv is None,
            }),
            name@ == base@ + underscores(k as int),
            resolve_from(base@, 1, fs, srcv, package_break, mod_id@) == resolve_from(
                base@,
                k as int,
                fs,
                srcv,
                package_break,
                mod_id@,
            ),
        decreases 50 - k,
    {
        let found = find_folder_named(folders, name.as_str());
        match found {
            None => {
                proof {
                    assert(resolve_from(base@, k as int, fs, srcv, package_break, mod_id@)
                        == name@);
                }
                return name;
            },
            Some(i) => {
                let pkg_matches = if package_break {
                    match (&folders[i].package_id, source_package_id) {
                        (Some(e), Some(s)) => crate::strings::str_eq(e.as_str(), s.as_str()),
                        _ => false,
                    }
                } else {
                    false
                };
                if pkg_matches {
                    proof {
                        assert(folders@[i as int]@.package_id == srcv);
                        assert(resolve_from(base@, k as int, fs, srcv, package_break, mod_id@)
                            == name@);
                    }
                    return name;
                }
                proof {
                    if package_break && srcv is Some {
                        assert(folders@[i as int]@.package_id != srcv);
                    }
                    assert(resolve_from(base@, k as int, fs, srcv, package_break, mod_id@)
                        == resolve_from(base@, k + 1, fs, srcv, package_break, mod_id@));
                }
                if k >= 50 {
                    let mut fallback = String::from_str(base);
                    fallback.append("_");
                    fallback.append(mod_id);
                    proof {
                        reveal_strlit("_");
                        assert("_"@ =~= seq!['_']);
                        assert(fallback@ =~= base@ + seq!['_'] + mod_id@);
                        assert(resolve_from(base@, 51, fs, srcv, package_break, mod_id@)
                            == base@ + seq!['_'] + mod_id@);
                    }
                    return fallback;
                }
                k = k + 1;
                name.append("_");
                proof {
                    reveal_strlit("_");
                    assert("_"@ =~= seq!['_']);
                    assert(underscores(k as int) == underscores(k - 1).push('_'));
                    assert(name@ =~= base@ + underscores(k as int));
                }
            },
        }
    }
}

} // verus!
