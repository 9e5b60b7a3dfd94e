//! A plain-text model of filesystem paths: joining, final components,
//! parents and prefix tests, with `/` as the separator.  The driver hands
//! real paths in and out as strings; nothing here touches the disk.

use vstd::prelude::*;

verus! {

/// `base` with `name` appended after a separator.
pub open spec fn spec_join(base: Seq<char>, name: Seq<char>) -> Seq<char> {
    base + seq!['/'] + name
}

/// Join a directory and a child name.
pub fn path_join(base: &str, name: &str) -> (r: String)
    ensures
        r@ == spec_join(base@, name@),
{
    let mut r = String::from_str(base);
    r.append("/");
    r.append(name);
    proof {
        reveal_strlit("/");
        assert("/"@ =~= seq!['/']);
        assert(r@ =~= spec_join(base@, name@));
    }
    r
}

/// `p` without its trailing separators.
pub open spec fn strip_trailing_slashes(p: Seq<char>) -> Seq<char>
    decreases p.len(),
{
    if p.len() > 0 && p.last() == '/' {
        strip_trailing_slashes(p.drop_last())
    } else {
        p
    }
}

/// The position after the last separator of `p`, or zero when none occurs.
pub open spec fn after_last_slash(p: Seq<char>) -> int
    decreases p.len(),
{
    if p.len() == 0 {
        0
    } else if p.last() == '/' {
        p.len() as int
    } else {
        after_last_slash(p.drop_last())
    }
}

/// The final component of `p`: what follows the last separator, trailing
/// separators ignored.
pub open spec fn spec_basename(p: Seq<char>) -> Seq<char> {
    let t = strip_trailing_slashes(p);
    t.skip(after_last_slash(t))
}

/// The directory part of `p`: what precedes its final component, without
/// the separator between them.
pub open spec fn spec_parent(p: Seq<char>) -> Seq<char> {
    let t = strip_trailing_slashes(p);
    let a = after_last_slash(t);
    if a == 1 {
        t.take(1)
    } else if a > 1 {
        t.take(a - 1)
    } else {
        Seq::empty()
    }
}

fn strip_trailing(p: &str) -> (r: Vec<char>)
    ensures
        r@ == strip_trailing_slashes(p@),
{
    let mut cs = crate::strings::str_to_chars(p);
    let ghost orig = cs@;
    while cs.len() > 0 && cs[cs.len() - 1] == '/'
        invariant
            strip_trailing_slashes(orig) == strip_trailing_slashes(cs@),
        decreases cs.len(),
    {
        let ghost before = cs@;
        cs.pop();
        proof {
            assert(cs@ =~= before.drop_last());
        }
    }
    cs
}

fn last_slash_bound(cs: &Vec<char>) -> (r: usize)
    ensures
        r == after_last_slash(cs@),
        r <= cs@.len(),
{
    let n = cs.len();
    let mut j: usize = n;
    proof {
        assert(cs@.take(n as int) =~= cs@);
    }
    while j > 0
        invariant
            n == cs@.len(),
            j <= n,
            after_last_slash(cs@) == after_last_slash(cs@.take(j as int)),
            forall|t: int| j <= t < n ==> cs@[t] != '/',
        decreases j,
    {
        proof {
            let tj = cs@.take(j as int);
            assert(tj.last() == cs@[j - 1]);
            assert(tj.drop_last() =~= cs@.take(j - 1));
        }
        if cs[j - 1] == '/' {
            proof {
                assert(after_last_slash(cs@.take(j as int)) == j);
            }
            return j;
        }
        j = j - 1;
    }
    proof {
        assert(cs@.take(0) =~= Seq::<char>::empty());
    }
    0
}

/// The name of the folder a path points at: its final component.
/// An empty final component is rejected.
pub fn extract_folder_name(mod_path: &str) -> (r: Result<String, String>)
    ensures
        match r {
            Ok(name) => spec_basename(mod_path@).len() > 0 && name@ == spec_basename(mod_path@),
            Err(e) => spec_basename(mod_path@).len() == 0 && e@ == "Invalid mod path"@,
        },
{
    let t = strip_trailing(mod_path);
    let a = last_slash_bound(&t);
    let n = t.len();
    if a == n {
        return Err(String::from_str("Invalid mod path"));
    }
    let mut out: Vec<char> = Vec::new();
    let mut k: usize = a;
    while k < n
        invariant
            n == t@.len(),
            a <= k <= n,
            out@ == t@.subrange(a as int, k as int),
        decreases n - k,
    {
        out.push(t[k]);
        proof {
            assert(out@ =~= t@.subrange(a as int, k + 1));
        }
        k = k + 1;
    }
    proof {
        assert(t@.subrange(a as int, n as int) =~= t@.skip(a as int));
    }
    Ok(crate::strings::chars_to_string(&out))
}

/// The directory holding the folder a path points at.  A path without a
/// directory part is rejected.
pub fn get_mods_path_from_mod_path(mod_path: &str) -> (r: Result<String, String>)
    ensures
        match r {
            Ok(parent) => strip_trailing_slashes(mod_path@).len() > 0 && parent@ == spec_parent(
                mod_path@,
            ),
            Err(e) => strip_trailing_slashes(mod_path@).len() == 0 && e@
                == "Cannot get mods path from mod path"@,
        },
{
    let t = strip_trailing(mod_path);
    if t.len() == 0 {
        return Err(String::from_str("Cannot get mods path from mod path"));
    }
    let a = last_slash_bound(&t);
    let end: usize = if a == 1 {
        1
    } else if a > 1 {
        a - 1
    } else {
        0
    };
    let mut out: Vec<char> = Vec::new();
    let mut k: usize = 0;
    while k < end
        invariant
            end <= t@.len(),
            k <= end,
            out@ == t@.subrange(0, k as int),
        decreases end - k,
    {
        out.push(t[k]);
        proof {
            assert(out@ =~= t@.subrange(0, k + 1));
        }
        k = k + 1;
    }
    proof {
        if a == 0 {
            assert(out@ =~= Seq::<char>::empty());
        } else {
            assert(t@.subrange(0, end as int) =~= t@.take(end as int));
        }
    }
    Ok(crate::strings::chars_to_string(&out))
}

/// Whether the directory the path names exists, is a directory, and can be
/// used as a destination tree.  The caller supplies what it observed of the
/// path; the decision and its message are fixed here.
pub fn validate_mods_path(path: &str, exists: bool, is_dir: bool) -> (r: Result<String, String>)
    ensures
        match r {
            Ok(p) => exists && is_dir && p@ == path@,
            Err(e) => (!exists && e@ == "Mods path does not exist: "@ + path@) || (exists
                && !is_dir && e@ == "Mods path is not a directory: "@ + path@),
        },
{
    if !exists {
        let mut e = String::from_str("Mods path does not exist: ");
        e.append(path);
        Err(e)
    } else if !is_dir {
        let mut e = String::from_str("Mods path is not a directory: ");
        e.append(path);
        Err(e)
    } else {
        Ok(String::from_str(path))
    }
}

/// Joining different directories with the same name gives different paths.
pub proof fn lemma_join_injective_base(a: Seq<char>, b: Seq<char>, name: Seq<char>)
    requires
        a != b,
    ensures
        spec_join(a, name) != spec_join(b, name),
{
    if a.len() == b.len() {
        if spec_join(a, name) == spec_join(b, name) {
            assert forall|i: int| 0 <= i < a.len() implies a[i] == b[i] by {
                assert(spec_join(a, name)[i] == a[i]);
                assert(spec_join(b, name)[i] == b[i]);
            }
            assert(a =~= b);
        }
    } else {
        assert(spec_join(a, name).len() != spec_join(b, name).len());
    }
}

/// Whether `p` lies at or under `prefix`: `prefix` starts it and the next
/// character, if any, begins a new component.
pub open spec fn spec_path_starts_with(p: Seq<char>, prefix: Seq<char>) -> bool {
    &&& prefix.len() <= p.len()
    &&& p.take(prefix.len() as int) == prefix
    &&& (p.len() == prefix.len() || p[prefix.len() as int] == '/' || (prefix.len() > 0
        && prefix.last() == '/'))
}

/// Whether `p` equals `prefix` or lies underneath it.
pub fn path_starts_with(p: &str, prefix: &str) -> (r: bool)
    ensures
        r == spec_path_starts_with(p@, prefix@),
{
    let plen = p.unicode_len();
    let xlen = prefix.unicode_len();
    if xlen > plen {
        return false;
    }
    let mut i: usize = 0;
    while i < xlen
        invariant
            plen == p@.len(),
            xlen == prefix@.len(),
            xlen <= plen,
            i <= xlen,
            forall|j: int| 0 <= j < i ==> p@[j] == prefix@[j],
        decreases xlen - i,
    {
        if p.get_char(i) != prefix.get_char(i) {
            proof {
                assert(p@.take(xlen as int)[i as int] != prefix@[i as int]);
            }
            return false;
        }
        i = i + 1;
    }
    proof {
        assert(p@.take(xlen as int) =~= prefix@);
    }
    if plen == xlen {
        return true;
    }
    if p.get_char(xlen) == '/' {
        return true;
    }
    if xlen > 0 && prefix.get_char(xlen - 1) == '/' {
        return true;
    }
    false
}

} // verus!
