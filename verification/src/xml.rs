//! Reading the package identifier out of an item's manifest file.
//!
//! The manifest is a small XML document; the identifier is the text of the
//! `packageId` element lying directly under the `ModMetaData` root.  A
//! deeper `packageId` (for example inside a dependency list) does not
//! count.  The scanner walks the document's tags and tracks its depth
//! inside the root element; declarations, comments and self-closing tags
//! carry no content and are passed over.  Character entities are read
//! literally.

use vstd::prelude::*;
use crate::strings::spec_trim_ws;

verus! {

/// The first position at or after `i` holding `c`, or the length.
pub open spec fn find_from(s: Seq<char>, i: int, c: char) -> int
    decreases s.len() - i,
{
    if i < 0 || i >= s.len() {
        s.len() as int
    } else if s[i] == c {
        i
    } else {
        find_from(s, i + 1, c)
    }
}

/// A found position lies between the start of the search and the length.
pub proof fn lemma_find_bounds(s: Seq<char>, i: int, c: char)
    requires
        0 <= i <= s.len(),
    ensures
        i <= find_from(s, i, c) <= s.len(),
    decreases s.len() - i,
{
    if i < s.len() && s[i] != c {
        lemma_find_bounds(s, i + 1, c);
    }
}

/// Whether `c` ends a tag name.
pub open spec fn spec_is_name_end(c: char) -> bool {
    c == ' ' || c == '\t' || c == '\n' || c == '\r' || c == '>' || c == '/'
}

/// The first position at or after `i` that ends a tag name, or the length.
pub open spec fn name_end_from(s: Seq<char>, i: int) -> int
    decreases s.len() - i,
{
    if i < 0 || i >= s.len() {
        s.len() as int
    } else if spec_is_name_end(s[i]) {
        i
    } else {
        name_end_from(s, i + 1)
    }
}

proof fn lemma_name_end_bounds(s: Seq<char>, i: int)
    requires
        0 <= i <= s.len(),
    ensures
        i <= name_end_from(s, i) <= s.len(),
    decreases s.len() - i,
{
    if i < s.len() && !spec_is_name_end(s[i]) {
        lemma_name_end_bounds(s, i + 1);
    }
}

/// The scan of the document from position `i` on, with the state the walk
/// has reached: whether it stands inside the root element, how deep under
/// it, whether it stands inside a directly nested `packageId`, and the
/// text captured there so far.
pub open spec fn scan_pkg(
    s: Seq<char>,
    i: int,
    in_meta: bool,
    depth: int,
    in_pkg: bool,
    text: Seq<char>,
) -> Option<Seq<char>>
    decreases s.len() - i,
        when 0 <= i
    via scan_pkg_decreases
{
    if i < 0 || i >= s.len() {
        None
    } else if s[i] == '<' {
        if i + 1 < s.len() && s[i + 1] == '/' {
            // A closing tag.
            let ne = name_end_from(s, i + 2);
            let name = s.subrange(i + 2, ne);
            let gt = find_from(s, ne, '>');
            let next = if gt + 1 < s.len() {
                gt + 1
            } else {
                s.len() as int
            };
            if name == "packageId"@ {
                if in_pkg && depth == 1 && text.len() > 0 {
                    Some(text)
                } else {
                    scan_pkg(
                        s,
                        next,
                        in_meta,
                        if in_meta {
                            depth - 1
                        } else {
                            depth
                        },
                        if in_pkg && depth == 1 {
                            false
                        } else {
                            in_pkg
                        },
                        text,
                    )
                }
            } else if name == "ModMetaData"@ {
                scan_pkg(s, next, false, 0, in_pkg, text)
            } else if in_meta {
                scan_pkg(s, next, in_meta, depth - 1, in_pkg, text)
            } else {
                scan_pkg(s, next, in_meta, depth, in_pkg, text)
            }
        } else if i + 1 < s.len() && (s[i + 1] == '?' || s[i + 1] == '!') {
            // A declaration or comment: passed over to its closing bracket.
            let gt = find_from(s, i + 1, '>');
            let next = if gt + 1 < s.len() {
                gt + 1
            } else {
                s.len() as int
            };
            scan_pkg(s, next, in_meta, depth, in_pkg, text)
        } else {
            // An opening tag.
            let ne = name_end_from(s, i + 1);
            let name = s.subrange(i + 1, ne);
            let gt = find_from(s, ne, '>');
            let next = if gt + 1 < s.len() {
                gt + 1
            } else {
                s.len() as int
            };
            let self_closing = gt < s.len() && ne <= gt - 1 && s[gt - 1] == '/';
            if self_closing {
                scan_pkg(s, next, in_meta, depth, in_pkg, text)
            } else if name == "ModMetaData"@ {
                scan_pkg(s, next, true, 0, in_pkg, text)
            } else if in_meta {
                if depth == 0 && name == "packageId"@ {
                    scan_pkg(s, next, in_meta, 1, true, text)
                } else {
                    scan_pkg(s, next, in_meta, depth + 1, in_pkg, text)
                }
            } else {
                scan_pkg(s, next, in_meta, depth, in_pkg, text)
            }
        }
    } else {
        // A text run, up to the next tag.
        let lt = find_from(s, i + 1, '<');
        let t = spec_trim_ws(s.subrange(i, lt));
        if in_pkg && depth == 1 && t.len() > 0 {
            scan_pkg(s, lt, in_meta, depth, in_pkg, t)
        } else {
            scan_pkg(s, lt, in_meta, depth, in_pkg, text)
        }
    }
}

#[via_fn]
proof fn scan_pkg_decreases(
    s: Seq<char>,
    i: int,
    in_meta: bool,
    depth: int,
    in_pkg: bool,
    text: Seq<char>,
) {
    if 0 <= i < s.len() {
        if s[i] == '<' {
            if i + 1 < s.len() && s[i + 1] == '/' {
                lemma_name_end_bounds(s, i + 2);
                lemma_find_bounds(s, name_end_from(s, i + 2), '>');
            } else if i + 1 < s.len() && (s[i + 1] == '?' || s[i + 1] == '!') {
                lemma_find_bounds(s, i + 1, '>');
            } else {
                lemma_name_end_bounds(s, i + 1);
                lemma_find_bounds(s, name_end_from(s, i + 1), '>');
            }
        } else {
            lemma_find_bounds(s, i + 1, '<');
        }
    }
}

/// The package identifier the manifest records, if any.
pub open spec fn spec_package_id(s: Seq<char>) -> Option<Seq<char>> {
    scan_pkg(s, 0, false, 0, false, Seq::empty())
}

fn exec_find_from(cs: &Vec<char>, i: usize, c: char) -> (r: usize)
    requires
        i <= cs@.len(),
    ensures
        r == find_from(cs@, i as int, c),
        i <= r <= cs@.len(),
        r < cs@.len() ==> cs@[r as int] == c,
        forall|t: int| i <= t < r ==> cs@[t] != c,
{
    let n = cs.len();
    let mut j: usize = i;
    while j < n
        invariant
            n == cs@.len(),
            i <= j <= n,
            find_from(cs@, i as int, c) == find_from(cs@, j as int, c),
            forall|t: int| i <= t < j ==> cs@[t] != c,
        decreases n - j,
    {
        if cs[j] == c {
            return j;
        }
        j = j + 1;
    }
    j
}

fn exec_name_end_from(cs: &Vec<char>, i: usize) -> (r: usize)
    requires
        i <= cs@.len(),
    ensures
        r == name_end_from(cs@, i as int),
        i <= r <= cs@.len(),
{
    let n = cs.len();
    let mut j: usize = i;
    while j < n
        invariant
            n == cs@.len(),
            i <= j <= n,
            name_end_from(cs@, i as int) == name_end_from(cs@, j as int),
        decreases n - j,
    {
        let c = cs[j];
        if c == ' ' || c == '\t' || c == '\n' || c == '\r' || c == '>' || c == '/' {
            return j;
        }
        j = j + 1;
    }
    j
}

fn subrange_matches(cs: &Vec<char>, a: usize, b: usize, target: &str) -> (r: bool)
    requires
        a <= b <= cs@.len(),
    ensures
        r == (cs@.subrange(a as int, b as int) == target@),
{
    let tl = target.unicode_len();
    if b - a != tl {
        proof {
            assert(cs@.subrange(a as int, b as int).len() != target@.len());
        }
        return false;
    }
    let mut k: usize = 0;
    while k < tl
        invariant
            a <= b <= cs@.len(),
            tl == target@.len(),
            b - a == tl,
            k <= tl,
            forall|t: int| 0 <= t < k ==> cs@[a + t] == target@[t],
        decreases tl - k,
    {
        if cs[a + k] != target.get_char(k) {
            proof {
                assert(cs@.subrange(a as int, b as int)[k as int] != target@[k as int]);
            }
            return false;
        }
        k = k + 1;
    }
    proof {
        assert(cs@.subrange(a as int, b as int) =~= target@);
    }
    true
}

/// Read the package identifier out of a manifest document, as
/// `spec_package_id` describes.
pub fn get_package_id(content: &str) -> (r: Option<String>)
    ensures
        match r {
            Some(id) => spec_package_id(content@) == Some(id@),
            None => spec_package_id(content@) is None,
        },
{
    let cs = crate::strings::str_to_chars(content);
    let ghost sv = content@;
    let n = cs.len();
    let mut i: usize = 0;
    let mut in_meta = false;
    let mut depth: i128 = 0;
    let mut in_pkg = false;
    let mut text: Vec<char> = Vec::new();
    proof {
        assert(text@ =~= Seq::<char>::empty());
    }
    while i < n
        invariant
            n == cs@.len(),
            cs@ == sv,
            sv == content@,
            i <= n,
            -(i as int) <= depth <= i as int,
            spec_package_id(sv) == scan_pkg(sv, i as int, in_meta, depth as int, in_pkg, text@),
        decreases n - i,
    {
        let ghost oi = i as int;
        let ghost om = in_meta;
        let ghost od = depth as int;
        let ghost op = in_pkg;
        let ghost ot = text@;
        if cs[i] == '<' {
            if i + 1 < n && cs[i + 1] == '/' {
                let ne = exec_name_end_from(&cs, i + 2);
                let gt = exec_find_from(&cs, ne, '>');
                let next = if gt < n {
                    gt + 1
                } else {
                    n
                };
                let is_pkg_tag = subrange_matches(&cs, i + 2, ne, "packageId");
                let is_meta_tag = subrange_matches(&cs, i + 2, ne, "ModMetaData");
                if is_pkg_tag {
                    if in_pkg && depth == 1 && text.len() > 0 {
                        proof {
                            assert(sv[oi] == '<');
                            assert(oi + 1 < sv.len() && sv[oi + 1] == '/');
                            assert(ne == name_end_from(sv, oi + 2));
                            assert(sv.subrange(oi + 2, name_end_from(sv, oi + 2))
                                == "packageId"@);
                            assert(op && od == 1 && ot.len() > 0);
                            assert(scan_pkg(sv, oi, om, od, op, ot) == Some(ot));
                        }
                        return Some(crate::strings::chars_to_string(&text));
                    }
                    if in_pkg && depth == 1 {
                        in_pkg = false;
                    }
                    if in_meta {
                        depth = depth - 1;
                    }
                } else if is_meta_tag {
                    in_meta = false;
                    depth = 0;
                } else if in_meta {
                    depth = depth - 1;
                }
                i = next;
                proof {
                    assert(scan_pkg(sv, oi, om, od, op, ot) == scan_pkg(
                        sv,
                        i as int,
                        in_meta,
                        depth as int,
                        in_pkg,
                        text@,
                    ));
                }
            } else if i + 1 < n && (cs[i + 1] == '?' || cs[i + 1] == '!') {
                let gt = exec_find_from(&cs, i + 1, '>');
                let next = if gt < n {
                    gt + 1
                } else {
                    n
                };
                i = next;
                proof {
                    assert(scan_pkg(sv, oi, om, od, op, ot) == scan_pkg(
                        sv,
                        i as int,
                        in_meta,
                        depth as int,
                        in_pkg,
                        text@,
                    ));
                }
            } else {
                let ne = exec_name_end_from(&cs, i + 1);
                let gt = exec_find_from(&cs, ne, '>');
                let next = if gt < n {
                    gt + 1
                } else {
                    n
                };
                let self_closing = gt < n && ne + 1 <= gt && cs[gt - 1] == '/';
                if self_closing {
                } else {
                    let is_meta_tag = subrange_matches(&cs, i + 1, ne, "ModMetaData");
                    if is_meta_tag {
                        in_meta = true;
                        depth = 0;
                    } else if in_meta {
                        let is_pkg_tag = subrange_matches(&cs, i + 1, ne, "packageId");
                        if depth == 0 && is_pkg_tag {
                            depth = 1;
                            in_pkg = true;
                        } else {
                            depth = depth + 1;
                        }
                    }
                }
                i = next;
                proof {
                    assert(scan_pkg(sv, oi, om, od, op, ot) == scan_pkg(
                        sv,
                        i as int,
                        in_meta,
                        depth as int,
                        in_pkg,
                        text@,
                    ));
                }
            }
        } else {
            let lt = exec_find_from(&cs, i + 1, '<');
            if in_pkg && depth == 1 {
                let mut run: Vec<char> = Vec::new();
                let mut k: usize = i;
                while k < lt
                    invariant
                        lt <= cs@.len(),
                        i <= k <= lt,
                        run@ == cs@.subrange(i as int, k as int),
                    decreases lt - k,
                {
                    run.push(cs[k]);
                    proof {
                        assert(run@ =~= cs@.subrange(i as int, k + 1));
                    }
                    k = k + 1;
                }
                proof {
                    assert(run@ =~= cs@.subrange(i as int, lt as int));
                }
                let run_str = crate::strings::chars_to_string(&run);
                let trimmed = crate::strings::trim_ws_string(run_str.as_str());
                if trimmed.unicode_len() > 0 {
                    text = crate::strings::str_to_chars(trimmed.as_str());
                }
            }
            i = lt;
            proof {
                assert(scan_pkg(sv, oi, om, od, op, ot) == scan_pkg(
                    sv,
                    i as int,
                    in_meta,
                    depth as int,
                    in_pkg,
                    text@,
                ));
            }
        }
    }
    proof {
        assert(scan_pkg(sv, i as int, in_meta, depth as int, in_pkg, text@) is None);
    }
    None
}

} // verus!
