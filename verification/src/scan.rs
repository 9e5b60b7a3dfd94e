//! Scanning the fetch tool's output for per-item hints.
//!
//! The tool prints no reliable structured completion signal, so its output
//! lines are scanned, case-insensitively, for two patterns keyed by item
//! id: a failure report, which feeds the shared failed-item set, and a
//! download-started notice, which only feeds the user interface.  The scan
//! is a hint: success is never declared from text alone.

use vstd::prelude::*;

verus! {

/// The ASCII-lowercased form of one character.
pub open spec fn spec_lower(c: char) -> char {
    if 'A' <= c && c <= 'Z' {
        ((c as u8) + 32) as char
    } else {
        c
    }
}

/// The ASCII-lowercased form of a line.
pub open spec fn lower_seq(s: Seq<char>) -> Seq<char> {
    Seq::new(s.len(), |i: int| spec_lower(s[i]))
}

/// `needle` occurs contiguously in `hay`.
pub open spec fn is_substring(hay: Seq<char>, needle: Seq<char>) -> bool {
    exists|k: int|
        0 <= k && k + needle.len() <= hay.len() && #[trigger] hay.subrange(k, k + needle.len())
            == needle
}

/// The line reports the item as failed: it holds, in any case mix, the
/// failure keywords and the item id.
pub open spec fn spec_failure_line(line: Seq<char>, id: Seq<char>) -> bool {
    let l = lower_seq(line);
    is_substring(l, "error"@) && is_substring(l, "download"@) && is_substring(l, "failed"@)
        && is_substring(l, id)
}

/// The line reports the item's download as starting, and is not a
/// completion or failure line.
pub open spec fn spec_downloading_line(line: Seq<char>, id: Seq<char>) -> bool {
    let l = lower_seq(line);
    is_substring(l, "downloading"@) && !is_substring(l, "downloaded"@) && !is_substring(
        l,
        "failed"@,
    ) && (is_substring(l, "item"@) || is_substring(l, "workshop"@)) && is_substring(l, id)
}

/// The ids of `ids` whose failure `line` reports, in order.
pub open spec fn failures_of(ids: Seq<Seq<char>>, line: Seq<char>) -> Seq<Seq<char>>
    decreases ids.len(),
{
    if ids.len() == 0 {
        Seq::empty()
    } else {
        let rest = failures_of(ids.drop_last(), line);
        if spec_failure_line(line, ids.last()) {
            rest.push(ids.last())
        } else {
            rest
        }
    }
}

/// The ids of `ids` whose download start `line` reports (and whose failure
/// it does not), in order.
pub open spec fn downloads_of(ids: Seq<Seq<char>>, line: Seq<char>) -> Seq<Seq<char>>
    decreases ids.len(),
{
    if ids.len() == 0 {
        Seq::empty()
    } else {
        let rest = downloads_of(ids.drop_last(), line);
        if !spec_failure_line(line, ids.last()) && spec_downloading_line(line, ids.last()) {
            rest.push(ids.last())
        } else {
            rest
        }
    }
}

fn lower_chars(line: &str) -> (r: Vec<char>)
    ensures
        r@ == lower_seq(line@),
{
    let n = line.unicode_len();
    let mut r: Vec<char> = Vec::new();
    let mut i: usize = 0;
    while i < n
        invariant
            n == line@.len(),
            i <= n,
            r@.len() == i,
            forall|j: int| 0 <= j < i ==> #[trigger] r@[j] == spec_lower(line@[j]),
        decreases n - i,
    {
        let c = line.get_char(i);
        let lc = if 'A' <= c && c <= 'Z' {
            ((c as u8) + 32) as char
        } else {
            c
        };
        r.push(lc);
        i = i + 1;
    }
    proof {
        assert(r@ =~= lower_seq(line@));
    }
    r
}

fn contains_chars(hay: &Vec<char>, needle: &str) -> (r: bool)
    ensures
        r == is_substring(hay@, needle@),
{
    let nl = needle.unicode_len();
    let hl = hay.len();
    if nl > hl {
        proof {
            assert(!is_substring(hay@, needle@)) by {
                if is_substring(hay@, needle@) {
                    let k = choose|k: int|
                        0 <= k && k + needle@.len() <= hay@.len() && #[trigger] hay@.subrange(
                            k,
                            k + needle@.len(),
                        ) == needle@;
                    assert(k + needle@.len() <= hay@.len());
                }
            }
        }
        return false;
    }
    let mut k: usize = 0;
    while k <= hl - nl
        invariant
            hl == hay@.len(),
            nl == needle@.len(),
            nl <= hl,
            k <= hl - nl + 1,
            forall|t: int|
                0 <= t < k ==> #[trigger] hay@.subrange(t, t + needle@.len()) != needle@,
        decreases hl - nl - k + 1,
    {
        let mut j: usize = 0;
        let mut matched = true;
        while j < nl
            invariant_except_break
                hl == hay@.len(),
                nl == needle@.len(),
                k + nl <= hl,
                j <= nl,
                matched,
                forall|t: int| 0 <= t < j ==> hay@[k + t] == needle@[t],
            ensures
                j <= nl,
                matched ==> forall|t: int| 0 <= t < j ==> hay@[k + t] == needle@[t],
                matched ==> j == nl,
                !matched ==> j < nl && hay@[k + j as int] != needle@[j as int],
            decreases nl - j,
        {
            if hay[k + j] != needle.get_char(j) {
                matched = false;
                break ;
            }
            j = j + 1;
        }
        if matched {
            proof {
                assert(hay@.subrange(k as int, k + needle@.len()) =~= needle@);
            }
            return true;
        }
        proof {
            assert(hay@.subrange(k as int, k + needle@.len())[j as int] != needle@[j as int]);
        }
        k = k + 1;
    }
    proof {
        assert forall|t: int|
            0 <= t && t + needle@.len() <= hay@.len() implies #[trigger] hay@.subrange(
            t,
            t + needle@.len(),
        ) != needle@ by {
            assert(t < k);
        }
    }
    false
}

/// Scan one output line against the batch's item ids: the first result
/// holds the ids the line reports as failed, the second the ids whose
/// download it reports as starting, each in batch order.
pub fn parse_steamcmd_output(line: &str, mod_ids: &Vec<String>) -> (r: (Vec<String>, Vec<String>))
    ensures
        r.0.deep_view() == failures_of(mod_ids.deep_view(), line@),
        r.1.deep_view() == downloads_of(mod_ids.deep_view(), line@),
{
    let ghost idsv = mod_ids.deep_view();
    let lower = lower_chars(line);
    let has_error = contains_chars(&lower, "error");
    let has_download = contains_chars(&lower, "download");
    let has_failed = contains_chars(&lower, "failed");
    let has_downloading = contains_chars(&lower, "downloading");
    let has_downloaded = contains_chars(&lower, "downloaded");
    let has_item = contains_chars(&lower, "item");
    let has_workshop = contains_chars(&lower, "workshop");
    let n = mod_ids.len();
    let mut failed: Vec<String> = Vec::new();
    let mut downloading: Vec<String> = Vec::new();
    let mut i: usize = 0;
    proof {
        assert(idsv.take(0) =~= Seq::<Seq<char>>::empty());
        assert(failed.deep_view() =~= failures_of(idsv.take(0), line@));
        assert(downloading.deep_view() =~= downloads_of(idsv.take(0), line@));
    }
    while i < n
        invariant
            n == mod_ids@.len(),
            idsv == mod_ids.deep_view(),
            lower@ == lower_seq(line@),
            has_error == is_substring(lower_seq(line@), "error"@),
            has_download == is_substring(lower_seq(line@), "download"@),
            has_failed == is_substring(lower_seq(line@), "failed"@),
            has_downloading == is_substring(lower_seq(line@), "downloading"@),
            has_downloaded == is_substring(lower_seq(line@), "downloaded"@),
            has_item == is_substring(lower_seq(line@), "item"@),
            has_workshop == is_substring(lower_seq(line@), "workshop"@),
            i <= n,
            failed.deep_view() == failures_of(idsv.take(i as int), line@),
            downloading.deep_view() == downloads_of(idsv.take(i as int), line@),
        decreases n - i,
    {
        let has_id = contains_chars(&lower, mod_ids[i].as_str());
        let ghost prev_f = failed.deep_view();
        let ghost prev_d = downloading.deep_view();
        let is_failure = has_error && has_download && has_failed && has_id;
        let is_downloading_line = has_downloading && !has_downloaded && !has_failed && (has_item
            || has_workshop) && has_id;
        if is_failure {
            failed.push(mod_ids[i].clone());
            proof {
                assert(failed.deep_view() =~= prev_f.push(idsv[i as int]));
            }
        } else if is_downloading_line {
            downloading.push(mod_ids[i].clone());
            proof {
                assert(downloading.deep_view() =~= prev_d.push(idsv[i as int]));
            }
        }
        proof {
            let t1 = idsv.take(i + 1);
            assert(t1.drop_last() =~= idsv.take(i as int));
            assert(t1.last() == idsv[i as int]);
        }
        i = i + 1;
    }
    proof {
        assert(idsv.take(n as int) =~= idsv);
    }
    (failed, downloading)
}

} // verus!
