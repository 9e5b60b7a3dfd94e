//! Character-level string utilities shared by the rest of the library.
//!
//! Verus views `str` and `String` as sequences of characters, so the
//! algorithms here work character by character and state their contracts
//! over `Seq<char>`.

use vstd::prelude::*;

verus! {

/// Character-wise equality of two string slices.
pub fn str_eq(a: &str, b: &str) -> (r: bool)
    ensures
        r == (a@ == b@),
{
    let an = a.unicode_len();
    let bn = b.unicode_len();
    if an != bn {
        return false;
    }
    let mut i: usize = 0;
    while i < an
        invariant
            an == a@.len(),
            an == b@.len(),
            i <= an,
            forall|j: int| 0 <= j < i ==> a@[j] == b@[j],
        decreases an - i,
    {
        if a.get_char(i) != b.get_char(i) {
            return false;
        }
        i = i + 1;
    }
    proof {
        assert(a@ =~= b@);
    }
    true
}

/// `v` with later repetitions of a string dropped: each distinct string
/// once, at its first position.
pub fn dedup_strings(v: &Vec<String>) -> (r: Vec<String>)
    ensures
        forall|i: int, j: int|
            0 <= i < j < r.deep_view().len() ==> r.deep_view()[i] != r.deep_view()[j],
        forall|i: int|
            0 <= i < r.deep_view().len() ==> v.deep_view().contains(#[trigger] r.deep_view()[i]),
        forall|i: int|
            0 <= i < v.deep_view().len() ==> r.deep_view().contains(#[trigger] v.deep_view()[i]),
{
    let n = v.len();
    let mut r: Vec<String> = Vec::new();
    let mut i: usize = 0;
    while i < n
        invariant
            n == v@.len(),
            i <= n,
            forall|a: int, b: int|
                0 <= a < b < r.deep_view().len() ==> r.deep_view()[a] != r.deep_view()[b],
            forall|a: int|
                0 <= a < r.deep_view().len() ==> v.deep_view().contains(
                    #[trigger] r.deep_view()[a],
                ),
            forall|a: int|
                0 <= a < i ==> r.deep_view().contains(#[trigger] v.deep_view()[a]),
        decreases n - i,
    {
        let present = vec_contains_str(&r, v[i].as_str());
        if !present {
            let ghost prev = r.deep_view();
            r.push(v[i].clone());
            proof {
                assert(r.deep_view() =~= prev.push(v.deep_view()[i as int]));
                assert(r.deep_view().last() == v.deep_view()[i as int]);
                assert forall|a: int, b: int|
                    0 <= a < b < r.deep_view().len() implies r.deep_view()[a]
                    != r.deep_view()[b] by {
                    if b == r.deep_view().len() - 1 {
                        assert(prev[a] != v.deep_view()[i as int]);
                    }
                }
                assert forall|a: int|
                    0 <= a < i + 1 implies r.deep_view().contains(
                    #[trigger] v.deep_view()[a],
                ) by {
                    if a < i {
                        let k = choose|k: int| 0 <= k < prev.len() && prev[k] == v.deep_view()[a];
                        assert(r.deep_view()[k] == v.deep_view()[a]);
                    } else {
                        assert(r.deep_view().last() == v.deep_view()[a]);
                    }
                }
            }
        } else {
            proof {
                assert(r.deep_view().contains(v.deep_view()[i as int]));
            }
        }
        i = i + 1;
    }
    r
}

/// The characters of a string slice, in order.
pub fn str_to_chars(s: &str) -> (r: Vec<char>)
    ensures
        r@ == s@,
{
    let n = s.unicode_len();
    let mut r: Vec<char> = Vec::new();
    let mut i: usize = 0;
    while i < n
        invariant
            n == s@.len(),
            i <= n,
            r@ == s@.take(i as int),
        decreases n - i,
    {
        let ghost prev = r@;
        r.push(s.get_char(i));
        proof {
            assert(r@ =~= s@.take(i + 1));
        }
        i = i + 1;
    }
    proof {
        assert(s@.take(n as int) =~= s@);
    }
    r
}

/// Collects characters back into a string.  Relies on
/// String::from_iter over a copied character iterator: the result holds
/// exactly the given characters, in order.
#[verifier::external_body]
pub fn chars_to_string(cs: &Vec<char>) -> (r: String)
    ensures
        r@ == cs@,
{
    cs.iter().collect()
}

/// The Unicode whitespace characters.
pub open spec fn spec_is_space(c: char) -> bool {
    c == ' ' || c == '\t' || c == '\n' || c == '\r' || c == '\u{b}' || c == '\u{c}' || c
        == '\u{85}' || c == '\u{a0}' || c == '\u{1680}' || ('\u{2000}' <= c && c <= '\u{200a}')
        || c == '\u{2028}' || c == '\u{2029}' || c == '\u{202f}' || c == '\u{205f}' || c
        == '\u{3000}'
}

/// Whether `c` is a whitespace character.
pub fn is_space(c: char) -> (r: bool)
    ensures
        r == spec_is_space(c),
{
    c == ' ' || c == '\t' || c == '\n' || c == '\r' || c == '\u{b}' || c == '\u{c}' || c
        == '\u{85}' || c == '\u{a0}' || c == '\u{1680}' || ('\u{2000}' <= c && c <= '\u{200a}')
        || c == '\u{2028}' || c == '\u{2029}' || c == '\u{202f}' || c == '\u{205f}' || c
        == '\u{3000}'
}

/// `s` without leading whitespace.
pub open spec fn trim_ws_start(s: Seq<char>) -> Seq<char>
    decreases s.len(),
{
    if s.len() > 0 && spec_is_space(s[0]) {
        trim_ws_start(s.drop_first())
    } else {
        s
    }
}

/// `s` without trailing whitespace.
pub open spec fn trim_ws_end(s: Seq<char>) -> Seq<char>
    decreases s.len(),
{
    if s.len() > 0 && spec_is_space(s.last()) {
        trim_ws_end(s.drop_last())
    } else {
        s
    }
}

/// `s` without leading and trailing whitespace.
pub open spec fn spec_trim_ws(s: Seq<char>) -> Seq<char> {
    trim_ws_end(trim_ws_start(s))
}

/// `s` with its leading and trailing whitespace removed.
pub fn trim_ws_string(s: &str) -> (r: String)
    ensures
        r@ == spec_trim_ws(s@),
{
    let cs = str_to_chars(s);
    let n = cs.len();
    let mut a: usize = 0;
    proof {
        assert(cs@.skip(0) =~= cs@);
    }
    while a < n && is_space(cs[a])
        invariant
            n == cs@.len(),
            a <= n,
            trim_ws_start(cs@) == trim_ws_start(cs@.skip(a as int)),
        decreases n - a,
    {
        proof {
            let sk = cs@.skip(a as int);
            assert(sk[0] == cs@[a as int]);
            assert(trim_ws_start(sk) == trim_ws_start(sk.drop_first()));
            assert(sk.drop_first() =~= cs@.skip(a + 1));
        }
        a = a + 1;
    }
    proof {
        let sk = cs@.skip(a as int);
        if a < n {
            assert(sk[0] == cs@[a as int]);
            assert(trim_ws_start(sk) == sk);
        } else {
            assert(sk =~= Seq::<char>::empty());
            assert(trim_ws_start(sk) == sk);
        }
    }
    let mut b: usize = n;
    proof {
        assert(cs@.subrange(a as int, n as int) =~= cs@.skip(a as int));
    }
    while b > a && is_space(cs[b - 1])
        invariant
            n == cs@.len(),
            a <= b <= n,
            trim_ws_end(cs@.skip(a as int)) == trim_ws_end(cs@.subrange(a as int, b as int)),
        decreases b,
    {
        proof {
            let sub = cs@.subrange(a as int, b as int);
            assert(sub.last() == cs@[b - 1]);
            assert(trim_ws_end(sub) == trim_ws_end(sub.drop_last()));
            assert(sub.drop_last() =~= cs@.subrange(a as int, b - 1));
        }
        b = b - 1;
    }
    proof {
        let sub = cs@.subrange(a as int, b as int);
        if b > a {
            assert(sub.last() == cs@[b - 1]);
            assert(trim_ws_end(sub) == sub);
        } else {
            assert(sub =~= Seq::<char>::empty());
            assert(trim_ws_end(sub) == sub);
        }
    }
    let mut out: Vec<char> = Vec::new();
    let mut k: usize = a;
    while k < b
        invariant
            b <= cs@.len(),
            a <= k <= b,
            out@ == cs@.subrange(a as int, k as int),
        decreases b - k,
    {
        out.push(cs[k]);
        proof {
            assert(out@ =~= cs@.subrange(a as int, k + 1));
        }
        k = k + 1;
    }
    chars_to_string(&out)
}

/// Whether one of the strings in `v` reads as `s`.
pub fn vec_contains_str(v: &Vec<String>, s: &str) -> (r: bool)
    ensures
        r == v.deep_view().contains(s@),
{
    let n = v.len();
    let mut i: usize = 0;
    while i < n
        invariant
            n == v@.len(),
            i <= n,
            forall|j: int| 0 <= j < i ==> #[trigger] v.deep_view()[j] != s@,
        decreases n - i,
    {
        if str_eq(v[i].as_str(), s) {
            proof {
                assert(v.deep_view()[i as int] == s@);
            }
            return true;
        }
        i = i + 1;
    }
    proof {
        assert forall|j: int| 0 <= j < v.deep_view().len() implies #[trigger] v.deep_view()[j]
            != s@ by {}
    }
    false
}

} // verus!
