use vstd::prelude::*;

use crate::email::is_space;

verus! {

/// `s[lo..hi]` is `s` with its leading and trailing whitespace removed.
pub open spec fn trim_bounds(s: Seq<char>, lo: int, hi: int) -> bool {
    &&& 0 <= lo <= hi <= s.len()
    &&& forall|k: int| 0 <= k < lo ==> is_space(s[k])
    &&& forall|k: int| hi <= k < s.len() ==> is_space(s[k])
    &&& lo < hi ==> !is_space(s[lo]) && !is_space(s[hi - 1])
}

/// `w` spells the word whose lower-case letters are `lows` and upper-case ones `ups`,
/// in any mix of cases.
pub open spec fn spells(w: Seq<char>, lows: Seq<char>, ups: Seq<char>) -> bool {
    &&& w.len() == lows.len()
    &&& forall|k: int| 0 <= k < w.len() ==> w[k] == lows[k] || w[k] == ups[k]
}

/// A value that switches debug mode on: after trimming whitespace, `1`, `true`, `yes`
/// or `on`, in any case.
pub open spec fn debug_value(s: Seq<char>) -> bool {
    exists|lo: int, hi: int|
        trim_bounds(s, lo, hi) && {
            let w = s.subrange(lo, hi);
            spells(w, "1"@, "1"@) || spells(w, "true"@, "TRUE"@) || spells(w, "yes"@, "YES"@)
                || spells(w, "on"@, "ON"@)
        }
}

fn is_space_at(s: &str, i: usize) -> (r: bool)
    requires
        i < s@.len(),
    ensures
        r == is_space(s@[i as int]),
{
    let c = s.get_char(i);
    ('\u{9}' <= c && c <= '\u{D}') || c == ' ' || c == '\u{85}' || c == '\u{A0}' || c
        == '\u{1680}' || ('\u{2000}' <= c && c <= '\u{200A}') || c == '\u{2028}' || c
        == '\u{2029}' || c == '\u{202F}' || c == '\u{205F}' || c == '\u{3000}'
}

fn spells_at(s: &str, lo: usize, hi: usize, lows: &str, ups: &str) -> (r: bool)
    requires
        lo <= hi <= s@.len(),
        lows@.len() == ups@.len(),
    ensures
        r == spells(s@.subrange(lo as int, hi as int), lows@, ups@),
{
    let n = lows.unicode_len();
    if hi - lo != n {
        return false;
    }
    let mut k: usize = 0;
    while k < n
        invariant
            n == lows@.len(),
            n == ups@.len(),
            hi - lo == n,
            lo <= hi <= s@.len(),
            k <= n,
            forall|m: int| 0 <= m < k ==> s@[lo + m] == lows@[m] || s@[lo + m] == ups@[m],
        decreases n - k,
    {
        let c = s.get_char(lo + k);
        if c != lows.get_char(k) && c != ups.get_char(k) {
            return false;
        }
        k = k + 1;
    }
    true
}

/// Whether a configuration value switches debug mode on: `1`, `true`, `yes` or `on`,
/// in any case, with surrounding whitespace ignored.
pub fn debug_flag(value: &str) -> (r: bool)
    ensures
        r == debug_value(value@),
{
    let n = value.unicode_len();
    let mut lo: usize = 0;
    while lo < n && is_space_at(value, lo)
        invariant
            n == value@.len(),
            lo <= n,
            forall|k: int| 0 <= k < lo ==> is_space(value@[k]),
        decreases n - lo,
    {
        lo = lo + 1;
    }
    let mut hi: usize = n;
    while hi > lo && is_space_at(value, hi - 1)
        invariant
            n == value@.len(),
            lo <= hi <= n,
            forall|k: int| hi <= k < n ==> is_space(value@[k]),
        decreases hi,
    {
        hi = hi - 1;
    }
    proof {
        reveal_strlit("1");
        reveal_strlit("true");
        reveal_strlit("TRUE");
        reveal_strlit("yes");
        reveal_strlit("YES");
        reveal_strlit("on");
        reveal_strlit("ON");
        assert(lo < n ==> !is_space(value@[lo as int]));
        assert(hi > lo ==> !is_space(value@[hi - 1]));
        assert(trim_bounds(value@, lo as int, hi as int));
        assert forall|a: int, b: int| trim_bounds(value@, a, b) implies value@.subrange(a, b)
            == value@.subrange(lo as int, hi as int) by {
            if a < b {
                if lo < a {
                    assert(is_space(value@[lo as int]));
                }
                if b < hi {
                    assert(is_space(value@[hi - 1]));
                }
            } else {
                if lo < n {
                    if lo < a {
                        assert(is_space(value@[lo as int]));
                    } else {
                        assert(is_space(value@[lo as int]));
                    }
                }
                assert(value@.subrange(a, b) =~= value@.subrange(lo as int, hi as int));
            }
        }
    }
    spells_at(value, lo, hi, "1", "1") || spells_at(value, lo, hi, "true", "TRUE")
        || spells_at(value, lo, hi, "yes", "YES") || spells_at(value, lo, hi, "on", "ON")
}

} // verus!
