use vstd::prelude::*;

verus! {

/// A Unicode whitespace character (the `White_Space` property).
pub open spec fn is_space(c: char) -> bool {
    ('\u{9}' <= c && c <= '\u{D}') || c == ' ' || c == '\u{85}' || c == '\u{A0}' || c
        == '\u{1680}' || ('\u{2000}' <= c && c <= '\u{200A}') || c == '\u{2028}' || c
        == '\u{2029}' || c == '\u{202F}' || c == '\u{205F}' || c == '\u{3000}'
}

/// A character the address field accepts: an ASCII letter or digit, or one of `. _ - + @`.
pub open spec fn email_char(c: char) -> bool {
    ('a' <= c && c <= 'z') || ('A' <= c && c <= 'Z') || ('0' <= c && c <= '9') || c == '.' || c
        == '_' || c == '-' || c == '+' || c == '@'
}

/// A domain holds a `.` that is neither its first nor its last character.
pub open spec fn valid_domain(d: Seq<char>) -> bool {
    &&& d.len() > 0
    &&& d[0] != '.'
    &&& d[d.len() - 1] != '.'
    &&& exists|k: int| 0 <= k < d.len() && d[k] == '.'
}

/// `p` is the position of the one `@` in `s`.
pub open spec fn sole_at(s: Seq<char>, p: int) -> bool {
    &&& 0 <= p < s.len()
    &&& s[p] == '@'
    &&& forall|k: int| 0 <= k < s.len() && s[k] == '@' ==> k == p
}

/// An acceptable address: at least five characters, no whitespace, exactly one `@`,
/// a non-empty part before it and a valid domain after it.
pub open spec fn valid_email(s: Seq<char>) -> bool {
    &&& s.len() >= 5
    &&& forall|k: int| 0 <= k < s.len() ==> !is_space(s[k])
    &&& exists|p: int| sole_at(s, p) && p > 0 && valid_domain(s.subrange(p + 1, s.len() as int))
}

/// Whether the address field accepts `c` as typed input.
pub fn is_email_char(c: char) -> (r: bool)
    ensures
        r == email_char(c),
{
    ('a' <= c && c <= 'z') || ('A' <= c && c <= 'Z') || ('0' <= c && c <= '9') || c == '.' || c
        == '_' || c == '-' || c == '+' || c == '@'
}

fn is_space_char(c: char) -> (r: bool)
    ensures
        r == is_space(c),
{
    ('\u{9}' <= c && c <= '\u{D}') || c == ' ' || c == '\u{85}' || c == '\u{A0}' || c
        == '\u{1680}' || ('\u{2000}' <= c && c <= '\u{200A}') || c == '\u{2028}' || c
        == '\u{2029}' || c == '\u{202F}' || c == '\u{205F}' || c == '\u{3000}'
}

/// Whether `value` is an acceptable address.
pub fn is_valid_email(value: &str) -> (r: bool)
    ensures
        r == valid_email(value@),
{
    let n = value.unicode_len();
    if n < 5 {
        return false;
    }
    let mut i: usize = 0;
    let mut ats: usize = 0;
    let mut first_at: usize = 0;
    let ghost mut second_at: int = 0;
    while i < n
        invariant
            n == value@.len(),
            i <= n,
            ats <= 2,
            forall|k: int| 0 <= k < i ==> !is_space(value@[k]),
            ats == 0 ==> forall|k: int| 0 <= k < i ==> value@[k] != '@',
            ats >= 1 ==> first_at < i && value@[first_at as int] == '@',
            ats == 1 ==> forall|k: int| 0 <= k < i && value@[k] == '@' ==> k == first_at,
            ats == 2 ==> first_at < second_at < n && value@[second_at] == '@',
        decreases n - i,
    {
        let c = value.get_char(i);
        if is_space_char(c) {
            return false;
        }
        if c == '@' {
            if ats == 0 {
                first_at = i;
                ats = 1;
            } else if ats == 1 {
                proof {
                    second_at = i as int;
                }
                ats = 2;
            }
        }
        i = i + 1;
    }
    if ats != 1 {
        proof {
            assert forall|p: int| !sole_at(value@, p) by {
                if ats == 2 && 0 <= p < n && value@[p] == '@' {
                    if p == first_at {
                        assert(value@[second_at] == '@');
                    }
                }
            }
        }
        return false;
    }
    let p = first_at;
    let ghost dom = value@.subrange(p + 1, n as int);
    proof {
        assert(sole_at(value@, p as int));
        assert forall|q: int| sole_at(value@, q) implies q == p by {}
    }
    if p == 0 || p + 1 >= n {
        return false;
    }
    if value.get_char(p + 1) == '.' || value.get_char(n - 1) == '.' {
        return false;
    }
    let mut j: usize = p + 1;
    while j < n
        invariant
            n == value@.len(),
            p + 1 <= j <= n,
            dom == value@.subrange(p + 1, n as int),
            sole_at(value@, p as int),
            p > 0,
            p + 1 < n,
            value@[p + 1] != '.',
            value@[n - 1] != '.',
            n >= 5,
            forall|k: int| 0 <= k < n ==> !is_space(value@[k]),
            forall|q: int| sole_at(value@, q) ==> q == p,
            forall|k: int| p + 1 <= k < j ==> value@[k] != '.',
        decreases n - j,
    {
        if value.get_char(j) == '.' {
            proof {
                assert(dom[j - p - 1] == '.');
                assert(sole_at(value@, p as int) && p > 0 && valid_domain(dom));
            }
            return true;
        }
        j = j + 1;
    }
    proof {
        assert forall|k: int| 0 <= k < dom.len() implies dom[k] != '.' by {
            assert(dom[k] == value@[p + 1 + k]);
        }
    }
    false
}

} // verus!
