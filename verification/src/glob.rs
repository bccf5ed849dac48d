//! Matching of the exclude patterns a routine may declare: `*` matches any
//! (possibly empty) run of characters, `?` matches exactly one character,
//! and every other character matches itself.

use vstd::prelude::*;

verus! {

/// Whether the pattern `p` matches the whole of the text `s`.
pub open spec fn glob_matches(p: Seq<char>, s: Seq<char>) -> bool
    decreases p.len(), s.len(),
{
    if p.len() == 0 {
        s.len() == 0
    } else if p[0] == '*' {
        glob_matches(p.drop_first(), s) || (s.len() > 0 && glob_matches(p, s.drop_first()))
    } else {
        s.len() > 0 && (p[0] == '?' || p[0] == s[0]) && glob_matches(
            p.drop_first(),
            s.drop_first(),
        )
    }
}

fn glob_step(p: &Vec<char>, s: &Vec<char>, i: usize, j: usize) -> (r: bool)
    requires
        i <= p@.len(),
        j <= s@.len(),
    ensures
        r == glob_matches(p@.skip(i as int), s@.skip(j as int)),
    decreases p@.len() - i, s@.len() - j,
{
    let ghost pv = p@.skip(i as int);
    let ghost sv = s@.skip(j as int);
    if i == p.len() {
        return j == s.len();
    }
    proof {
        assert(pv[0] == p@[i as int]);
        assert(pv.drop_first() =~= p@.skip(i as int + 1));
        if j < s@.len() {
            assert(sv[0] == s@[j as int]);
            assert(sv.drop_first() =~= s@.skip(j as int + 1));
        }
    }
    let c = p[i];
    if c == '*' {
        if glob_step(p, s, i + 1, j) {
            return true;
        }
        if j < s.len() {
            return glob_step(p, s, i, j + 1);
        }
        false
    } else {
        if j == s.len() {
            return false;
        }
        let t = s[j];
        if c == '?' || c == t {
            glob_step(p, s, i + 1, j + 1)
        } else {
            false
        }
    }
}

/// Whether the exclude pattern matches the whole of the text.
pub fn glob_match(pattern: &str, text: &str) -> (r: bool)
    ensures
        r == glob_matches(pattern@, text@),
{
    let p = crate::text::str_to_chars(pattern);
    let s = crate::text::str_to_chars(text);
    proof {
        assert(p@.skip(0) =~= pattern@);
        assert(s@.skip(0) =~= text@);
    }
    glob_step(&p, &s, 0, 0)
}

/// Whether some pattern of `patterns` matches the text.
pub open spec fn any_glob_matches(patterns: Seq<Seq<char>>, s: Seq<char>) -> bool {
    exists|k: int| 0 <= k < patterns.len() && glob_matches(patterns[k], s)
}

/// Whether some pattern of `patterns` matches the text.
pub fn any_glob_match(patterns: &Vec<String>, text: &str) -> (r: bool)
    ensures
        r == any_glob_matches(patterns@.map_values(|p: String| p@), text@),
{
    let ghost pats = patterns@.map_values(|p: String| p@);
    let mut k: usize = 0;
    while k < patterns.len()
        invariant
            k <= patterns@.len(),
            pats == patterns@.map_values(|p: String| p@),
            forall|m: int| 0 <= m < k ==> !glob_matches(pats[m], text@),
        decreases patterns@.len() - k,
    {
        if glob_match(patterns[k].as_str(), text) {
            proof {
                assert(glob_matches(pats[k as int], text@));
            }
            return true;
        }
        k += 1;
    }
    false
}

} // verus!
