//! SQLite's `LIKE` operator as the library's search uses it: `%` matches any
//! run of characters, `_` matches one character, ASCII letters match either
//! case, and there is no escape character.

use vstd::prelude::*;

use crate::text::{fold_ascii, fold_char};

verus! {

/// How long (in UTF-8 bytes) a `LIKE` pattern may be before SQLite refuses
/// it as too complex.
pub const LIKE_PATTERN_LIMIT: usize = 50000;

/// A pattern character matches a text character when they are equal, or
/// when both are ASCII and equal after lowering.
pub open spec fn like_char(p: char, c: char) -> bool {
    p == c || ((p as u32) < 0x80 && (c as u32) < 0x80 && fold_char(p) == fold_char(c))
}

pub open spec fn like_match(p: Seq<char>, s: Seq<char>) -> bool
    decreases p.len() + s.len(),
{
    if p.len() == 0 {
        s.len() == 0
    } else if p[0] == '%' {
        like_match(p.drop_first(), s) || (s.len() > 0 && like_match(p, s.drop_first()))
    } else if s.len() == 0 {
        false
    } else if p[0] == '_' {
        like_match(p.drop_first(), s.drop_first())
    } else {
        like_char(p[0], s[0]) && like_match(p.drop_first(), s.drop_first())
    }
}

fn like_char_exec(p: char, c: char) -> (b: bool)
    ensures
        b == like_char(p, c),
{
    p == c || ((p as u32) < 0x80 && (c as u32) < 0x80 && fold_ascii(p) == fold_ascii(c))
}

/// Whether text `s` matches pattern `p` (by dynamic programming over the
/// suffixes of both).
pub fn like(p: &Vec<char>, s: &Vec<char>) -> (b: bool)
    ensures
        b == like_match(p@, s@),
{
    let n = s.len();
    let m = p.len();
    // next[j] == like_match(p[i+1..], s[j..])
    let mut next: Vec<bool> = Vec::new();
    let mut j: usize = 0;
    assert(p@.skip(m as int).len() == 0);
    while j < n
        invariant
            n == s.len(),
            m == p.len(),
            0 <= j <= n,
            next@.len() == j,
            p@.skip(m as int).len() == 0,
            forall|k: int| 0 <= k < j ==> next@[k] == like_match(p@.skip(m as int), s@.skip(k)),
        decreases n - j,
    {
        next.push(false);
        j = j + 1;
    }
    next.push(true);
    let mut i: usize = m;
    while i > 0
        invariant
            n == s.len(),
            m == p.len(),
            0 <= i <= m,
            next@.len() == n + 1,
            forall|k: int| 0 <= k <= n ==> #[trigger] next@[k] == like_match(p@.skip(i as int), s@.skip(k)),
        decreases i,
    {
        let pi = i - 1;
        let c = p[pi];
        assert(p@.skip(pi as int).drop_first() =~= p@.skip(i as int));
        assert(p@.skip(pi as int)[0] == c);
        let mut cur: Vec<bool> = Vec::new();
        let mut k: usize = 0;
        while k < n
            invariant
                0 <= k <= n,
                cur@.len() == k,
            decreases n - k,
        {
            cur.push(false);
            k = k + 1;
        }
        // the empty suffix of the text
        assert(s@.skip(n as int).len() == 0);
        cur.push(if c == '%' { next[n] } else { false });
        // then cur[j] for j = n - 1 down to 0
        let mut j: usize = n;
        while j > 0
            invariant
                n == s.len(),
                m == p.len(),
                0 <= j <= n,
                0 <= pi < m,
                c == p@[pi as int],
                p@.skip(pi as int).drop_first() == p@.skip(pi + 1),
                p@.skip(pi as int)[0] == c,
                cur@.len() == n + 1,
                next@.len() == n + 1,
                forall|k: int| 0 <= k <= n ==> #[trigger] next@[k] == like_match(p@.skip(pi + 1), s@.skip(k)),
                forall|k: int| j <= k <= n ==> #[trigger] cur@[k] == like_match(p@.skip(pi as int), s@.skip(k)),
            decreases j,
        {
            let jj = j - 1;
            let ghost ps = p@.skip(pi as int);
            let ghost ss = s@.skip(jj as int);
            assert(ss.drop_first() =~= s@.skip(jj + 1));
            assert(ss[0] == s@[jj as int]);
            let v = if c == '%' {
                next[jj] || cur[jj + 1]
            } else if c == '_' {
                next[jj + 1]
            } else {
                like_char_exec(c, s[jj]) && next[jj + 1]
            };
            assert(v == like_match(ps, ss));
            cur.set(jj, v);
            j = jj;
        }
        next = cur;
        i = pi;
    }
    assert(p@.skip(0) =~= p@);
    assert(s@.skip(0) =~= s@);
    next[0]
}

} // verus!
