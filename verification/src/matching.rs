//! Substring matching and global substitution on character sequences, with
//! the lemmas that show substitution leaves no occurrence of the replaced
//! pattern behind.

use vstd::prelude::*;

verus! {

/// `pat` occurs in `s` starting at position `i`.
pub open spec fn match_at(s: Seq<char>, pat: Seq<char>, i: int) -> bool {
    0 <= i && i + pat.len() <= s.len() && s.subrange(i, i + pat.len() as int) == pat
}

/// `pat` occurs somewhere in `s`.
pub open spec fn has_match(s: Seq<char>, pat: Seq<char>) -> bool {
    exists|i: int| match_at(s, pat, i)
}

/// `p` is a prefix of `s`.
pub open spec fn is_prefix(p: Seq<char>, s: Seq<char>) -> bool {
    p.len() <= s.len() && s.subrange(0, p.len() as int) == p
}

/// `s` with every (left-to-right, non-overlapping) occurrence of `pat`
/// replaced by `rep`. An empty `pat` replaces nothing.
pub open spec fn replace_all(s: Seq<char>, pat: Seq<char>, rep: Seq<char>) -> Seq<char>
    decreases s.len(),
{
    if s.len() == 0 {
        s
    } else if 1 <= pat.len() && pat.len() <= s.len() && s.subrange(0, pat.len() as int) == pat {
        rep + replace_all(s.skip(pat.len() as int), pat, rep)
    } else {
        seq![s[0]] + replace_all(s.skip(1), pat, rep)
    }
}

/// A match inside a subrange is a match in the whole sequence.
pub proof fn lemma_match_in_subrange(s: Seq<char>, a: int, b: int, pat: Seq<char>, i: int)
    requires
        0 <= a <= b <= s.len(),
        match_at(s.subrange(a, b), pat, i),
    ensures
        match_at(s, pat, a + i),
{
    assert(s.subrange(a + i, a + i + pat.len() as int) =~= s.subrange(a, b).subrange(
        i,
        i + pat.len() as int,
    ));
}

/// A match wholly inside `[a, b)` is a match of the subrange.
pub proof fn lemma_match_to_subrange(s: Seq<char>, a: int, b: int, pat: Seq<char>, i: int)
    requires
        0 <= a <= b <= s.len(),
        match_at(s, pat, i),
        a <= i,
        i + pat.len() <= b,
    ensures
        match_at(s.subrange(a, b), pat, i - a),
{
    assert(s.subrange(a, b).subrange(i - a, i - a + pat.len() as int) =~= s.subrange(
        i,
        i + pat.len() as int,
    ));
}

/// If a sequence has no match, neither has any of its subranges.
pub proof fn lemma_no_match_subrange(s: Seq<char>, a: int, b: int, pat: Seq<char>)
    requires
        !has_match(s, pat),
        0 <= a <= b <= s.len(),
    ensures
        !has_match(s.subrange(a, b), pat),
{
    if has_match(s.subrange(a, b), pat) {
        let i = choose|i: int| match_at(s.subrange(a, b), pat, i);
        lemma_match_in_subrange(s, a, b, pat, i);
    }
}

/// If `pat`'s first character does not occur in `u` and `pat` has no match in
/// `v`, then `u + v` has no match either.
pub proof fn lemma_no_match_concat(u: Seq<char>, v: Seq<char>, pat: Seq<char>)
    requires
        pat.len() >= 1,
        !u.contains(pat[0]),
        !has_match(v, pat),
    ensures
        !has_match(u + v, pat),
{
    if has_match(u + v, pat) {
        let i = choose|i: int| match_at(u + v, pat, i);
        assert((u + v).subrange(i, i + pat.len() as int)[0] == (u + v)[i]);
        assert((u + v)[i] == pat[0]);
        if i < u.len() {
            assert(u[i] == pat[0]);
            assert(u.contains(pat[0]));
        } else {
            assert(v.subrange(i - u.len(), i - u.len() + pat.len() as int) =~= (u + v).subrange(
                i,
                i + pat.len() as int,
            ));
            assert(match_at(v, pat, i - u.len()));
        }
    }
}

/// A sequence that nowhere holds `pat`'s first character has no match.
pub proof fn lemma_no_head_no_match(u: Seq<char>, pat: Seq<char>)
    requires
        pat.len() >= 1,
        !u.contains(pat[0]),
    ensures
        !has_match(u, pat),
{
    if has_match(u, pat) {
        let i = choose|i: int| match_at(u, pat, i);
        assert(u.subrange(i, i + pat.len() as int)[0] == u[i]);
        assert(u.contains(pat[0]));
    }
}

/// If the result of a substitution starts with a (proper) suffix of `tok`,
/// the input already did: the substitution cannot manufacture that suffix,
/// since `rep` holds neither end character of `tok` and does not occur in
/// `tok`'s interior.
proof fn lemma_replace_prefix_transfer(
    t: Seq<char>,
    pat: Seq<char>,
    rep: Seq<char>,
    tok: Seq<char>,
    k: int,
)
    requires
        1 <= pat.len(),
        1 <= rep.len(),
        1 <= k < tok.len(),
        !rep.contains(tok[0]),
        !rep.contains(tok[tok.len() - 1]),
        !has_match(tok.subrange(1, tok.len() as int), rep),
        is_prefix(tok.subrange(k, tok.len() as int), replace_all(t, pat, rep)),
    ensures
        is_prefix(tok.subrange(k, tok.len() as int), t),
    decreases t.len(),
{
    let m1 = tok.len() as int;
    let p = tok.subrange(k, m1);
    let r = replace_all(t, pat, rep);
    if t.len() == 0 {
        assert(r.len() == 0);
        assert(false);
    } else if 1 <= pat.len() && pat.len() <= t.len() && t.subrange(0, pat.len() as int) == pat {
        let rest = replace_all(t.skip(pat.len() as int), pat, rep);
        assert(r == rep + rest);
        if m1 - k <= rep.len() {
            // the whole suffix, its final character included, would lie in rep
            assert(r.subrange(0, p.len() as int)[m1 - k - 1] == r[m1 - k - 1]);
            assert(r[m1 - k - 1] == rep[m1 - k - 1]);
            assert(p[m1 - k - 1] == tok[m1 - 1]);
            assert(rep.contains(tok[m1 - 1]));
            assert(false);
        } else {
            // rep itself would sit inside tok's interior
            assert(tok.subrange(k, k + rep.len() as int) =~= r.subrange(0, rep.len() as int)) by {
                assert(forall|q: int|
                    0 <= q < rep.len() ==> #[trigger] tok.subrange(k, k + rep.len() as int)[q]
                        == r.subrange(0, p.len() as int)[q]);
            }
            assert(r.subrange(0, rep.len() as int) =~= rep);
            assert(match_at(tok, rep, k));
            lemma_match_to_subrange(tok, 1, m1, rep, k);
            assert(false);
        }
    } else {
        let rest = replace_all(t.skip(1), pat, rep);
        assert(r == seq![t[0]] + rest);
        assert(r.subrange(0, p.len() as int)[0] == r[0]);
        assert(t[0] == p[0]);
        assert(p[0] == tok[k]);
        if k + 1 == m1 {
            assert(t.subrange(0, 1) =~= p);
        } else {
            assert(is_prefix(tok.subrange(k + 1, m1), rest)) by {
                assert(rest.subrange(0, m1 - k - 1) =~= tok.subrange(k + 1, m1)) by {
                    assert(forall|q: int|
                        0 <= q < m1 - k - 1 ==> #[trigger] rest.subrange(0, m1 - k - 1)[q]
                            == r.subrange(0, p.len() as int)[q + 1]);
                }
            }
            lemma_replace_prefix_transfer(t.skip(1), pat, rep, tok, k + 1);
            assert(t.subrange(0, m1 - k) =~= p) by {
                assert(forall|q: int|
                    1 <= q < m1 - k ==> #[trigger] t.subrange(0, m1 - k)[q] == t.skip(1).subrange(
                        0,
                        m1 - k - 1,
                    )[q - 1]);
                assert(t.skip(1).subrange(0, m1 - k - 1) == tok.subrange(k + 1, m1));
                assert(forall|q: int|
                    1 <= q < m1 - k ==> #[trigger] tok.subrange(k + 1, m1)[q - 1] == p[q]);
            }
        }
    }
}

/// Substitution removes the pattern and creates no occurrence of a mention
/// token: if `tok` is the replaced pattern itself, or did not occur in the
/// input, it does not occur in the output — provided the replacement text
/// holds neither end character of `tok` and does not occur in `tok`'s
/// interior.
pub proof fn lemma_replace_no_match(t: Seq<char>, pat: Seq<char>, rep: Seq<char>, tok: Seq<char>)
    requires
        1 <= pat.len(),
        1 <= rep.len(),
        2 <= tok.len(),
        !rep.contains(tok[0]),
        !rep.contains(tok[tok.len() - 1]),
        !has_match(tok.subrange(1, tok.len() as int), rep),
        tok == pat || !has_match(t, tok),
    ensures
        !has_match(replace_all(t, pat, rep), tok),
    decreases t.len(),
{
    let m1 = tok.len() as int;
    let r = replace_all(t, pat, rep);
    if t.len() == 0 {
        if has_match(r, tok) {
            let i = choose|i: int| match_at(r, tok, i);
            assert(false);
        }
    } else if 1 <= pat.len() && pat.len() <= t.len() && t.subrange(0, pat.len() as int) == pat {
        let t2 = t.skip(pat.len() as int);
        let rest = replace_all(t2, pat, rep);
        assert(r == rep + rest);
        if !(tok == pat) {
            lemma_no_match_subrange(t, pat.len() as int, t.len() as int, tok);
        }
        lemma_replace_no_match(t2, pat, rep, tok);
        if has_match(r, tok) {
            let i = choose|i: int| match_at(r, tok, i);
            assert(r.subrange(i, i + m1)[0] == r[i]);
            assert(r[i] == tok[0]);
            if i < rep.len() {
                assert(rep[i] == tok[0]);
                assert(rep.contains(tok[0]));
            } else {
                assert(rest.subrange(i - rep.len(), i - rep.len() + m1) =~= r.subrange(i, i + m1));
                assert(match_at(rest, tok, i - rep.len()));
            }
            assert(false);
        }
    } else {
        let t2 = t.skip(1);
        let rest = replace_all(t2, pat, rep);
        assert(r == seq![t[0]] + rest);
        if !(tok == pat) {
            lemma_no_match_subrange(t, 1, t.len() as int, tok);
        }
        lemma_replace_no_match(t2, pat, rep, tok);
        if has_match(r, tok) {
            let i = choose|i: int| match_at(r, tok, i);
            if i >= 1 {
                assert(rest.subrange(i - 1, i - 1 + m1) =~= r.subrange(i, i + m1));
                assert(match_at(rest, tok, i - 1));
                assert(false);
            } else {
                // the match starts at 0: the input itself would start with tok
                assert(r.subrange(0, m1)[0] == r[0]);
                assert(t[0] == tok[0]);
                assert(is_prefix(tok.subrange(1, m1), rest)) by {
                    assert(rest.subrange(0, m1 - 1) =~= tok.subrange(1, m1)) by {
                        assert(forall|q: int|
                            0 <= q < m1 - 1 ==> #[trigger] rest.subrange(0, m1 - 1)[q]
                                == r.subrange(0, m1)[q + 1]);
                    }
                }
                lemma_replace_prefix_transfer(t2, pat, rep, tok, 1);
                assert(t.subrange(0, m1) =~= tok) by {
                    assert(forall|q: int|
                        1 <= q < m1 ==> #[trigger] t.subrange(0, m1)[q] == t2.subrange(
                            0,
                            m1 - 1,
                        )[q - 1]);
                    assert(t2.subrange(0, m1 - 1) == tok.subrange(1, m1));
                    assert(forall|q: int|
                        1 <= q < m1 ==> #[trigger] tok.subrange(1, m1)[q - 1] == tok[q]);
                }
                if tok == pat {
                    assert(t.subrange(0, pat.len() as int) == pat);
                    assert(false);
                } else {
                    assert(match_at(t, tok, 0));
                    assert(false);
                }
            }
        }
    }
}

/// Decide whether `pat` occurs in `s` at position `i`.
pub fn matches_at(s: &Vec<char>, pat: &Vec<char>, i: usize) -> (b: bool)
    ensures
        b == match_at(s@, pat@, i as int),
{
    let n: usize = s.len();
    if pat.len() > n || i > n - pat.len() {
        return false;
    }
    let mut k: usize = 0;
    while k < pat.len()
        invariant
            n == s@.len(),
            i + pat@.len() <= n,
            k <= pat@.len(),
            forall|q: int| 0 <= q < k ==> s@[i + q] == pat@[q],
        decreases pat@.len() - k,
    {
        proof {
            assert(i + k < n);
        }
        if s[i + k] != pat[k] {
            proof {
                assert(s@.subrange(i as int, i + pat@.len() as int)[k as int] == s@[i + k]);
            }
            return false;
        }
        k = k + 1;
    }
    proof {
        assert(s@.subrange(i as int, i + pat@.len() as int) =~= pat@);
    }
    true
}

pub(crate) fn append_chars(out: &mut Vec<char>, more: &Vec<char>)
    ensures
        final(out)@ == old(out)@ + more@,
{
    let mut k: usize = 0;
    while k < more.len()
        invariant
            k <= more@.len(),
            out@ == old(out)@ + more@.subrange(0, k as int),
        decreases more@.len() - k,
    {
        out.push(more[k]);
        proof {
            assert(old(out)@ + more@.subrange(0, k + 1) =~= (old(out)@ + more@.subrange(
                0,
                k as int,
            )).push(more@[k as int]));
        }
        k = k + 1;
    }
    proof {
        assert(more@.subrange(0, more@.len() as int) =~= more@);
    }
}

/// Replace every occurrence of `pat` in `s` by `rep`, scanning left to right.
pub fn replace_all_chars(s: &Vec<char>, pat: &Vec<char>, rep: &Vec<char>) -> (r: Vec<char>)
    requires
        pat@.len() >= 1,
    ensures
        r@ == replace_all(s@, pat@, rep@),
{
    let mut out: Vec<char> = Vec::new();
    let mut i: usize = 0;
    proof {
        assert(s@.skip(0) =~= s@);
        assert(Seq::<char>::empty() + replace_all(s@, pat@, rep@) =~= replace_all(s@, pat@, rep@));
    }
    while i < s.len()
        invariant
            pat@.len() >= 1,
            i <= s@.len(),
            replace_all(s@, pat@, rep@) == out@ + replace_all(s@.skip(i as int), pat@, rep@),
        decreases s@.len() - i,
    {
        let ghost pre = out@;
        let ghost tail = s@.skip(i as int);
        if matches_at(s, pat, i) {
            append_chars(&mut out, rep);
            proof {
                assert(tail.subrange(0, pat@.len() as int) =~= s@.subrange(
                    i as int,
                    i + pat@.len() as int,
                ));
                assert(tail.skip(pat@.len() as int) =~= s@.skip(i + pat@.len()));
                assert(replace_all(tail, pat@, rep@) == rep@ + replace_all(
                    s@.skip(i + pat@.len()),
                    pat@,
                    rep@,
                ));
                assert(pre + (rep@ + replace_all(s@.skip(i + pat@.len()), pat@, rep@)) =~= (pre
                    + rep@) + replace_all(s@.skip(i + pat@.len()), pat@, rep@));
            }
            i = i + pat.len();
        } else {
            out.push(s[i]);
            proof {
                assert(tail.len() > 0);
                assert(tail[0] == s@[i as int]);
                if pat@.len() <= tail.len() {
                    assert(tail.subrange(0, pat@.len() as int) =~= s@.subrange(
                        i as int,
                        i + pat@.len() as int,
                    ));
                }
                assert(tail.skip(1) =~= s@.skip(i + 1));
                assert(replace_all(tail, pat@, rep@) == seq![s@[i as int]] + replace_all(
                    s@.skip(i + 1),
                    pat@,
                    rep@,
                ));
                assert(pre + (seq![s@[i as int]] + replace_all(s@.skip(i + 1), pat@, rep@))
                    =~= pre.push(s@[i as int]) + replace_all(s@.skip(i + 1), pat@, rep@));
            }
            i = i + 1;
        }
    }
    proof {
        assert(s@.skip(s@.len() as int) =~= Seq::<char>::empty());
        assert(out@ + Seq::<char>::empty() =~= out@);
    }
    out
}

} // verus!
