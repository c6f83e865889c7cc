//! Character-level string operations: lexicographic comparison and
//! literal substring replacement, both against exact specifications.

use vstd::prelude::*;

verus! {

/// Lexicographic order on character sequences, comparing code points.
pub open spec fn lex_le(a: Seq<char>, b: Seq<char>) -> bool
    decreases a.len(),
{
    if a.len() == 0 {
        true
    } else if b.len() == 0 {
        false
    } else if a[0] as u32 == b[0] as u32 {
        lex_le(a.skip(1), b.skip(1))
    } else {
        (a[0] as u32) < (b[0] as u32)
    }
}

/// The order is total: of any two names, one sorts no later than the other.
pub proof fn lemma_lex_le_total(a: Seq<char>, b: Seq<char>)
    ensures
        lex_le(a, b) || lex_le(b, a),
    decreases a.len(),
{
    if a.len() == 0 || b.len() == 0 {
    } else if a[0] as u32 == b[0] as u32 {
        lemma_lex_le_total(a.skip(1), b.skip(1));
    }
}

/// The order is transitive.
pub proof fn lemma_lex_le_trans(a: Seq<char>, b: Seq<char>, c: Seq<char>)
    requires
        lex_le(a, b),
        lex_le(b, c),
    ensures
        lex_le(a, c),
    decreases a.len(),
{
    if a.len() == 0 || b.len() == 0 || c.len() == 0 {
    } else if a[0] as u32 == b[0] as u32 && b[0] as u32 == c[0] as u32 {
        lemma_lex_le_trans(a.skip(1), b.skip(1), c.skip(1));
    }
}

/// Comparing two sequences that agree on their first `i` characters
/// is the same as comparing their remainders.
proof fn lemma_lex_le_skip(a: Seq<char>, b: Seq<char>, i: int)
    requires
        0 <= i <= a.len(),
        i <= b.len(),
        forall|j: int| 0 <= j < i ==> a[j] as u32 == b[j] as u32,
    ensures
        lex_le(a, b) == lex_le(a.skip(i), b.skip(i)),
    decreases i,
{
    if i > 0 {
        assert(a.len() > 0 && b.len() > 0);
        assert(a[0] as u32 == b[0] as u32);
        assert(forall|j: int| 0 <= j < i - 1 ==> a.skip(1)[j] as u32 == b.skip(1)[j] as u32);
        lemma_lex_le_skip(a.skip(1), b.skip(1), i - 1);
        assert(a.skip(1).skip(i - 1) =~= a.skip(i));
        assert(b.skip(1).skip(i - 1) =~= b.skip(i));
    } else {
        assert(a.skip(0) =~= a);
        assert(b.skip(0) =~= b);
    }
}

/// The result of one left-to-right pass that rewrites every
/// non-overlapping occurrence of `from` in `s` to `to`.  An empty
/// `from` matches at every character boundary, so `to` is inserted
/// before and after every character of `s`.
pub open spec fn replace_spec(s: Seq<char>, from: Seq<char>, to: Seq<char>) -> Seq<char>
    decreases s.len(),
{
    if from.len() == 0 {
        if s.len() == 0 {
            to
        } else {
            to + seq![s[0]] + replace_spec(s.skip(1), from, to)
        }
    } else if s.len() < from.len() {
        s
    } else if s.subrange(0, from.len() as int) == from {
        to + replace_spec(s.skip(from.len() as int), from, to)
    } else {
        seq![s[0]] + replace_spec(s.skip(1), from, to)
    }
}

/// Whether `sub` occurs as a contiguous run inside `s`.
pub open spec fn contains_sub(s: Seq<char>, sub: Seq<char>) -> bool {
    exists|i: int| 0 <= i && i + sub.len() <= s.len() && #[trigger] s.subrange(
        i,
        i + sub.len() as int,
    ) == sub
}

/// A sequence free of any occurrence of a non-empty `from` is left
/// exactly as it is by the replacement pass.
pub proof fn lemma_replace_absent_identity(t: Seq<char>, from: Seq<char>, to: Seq<char>)
    requires
        from.len() > 0,
        !contains_sub(t, from),
    ensures
        replace_spec(t, from, to) == t,
    decreases t.len(),
{
    if t.len() >= from.len() {
        assert(t.subrange(0, from.len() as int) != from) by {
            if t.subrange(0, from.len() as int) == from {
                assert(0 <= 0 && 0 + from.len() <= t.len() && t.subrange(
                    0,
                    0 + from.len() as int,
                ) == from);
            }
        }
        assert(!contains_sub(t.skip(1), from)) by {
            if contains_sub(t.skip(1), from) {
                let i = choose|i: int|
                    0 <= i && i + from.len() <= t.skip(1).len() && #[trigger] t.skip(1).subrange(
                        i,
                        i + from.len() as int,
                    ) == from;
                assert(t.subrange(i + 1, i + 1 + from.len() as int) =~= t.skip(1).subrange(
                    i,
                    i + from.len() as int,
                ));
                assert(0 <= i + 1 && (i + 1) + from.len() <= t.len() && t.subrange(
                    i + 1,
                    (i + 1) + from.len() as int,
                ) == from);
            }
        }
        lemma_replace_absent_identity(t.skip(1), from, to);
        assert(seq![t[0]] + t.skip(1) =~= t);
    }
}

/// The replacement is a single pass, not a search for a fixpoint:
/// applying the same rule a second time is the identity precisely
/// when the first pass left no occurrence of the search string
/// behind.  (When `to` reintroduces `from`, a second pass rewrites
/// the result again.)
pub proof fn lemma_replace_idempotent_when_clean(s: Seq<char>, from: Seq<char>, to: Seq<char>)
    requires
        from.len() > 0,
        !contains_sub(replace_spec(s, from, to), from),
    ensures
        replace_spec(replace_spec(s, from, to), from, to) == replace_spec(s, from, to),
{
    lemma_replace_absent_identity(replace_spec(s, from, to), from, to);
}

/// Whether the characters of `s` starting at `i` spell out `from`.
fn matches_at(s: &str, s_len: usize, from: &str, from_len: usize, i: usize) -> (r: bool)
    requires
        s_len == s@.len(),
        from_len == from@.len(),
        i + from_len <= s_len,
    ensures
        r == (s@.subrange(i as int, i + from_len) == from@),
{
    let mut j: usize = 0;
    while j < from_len
        invariant
            s_len == s@.len(),
            from_len == from@.len(),
            i + from_len <= s_len,
            0 <= j <= from_len,
            forall|k: int| 0 <= k < j ==> s@[i + k] == from@[k],
        decreases from_len - j,
    {
        let cs = s.get_char(i + j);
        let cf = from.get_char(j);
        if cs != cf {
            proof {
                assert(s@.subrange(i as int, i + from_len)[j as int] == s@[i + j]);
            }
            return false;
        }
        j += 1;
    }
    proof {
        assert(s@.subrange(i as int, i + from_len) =~= from@);
    }
    true
}

/// Rewrites every non-overlapping occurrence of `from` in `s` to
/// `to`, in one pass from left to right.
pub fn replace_all(s: &str, from: &str, to: &str) -> (r: String)
    ensures
        r@ == replace_spec(s@, from@, to@),
{
    let s_len = s.unicode_len();
    let from_len = from.unicode_len();
    let mut out = String::new();
    let mut i: usize = 0;
    proof {
        assert(s@.skip(0) =~= s@);
    }
    if from_len == 0 {
        while i < s_len
            invariant
                s_len == s@.len(),
                from_len == from@.len(),
                from_len == 0,
                0 <= i <= s_len,
                replace_spec(s@, from@, to@) == out@ + replace_spec(s@.skip(i as int), from@, to@),
            decreases s_len - i,
        {
            out.append(to);
            let piece = s.substring_char(i, i + 1);
            out.append(piece);
            proof {
                let tail = s@.skip(i as int);
                assert(piece@ =~= seq![tail[0]]);
                assert(tail.skip(1) =~= s@.skip(i as int + 1));
                assert(out@ + replace_spec(s@.skip(i as int + 1), from@, to@) =~= replace_spec(
                    s@,
                    from@,
                    to@,
                ));
            }
            i += 1;
        }
        out.append(to);
        proof {
            assert(out@ =~= replace_spec(s@, from@, to@));
        }
        out
    } else {
        while from_len <= s_len && i <= s_len - from_len
            invariant
                s_len == s@.len(),
                from_len == from@.len(),
                from_len > 0,
                0 <= i <= s_len,
                replace_spec(s@, from@, to@) == out@ + replace_spec(s@.skip(i as int), from@, to@),
            decreases s_len - i,
        {
            proof {
                assert(s@.skip(i as int).subrange(0, from_len as int) =~= s@.subrange(
                    i as int,
                    i + from_len,
                ));
            }
            if matches_at(s, s_len, from, from_len, i) {
                out.append(to);
                proof {
                    assert(s@.skip(i as int).skip(from_len as int) =~= s@.skip(
                        i as int + from_len,
                    ));
                    assert(out@ + replace_spec(s@.skip(i as int + from_len), from@, to@)
                        =~= replace_spec(s@, from@, to@));
                }
                i += from_len;
            } else {
                let piece = s.substring_char(i, i + 1);
                out.append(piece);
                proof {
                    let tail = s@.skip(i as int);
                    assert(piece@ =~= seq![tail[0]]);
                    assert(tail.skip(1) =~= s@.skip(i as int + 1));
                    assert(out@ + replace_spec(s@.skip(i as int + 1), from@, to@) =~= replace_spec(
                        s@,
                        from@,
                        to@,
                    ));
                }
                i += 1;
            }
        }
        let rest = s.substring_char(i, s_len);
        out.append(rest);
        proof {
            assert(rest@ =~= s@.skip(i as int));
            assert(out@ =~= replace_spec(s@, from@, to@));
        }
        out
    }
}

/// Decides the lexicographic order on two names.
pub fn str_lex_le(a: &str, b: &str) -> (r: bool)
    ensures
        r == lex_le(a@, b@),
{
    let a_len = a.unicode_len();
    let b_len = b.unicode_len();
    let mut i: usize = 0;
    while i < a_len && i < b_len
        invariant
            a_len == a@.len(),
            b_len == b@.len(),
            0 <= i <= a_len,
            i <= b_len,
            forall|j: int| 0 <= j < i ==> a@[j] as u32 == b@[j] as u32,
        decreases a_len - i,
    {
        let ca = a.get_char(i) as u32;
        let cb = b.get_char(i) as u32;
        if ca != cb {
            proof {
                lemma_lex_le_skip(a@, b@, i as int);
            }
            return ca < cb;
        }
        i += 1;
    }
    proof {
        lemma_lex_le_skip(a@, b@, i as int);
    }
    a_len <= b_len
}

} // verus!
