//! `LIKE` patterns: escaping a text so that it is matched literally.

use crate::text::chars_of;
use vstd::prelude::*;

verus! {

/// What stands for one character in a pattern whose escape character is the backslash.
pub open spec fn escaped_char(c: char) -> Seq<char> {
    if c == '\\' || c == '%' || c == '_' {
        seq!['\\', c]
    } else {
        seq![c]
    }
}

/// The pattern that stands for the text `s` itself.
pub open spec fn escaped(s: Seq<char>) -> Seq<char>
    decreases s.len(),
{
    if s.len() == 0 {
        seq![]
    } else {
        escaped_char(s[0]) + escaped(s.drop_first())
    }
}

/// Whether the text `t` matches the pattern `p`: a percent sign stands for any characters, an
/// underscore for one character, and a backslash makes the character behind it stand for itself.
/// `same` says which characters count as equal.
pub open spec fn like(p: Seq<char>, t: Seq<char>, same: spec_fn(char, char) -> bool) -> bool
    decreases p.len(), t.len(),
{
    if p.len() == 0 {
        t.len() == 0
    } else if p[0] == '\\' && p.len() >= 2 {
        t.len() > 0 && same(p[1], t[0]) && like(p.skip(2), t.drop_first(), same)
    } else if p[0] == '%' {
        like(p.drop_first(), t, same) || (t.len() > 0 && like(p, t.drop_first(), same))
    } else if p[0] == '_' {
        t.len() > 0 && like(p.drop_first(), t.drop_first(), same)
    } else {
        t.len() > 0 && same(p[0], t[0]) && like(p.drop_first(), t.drop_first(), same)
    }
}

/// Whether `t` carries the text `s` from position `k` on, character by character.
pub open spec fn occurs_at(
    s: Seq<char>,
    t: Seq<char>,
    k: int,
    same: spec_fn(char, char) -> bool,
) -> bool {
    0 <= k && k + s.len() <= t.len() && forall|i: int|
        0 <= i < s.len() ==> same(#[trigger] s[i], t[k + i])
}

proof fn lemma_escaped_push(s: Seq<char>, c: char)
    ensures
        escaped(s.push(c)) == escaped(s) + escaped_char(c),
    decreases s.len(),
{
    if s.len() == 0 {
        assert(s.push(c).drop_first() =~= seq![]);
        assert(escaped_char(c) + escaped(seq![]) =~= escaped(s) + escaped_char(c));
    } else {
        lemma_escaped_push(s.drop_first(), c);
        assert(s.push(c).drop_first() =~= s.drop_first().push(c));
        assert(escaped_char(s[0]) + (escaped(s.drop_first()) + escaped_char(c)) =~= escaped(s)
            + escaped_char(c));
    }
}

/// One character of the text and the pattern that stands for it are consumed together.
proof fn lemma_like_step(
    c: char,
    rest: Seq<char>,
    t: Seq<char>,
    same: spec_fn(char, char) -> bool,
)
    ensures
        like(escaped_char(c) + rest, t, same) == (t.len() > 0 && same(c, t[0]) && like(
            rest,
            t.drop_first(),
            same,
        )),
{
    let p = escaped_char(c) + rest;
    if c == '\\' || c == '%' || c == '_' {
        assert(p.skip(2) =~= rest);
    } else {
        assert(p.drop_first() =~= rest);
    }
}

proof fn lemma_like_prefix(
    s: Seq<char>,
    rest: Seq<char>,
    t: Seq<char>,
    same: spec_fn(char, char) -> bool,
)
    ensures
        like(escaped(s) + rest, t, same) == (occurs_at(s, t, 0, same) && like(
            rest,
            t.skip(s.len() as int),
            same,
        )),
    decreases s.len(),
{
    if s.len() == 0 {
        assert(escaped(s) + rest =~= rest);
        assert(t.skip(0) =~= t);
    } else {
        let tail = s.drop_first();
        assert(escaped(s) + rest =~= escaped_char(s[0]) + (escaped(tail) + rest));
        lemma_like_step(s[0], escaped(tail) + rest, t, same);
        if t.len() > 0 {
            let u = t.drop_first();
            lemma_like_prefix(tail, rest, u, same);
            assert(occurs_at(s, t, 0, same) == (same(s[0], t[0]) && occurs_at(tail, u, 0, same)))
                by {
                if occurs_at(s, t, 0, same) {
                    assert(same(s[0], t[0]));
                    assert forall|i: int| 0 <= i < tail.len() implies same(
                        #[trigger] tail[i],
                        u[0 + i],
                    ) by {
                        assert(same(s[i + 1], t[0 + (i + 1)]));
                    }
                }
                if same(s[0], t[0]) && occurs_at(tail, u, 0, same) {
                    assert forall|i: int| 0 <= i < s.len() implies same(
                        #[trigger] s[i],
                        t[0 + i],
                    ) by {
                        if i > 0 {
                            assert(same(tail[i - 1], u[0 + (i - 1)]));
                        }
                    }
                }
            }
            if s.len() <= t.len() {
                assert(u.skip(tail.len() as int) =~= t.skip(s.len() as int));
            }
        }
    }
}

/// An escaped text, used as a pattern, matches exactly the texts that equal it character by
/// character.
pub proof fn lemma_escaped_matches_itself(
    s: Seq<char>,
    t: Seq<char>,
    same: spec_fn(char, char) -> bool,
)
    ensures
        like(escaped(s), t, same) == (t.len() == s.len() && occurs_at(s, t, 0, same)),
{
    lemma_like_prefix(s, seq![], t, same);
    assert(escaped(s) + seq![] =~= escaped(s));
}

proof fn lemma_like_any_tail(t: Seq<char>, same: spec_fn(char, char) -> bool)
    ensures
        like(seq!['%'], t, same),
    decreases t.len(),
{
    reveal_with_fuel(like, 2);
    assert(seq!['%'].drop_first() =~= seq![]);
    if t.len() > 0 {
        lemma_like_any_tail(t.drop_first(), same);
    }
}

/// An escaped text between two percent signs matches exactly the texts that carry it somewhere.
pub proof fn lemma_escaped_matches_inside(
    s: Seq<char>,
    t: Seq<char>,
    same: spec_fn(char, char) -> bool,
)
    ensures
        like(seq!['%'] + escaped(s) + seq!['%'], t, same) == exists|k: int|
            occurs_at(s, t, k, same),
    decreases t.len(),
{
    let p = seq!['%'] + escaped(s) + seq!['%'];
    assert(p.drop_first() =~= escaped(s) + seq!['%']);
    lemma_like_prefix(s, seq!['%'], t, same);
    if s.len() <= t.len() {
        lemma_like_any_tail(t.skip(s.len() as int), same);
    }
    assert(like(escaped(s) + seq!['%'], t, same) == occurs_at(s, t, 0, same));
    if t.len() > 0 {
        let u = t.drop_first();
        lemma_escaped_matches_inside(s, u, same);
        assert((exists|k: int| occurs_at(s, t, k, same)) == (occurs_at(s, t, 0, same) || exists|
            k: int,
        |
            occurs_at(s, u, k, same))) by {
            if exists|k: int| occurs_at(s, t, k, same) {
                let k = choose|k: int| occurs_at(s, t, k, same);
                if k > 0 {
                    assert(occurs_at(s, u, k - 1, same)) by {
                        assert forall|i: int| 0 <= i < s.len() implies same(
                        #[trigger] s[i],
                            u[k - 1 + i],
                        ) by {
                            assert(same(s[i], t[k + i]));
                        }
                    }
                }
            }
            if exists|k: int| occurs_at(s, u, k, same) {
                let k = choose|k: int| occurs_at(s, u, k, same);
                assert(occurs_at(s, t, k + 1, same)) by {
                    assert forall|i: int| 0 <= i < s.len() implies same(
                        #[trigger] s[i],
                        t[k + 1 + i],
                    ) by {
                        assert(same(s[i], u[k + i]));
                    }
                }
            }
        }
    } else {
        if exists|k: int| occurs_at(s, t, k, same) {
            let k = choose|k: int| occurs_at(s, t, k, same);
            assert(k == 0);
        }
    }
}

/// Escape special LIKE pattern characters (%, _, \) for literal matching.
///
/// Use with `LIKE ? ESCAPE '\\'` in SQL queries.
pub fn escape_like_pattern(s: &str) -> (r: String)
    ensures
        r@ == escaped(s@),
{
    let chars = chars_of(s);
    let mut out = String::new();
    let mut i: usize = 0;
    while i < chars.len()
        invariant
            chars@ == s@,
            i <= chars.len(),
            out@ == escaped(s@.take(i as int)),
        decreases chars.len() - i,
    {
        let c: char = chars[i];
        let ghost before = out@;
        if c == '\\' || c == '%' || c == '_' {
            out.push('\\');
        }
        out.push(c);
        proof {
            lemma_escaped_push(s@.take(i as int), c);
            assert(s@.take(i as int).push(c) =~= s@.take(i + 1));
            assert(out@ =~= before + escaped_char(c));
        }
        i += 1;
    }
    assert(s@.take(s@.len() as int) =~= s@);
    out
}

} // verus!
