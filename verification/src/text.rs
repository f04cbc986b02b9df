//! Texts and the order in which they are listed: lexicographic, by code point.

use vstd::prelude::*;

verus! {

/// The texts of a list of strings.
pub open spec fn texts(names: Seq<String>) -> Seq<Seq<char>> {
    names.map_values(|s: String| s@)
}

/// `a` stands before `b`, or equals it, when the two are compared code point
/// by code point from the left: the first position where they differ decides,
/// and a text stands before every longer text that starts with it.
pub open spec fn lex_le(a: Seq<char>, b: Seq<char>) -> bool
    decreases a.len(),
{
    if a.len() == 0 {
        true
    } else if b.len() == 0 {
        false
    } else if a[0] == b[0] {
        lex_le(a.drop_first(), b.drop_first())
    } else {
        (a[0] as int) < (b[0] as int)
    }
}

/// The two texts agree before position `at`, and there `a` holds the smaller
/// code point.
pub open spec fn smaller_at(a: Seq<char>, b: Seq<char>, at: int) -> bool {
    &&& 0 <= at < a.len()
    &&& at < b.len()
    &&& a.take(at) == b.take(at)
    &&& (a[at] as int) < (b[at] as int)
}

/// The order is that of a dictionary: `a` stands before or at `b` exactly
/// when `b` starts with `a`, or the two agree up to a position where `a`
/// holds the smaller code point.
pub proof fn lex_le_is_dictionary_order(a: Seq<char>, b: Seq<char>)
    ensures
        lex_le(a, b) <==> (a.is_prefix_of(b) || exists|at: int| smaller_at(a, b, at)),
    decreases a.len(),
{
    if a.len() == 0 {
        assert(a.is_prefix_of(b));
    } else if b.len() == 0 {
    } else if a[0] == b[0] {
        let a1 = a.drop_first();
        let b1 = b.drop_first();
        lex_le_is_dictionary_order(a1, b1);
        if a1.is_prefix_of(b1) {
            assert(a =~= b.subrange(0, a.len() as int)) by {
                assert forall|k: int| 0 <= k < a.len() implies a[k] == b[k] by {
                    if k > 0 {
                        assert(a1[k - 1] == b1.subrange(0, a1.len() as int)[k - 1]);
                    }
                }
            }
        }
        if a.is_prefix_of(b) {
            assert(a1 =~= b1.subrange(0, a1.len() as int)) by {
                assert forall|k: int| 0 <= k < a1.len() implies a1[k] == b1[k] by {
                    assert(a[k + 1] == b.subrange(0, a.len() as int)[k + 1]);
                }
            }
        }
        if exists|at: int| smaller_at(a1, b1, at) {
            let at = choose|at: int| smaller_at(a1, b1, at);
            assert(a.take(at + 1) =~= b.take(at + 1)) by {
                assert forall|k: int| 0 <= k < at + 1 implies a[k] == b[k] by {
                    if k > 0 {
                        assert(a1.take(at)[k - 1] == b1.take(at)[k - 1]);
                    }
                }
            }
            assert(smaller_at(a, b, at + 1));
        }
        if exists|at: int| smaller_at(a, b, at) {
            let at = choose|at: int| smaller_at(a, b, at);
            assert(a1.take(at - 1) =~= b1.take(at - 1)) by {
                assert forall|k: int| 0 <= k < at - 1 implies a1[k] == b1[k] by {
                    assert(a.take(at)[k + 1] == b.take(at)[k + 1]);
                }
            }
            assert(smaller_at(a1, b1, at - 1));
        }
    } else {
        if a.is_prefix_of(b) {
            assert(a[0] == b.subrange(0, a.len() as int)[0]);
        }
        if exists|at: int| smaller_at(a, b, at) {
            let at = choose|at: int| smaller_at(a, b, at);
            if at > 0 {
                assert(a.take(at)[0] == b.take(at)[0]);
            }
        }
        if (a[0] as int) < (b[0] as int) {
            assert(a.take(0) =~= b.take(0));
            assert(smaller_at(a, b, 0));
        }
    }
}

/// Every text stands before or at itself.
pub proof fn lex_le_reflexive(a: Seq<char>)
    ensures
        lex_le(a, a),
    decreases a.len(),
{
    if a.len() > 0 {
        lex_le_reflexive(a.drop_first());
    }
}

/// Of two texts, one stands before or at the other.
pub proof fn lex_le_total(a: Seq<char>, b: Seq<char>)
    ensures
        lex_le(a, b) || lex_le(b, a),
    decreases a.len(),
{
    if a.len() > 0 && b.len() > 0 {
        if a[0] == b[0] {
            lex_le_total(a.drop_first(), b.drop_first());
        }
    }
}

/// Two texts that each stand before or at the other are the same text.
pub proof fn lex_le_antisymmetric(a: Seq<char>, b: Seq<char>)
    requires
        lex_le(a, b),
        lex_le(b, a),
    ensures
        a == b,
    decreases a.len(),
{
    if a.len() == 0 || b.len() == 0 {
        assert(a =~= b);
    } else {
        assert(a[0] == b[0]);
        lex_le_antisymmetric(a.drop_first(), b.drop_first());
        assert(a =~= seq![a[0]] + a.drop_first());
        assert(b =~= seq![b[0]] + b.drop_first());
    }
}

/// What stands before or at a text also stands before or at everything that
/// the text stands before or at.
pub proof fn lex_le_transitive(a: Seq<char>, b: Seq<char>, c: Seq<char>)
    requires
        lex_le(a, b),
        lex_le(b, c),
    ensures
        lex_le(a, c),
    decreases a.len(),
{
    if a.len() > 0 {
        if a[0] == b[0] && b[0] == c[0] {
            lex_le_transitive(a.drop_first(), b.drop_first(), c.drop_first());
        }
    }
}

/// Compares two texts in the order of [`lex_le`].
///
/// Each character is reached by walking the text from its start, so the cost
/// grows with the square of the length of the common prefix.
pub fn str_le(a: &str, b: &str) -> (le: bool)
    ensures
        le == lex_le(a@, b@),
{
    let n: usize = a.unicode_len();
    let m: usize = b.unicode_len();
    let mut i: usize = 0;
    proof {
        assert(a@.skip(0) =~= a@);
        assert(b@.skip(0) =~= b@);
    }
    while i < n && i < m
        invariant
            n == a@.len(),
            m == b@.len(),
            i <= n,
            i <= m,
            lex_le(a@, b@) == lex_le(a@.skip(i as int), b@.skip(i as int)),
        decreases n - i,
    {
        let x: char = a.get_char(i);
        let y: char = b.get_char(i);
        if x != y {
            return (x as u32) < (y as u32);
        }
        proof {
            assert(a@.skip(i as int).drop_first() =~= a@.skip(i + 1));
            assert(b@.skip(i as int).drop_first() =~= b@.skip(i + 1));
        }
        i += 1;
    }
    i == n
}

} // verus!
