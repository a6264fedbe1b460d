//! The lexicographic order of strings, and sorting lists of strings by it.
use vstd::prelude::*;
use crate::commands::parser::views;
use crate::text::chars_of;

verus! {

/// `a` comes before `b` or equals it, comparing characters by their code
/// point from the left; a proper prefix comes first. This is the order of
/// `str`, whose UTF-8 bytes compare the same way.
pub open spec fn lex_le(a: Seq<char>, b: Seq<char>) -> bool
    decreases a.len(),
{
    if a.len() == 0 {
        true
    } else if b.len() == 0 {
        false
    } else if a[0] != b[0] {
        (a[0] as u32) < (b[0] as u32)
    } else {
        lex_le(a.drop_first(), b.drop_first())
    }
}

/// `a` and `b` agree on their first `i` characters and differ at position `i`.
pub open spec fn first_difference_at(a: Seq<char>, b: Seq<char>, i: int) -> bool {
    0 <= i < a.len() && i < b.len() && a.take(i) == b.take(i) && a[i] != b[i]
}

/// The order is that of `str`: a string comes before every string that it
/// starts; otherwise the first character at which two strings differ
/// decides, by code point, whatever their lengths.
pub proof fn lex_le_is_str_order(a: Seq<char>, b: Seq<char>)
    ensures
        a.len() <= b.len() && b.take(a.len() as int) == a ==> lex_le(a, b),
        forall|i: int| #[trigger] first_difference_at(a, b, i) ==> (lex_le(a, b) <==> (a[i] as u32) < (b[i] as u32)),
    decreases a.len(),
{
    if a.len() > 0 && b.len() > 0 && a[0] == b[0] {
        lex_le_is_str_order(a.drop_first(), b.drop_first());
        if a.len() <= b.len() && b.take(a.len() as int) == a {
            assert(b.drop_first().take(a.drop_first().len() as int) =~= a.drop_first()) by {
                assert forall|k: int| 0 <= k < a.len() - 1 implies b.drop_first()[k] == a.drop_first()[k] by {
                    assert(b.take(a.len() as int)[k + 1] == b[k + 1]);
                }
            }
        }
        assert forall|i: int| #[trigger] first_difference_at(a, b, i) implies (lex_le(a, b) <==> (a[i] as u32) < (b[i] as u32)) by {
            assert(i > 0);
            assert(a.drop_first().take(i - 1) =~= b.drop_first().take(i - 1)) by {
                assert forall|k: int| 0 <= k < i - 1 implies a.drop_first()[k] == b.drop_first()[k] by {
                    assert(a.take(i)[k + 1] == b.take(i)[k + 1]);
                }
            }
            assert(first_difference_at(a.drop_first(), b.drop_first(), i - 1));
        }
    } else if a.len() > 0 && b.len() > 0 {
        assert forall|i: int| #[trigger] first_difference_at(a, b, i) implies i == 0 by {
            if i > 0 {
                assert(a.take(i)[0] == b.take(i)[0]);
            }
        }
        if a.len() <= b.len() && b.take(a.len() as int) == a {
            assert(b.take(a.len() as int)[0] == b[0]);
        }
    } else if a.len() > 0 {
        assert(b.take(a.len() as int) != a || a.len() > b.len());
    }
}

/// Each element comes before or equals the next ones.
pub open spec fn sorted(s: Seq<Seq<char>>) -> bool {
    forall|i: int, j: int| 0 <= i < j < s.len() ==> lex_le(#[trigger] s[i], #[trigger] s[j])
}

/// Any two strings are ordered one way or the other.
pub proof fn lemma_lex_total(a: Seq<char>, b: Seq<char>)
    ensures
        lex_le(a, b) || lex_le(b, a),
    decreases a.len(),
{
    if a.len() > 0 && b.len() > 0 {
        if a[0] == b[0] {
            lemma_lex_total(a.drop_first(), b.drop_first());
        } else {
            vstd::utf8::char_u32_cast(a[0], a[0] as u32);
            vstd::utf8::char_u32_cast(b[0], b[0] as u32);
        }
    }
}

/// Strings ordered both ways are equal.
pub proof fn lemma_lex_antisymmetric(a: Seq<char>, b: Seq<char>)
    requires
        lex_le(a, b),
        lex_le(b, a),
    ensures
        a == b,
    decreases a.len(),
{
    if a.len() == 0 {
        assert(b.len() == 0);
        assert(a =~= b);
    } else {
        lemma_lex_antisymmetric(a.drop_first(), b.drop_first());
        assert(a =~= seq![a[0]] + a.drop_first());
        assert(b =~= seq![b[0]] + b.drop_first());
    }
}

/// The order is transitive.
pub proof fn lemma_lex_transitive(a: Seq<char>, b: Seq<char>, c: Seq<char>)
    requires
        lex_le(a, b),
        lex_le(b, c),
    ensures
        lex_le(a, c),
    decreases a.len(),
{
    if a.len() > 0 && b.len() > 0 && c.len() > 0 && a[0] == b[0] && b[0] == c[0] {
        lemma_lex_transitive(a.drop_first(), b.drop_first(), c.drop_first());
    }
}

/// Whether `a` comes before `b` or equals it.
pub fn lex_le_chars(a: &Vec<char>, b: &Vec<char>) -> (r: bool)
    ensures
        r == lex_le(a@, b@),
{
    let mut i: usize = 0;
    assert(a@.skip(0) =~= a@);
    assert(b@.skip(0) =~= b@);
    while i < a.len() && i < b.len() && a[i] == b[i]
        invariant
            i <= a@.len(),
            i <= b@.len(),
            lex_le(a@, b@) == lex_le(a@.skip(i as int), b@.skip(i as int)),
        decreases a@.len() - i,
    {
        assert(a@.skip(i as int).drop_first() =~= a@.skip(i + 1));
        assert(b@.skip(i as int).drop_first() =~= b@.skip(i + 1));
        i = i + 1;
    }
    if i == a.len() {
        true
    } else if i == b.len() {
        false
    } else {
        assert(a@.skip(i as int)[0] == a@[i as int]);
        assert(b@.skip(i as int)[0] == b@[i as int]);
        (a[i] as u32) < (b[i] as u32)
    }
}

/// The strings of `v` in ascending order. The sort is stable; as equal
/// strings are identical, the result is the only sorted arrangement of `v`.
pub fn sort_strings(v: Vec<String>) -> (r: Vec<String>)
    ensures
        sorted(views(r@)),
        views(r@).to_multiset() == views(v@).to_multiset(),
{
    broadcast use vstd::seq_lib::group_to_multiset_ensures;

    let mut out: Vec<String> = Vec::new();
    let mut keys: Vec<Vec<char>> = Vec::new();
    let mut i: usize = 0;
    while i < v.len()
        invariant
            i <= v@.len(),
            keys@.len() == out@.len(),
            forall|k: int| 0 <= k < keys@.len() ==> #[trigger] keys@[k]@ == out@[k]@,
            sorted(views(out@)),
            views(out@).to_multiset() == views(v@).take(i as int).to_multiset(),
        decreases v@.len() - i,
    {
        let x = v[i].clone();
        let xk = chars_of(x.as_str());
        let mut p: usize = 0;
        while p < out.len() && lex_le_chars(&keys[p], &xk)
            invariant
                p <= out@.len(),
                keys@.len() == out@.len(),
                forall|k: int| 0 <= k < keys@.len() ==> #[trigger] keys@[k]@ == out@[k]@,
                xk@ == x@,
                forall|k: int| 0 <= k < p ==> lex_le(#[trigger] views(out@)[k], x@),
            decreases out@.len() - p,
        {
            p = p + 1;
        }
        let ghost old_out = views(out@);
        proof {
            if p < old_out.len() {
                lemma_lex_total(old_out[p as int], x@);
            }
            assert forall|k: int| p <= k < old_out.len() implies lex_le(x@, #[trigger] old_out[k]) by {
                if k > p {
                    lemma_lex_transitive(x@, old_out[p as int], old_out[k]);
                }
            }
        }
        out.insert(p, x);
        keys.insert(p, xk);
        let ghost new_out = views(out@);
        proof {
            assert(new_out =~= old_out.insert(p as int, x@));
            assert forall|a: int, b: int| 0 <= a < b < new_out.len() implies lex_le(
                #[trigger] new_out[a],
                #[trigger] new_out[b],
            ) by {
                if a < p && b == p {
                } else if a == p && b > p {
                    assert(new_out[b] == old_out[b - 1]);
                } else if a < p && b > p {
                    assert(new_out[b] == old_out[b - 1]);
                    lemma_lex_transitive(old_out[a], x@, old_out[b - 1]);
                } else if b < p {
                } else {
                    assert(new_out[a] == old_out[a - 1]);
                    assert(new_out[b] == old_out[b - 1]);
                }
            }
            assert(new_out.remove(p as int) =~= old_out);
            new_out.to_multiset_ensures();
            assert(new_out[p as int] == x@);
            assert(new_out.remove(p as int).to_multiset() =~= new_out.to_multiset().remove(x@));
            assert(new_out.to_multiset().contains(x@));
            assert(new_out.to_multiset() =~= old_out.to_multiset().insert(x@));
            assert(views(v@).take(i + 1) =~= views(v@).take(i as int).push(v@[i as int]@));
            views(v@).take(i as int).to_multiset_ensures();
            assert(x@ == v@[i as int]@);
        }
        i = i + 1;
    }
    assert(views(v@).take(v@.len() as int) =~= views(v@));
    out
}

/// There is one sorted arrangement of a list of strings: two sorted lists
/// that hold the same strings, as often each, are equal.
pub proof fn sorted_arrangement_is_unique(a: Seq<Seq<char>>, b: Seq<Seq<char>>)
    requires
        sorted(a),
        sorted(b),
        a.to_multiset() == b.to_multiset(),
    ensures
        a == b,
    decreases a.len(),
{
    broadcast use vstd::seq_lib::group_to_multiset_ensures;

    a.to_multiset_ensures();
    b.to_multiset_ensures();
    if a.len() == 0 {
        assert(b.len() == 0);
        assert(a =~= b);
    } else {
        assert(b.len() == a.len());
        assert(a.to_multiset().count(b[0]) > 0);
        assert(a.contains(b[0]));
        let i = choose|i: int| 0 <= i < a.len() && a[i] == b[0];
        assert(b.to_multiset().count(a[0]) > 0);
        assert(b.contains(a[0]));
        let j = choose|j: int| 0 <= j < b.len() && b[j] == a[0];
        if i > 0 {
            assert(lex_le(a[0], a[i]));
        } else {
            lemma_lex_total(a[0], a[0]);
        }
        if j > 0 {
            assert(lex_le(b[0], b[j]));
        } else {
            lemma_lex_total(b[0], b[0]);
        }
        lemma_lex_antisymmetric(a[0], b[0]);
        assert(a.remove(0) =~= a.drop_first());
        assert(b.remove(0) =~= b.drop_first());
        assert(a.drop_first().to_multiset() =~= a.to_multiset().remove(a[0]));
        assert(b.drop_first().to_multiset() =~= b.to_multiset().remove(b[0]));
        assert forall|x: int, y: int| 0 <= x < y < a.drop_first().len() implies lex_le(
            #[trigger] a.drop_first()[x],
            #[trigger] a.drop_first()[y],
        ) by {
            assert(a.drop_first()[x] == a[x + 1]);
            assert(a.drop_first()[y] == a[y + 1]);
        }
        assert forall|x: int, y: int| 0 <= x < y < b.drop_first().len() implies lex_le(
            #[trigger] b.drop_first()[x],
            #[trigger] b.drop_first()[y],
        ) by {
            assert(b.drop_first()[x] == b[x + 1]);
            assert(b.drop_first()[y] == b[y + 1]);
        }
        sorted_arrangement_is_unique(a.drop_first(), b.drop_first());
        assert forall|k: int| 0 <= k < a.len() implies a[k] == b[k] by {
            if k > 0 {
                assert(a[k] == a.drop_first()[k - 1]);
                assert(b[k] == b.drop_first()[k - 1]);
            }
        }
        assert(a =~= b);
    }
}

} // verus!
