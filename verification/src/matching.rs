use vstd::prelude::*;
use vstd::std_specs::iter::IteratorSpec;

verus! {

broadcast use vstd::string::group_string_axioms;

/// `needle` can be obtained from `haystack` by deleting characters:
/// there is a strictly increasing choice of positions in `haystack`
/// that spells out `needle`.
pub open spec fn is_subsequence(needle: Seq<char>, haystack: Seq<char>) -> bool {
    exists|pos: Seq<int>| embeds(pos, needle, haystack)
}

/// `pos` lists, for each character of `needle`, a position of `haystack`
/// holding that character, in strictly increasing order.
pub open spec fn embeds(pos: Seq<int>, needle: Seq<char>, haystack: Seq<char>) -> bool {
    &&& pos.len() == needle.len()
    &&& forall|i: int| 0 <= i < pos.len() ==> 0 <= #[trigger] pos[i] < haystack.len()
    &&& forall|i: int| 0 <= i < pos.len() ==> haystack[#[trigger] pos[i]] == needle[i]
    &&& forall|i: int, j: int| 0 <= i < j < pos.len() ==> #[trigger] pos[i] < #[trigger] pos[j]
}

/// Greedy left-to-right matching: each needle character takes the first
/// haystack character equal to it.
pub open spec fn greedy_match(needle: Seq<char>, haystack: Seq<char>) -> bool
    decreases haystack.len(),
{
    if needle.len() == 0 {
        true
    } else if haystack.len() == 0 {
        false
    } else if needle[0] == haystack[0] {
        greedy_match(needle.drop_first(), haystack.drop_first())
    } else {
        greedy_match(needle, haystack.drop_first())
    }
}

/// Shifts every position of an embedding by `d`.
spec fn shift(pos: Seq<int>, d: int) -> Seq<int> {
    pos.map_values(|x: int| x + d)
}

/// A successful greedy match yields an embedding.
proof fn lemma_greedy_witness(needle: Seq<char>, haystack: Seq<char>) -> (pos: Seq<int>)
    requires
        greedy_match(needle, haystack),
    ensures
        embeds(pos, needle, haystack),
    decreases haystack.len(),
{
    if needle.len() == 0 {
        Seq::empty()
    } else if needle[0] == haystack[0] {
        let rest = lemma_greedy_witness(needle.drop_first(), haystack.drop_first());
        let pos = seq![0int] + shift(rest, 1);
        assert forall|i: int, j: int| 0 <= i < j < pos.len() implies #[trigger] pos[i] < #[trigger] pos[j] by {
            if i > 0 {
                assert(rest[i - 1] < rest[j - 1]);
            }
        }
        assert forall|i: int| 0 <= i < pos.len() implies haystack[#[trigger] pos[i]] == needle[i] by {
            if i > 0 {
                assert(haystack.drop_first()[rest[i - 1]] == needle.drop_first()[i - 1]);
            }
        }
        pos
    } else {
        let rest = lemma_greedy_witness(needle, haystack.drop_first());
        let pos = shift(rest, 1);
        assert forall|i: int| 0 <= i < pos.len() implies haystack[#[trigger] pos[i]] == needle[i] by {
            assert(haystack.drop_first()[rest[i]] == needle[i]);
        }
        pos
    }
}

/// Any embedding implies that the greedy match succeeds.
proof fn lemma_embedding_greedy(pos: Seq<int>, needle: Seq<char>, haystack: Seq<char>)
    requires
        embeds(pos, needle, haystack),
    ensures
        greedy_match(needle, haystack),
    decreases haystack.len(),
{
    if needle.len() > 0 {
        assert(0 <= pos[0] < haystack.len());
        if needle[0] == haystack[0] {
            let rest = shift(pos.drop_first(), -1);
            assert forall|i: int| 0 <= i < rest.len() implies 0 <= #[trigger] rest[i] < haystack.drop_first().len() by {
                assert(pos[0] < pos[i + 1]);
            }
            assert forall|i: int| 0 <= i < rest.len() implies haystack.drop_first()[#[trigger] rest[i]] == needle.drop_first()[i] by {
                assert(pos[0] < pos[i + 1]);
                assert(haystack[pos[i + 1]] == needle[i + 1]);
            }
            assert forall|i: int, j: int| 0 <= i < j < rest.len() implies #[trigger] rest[i] < #[trigger] rest[j] by {
                assert(pos[i + 1] < pos[j + 1]);
            }
            lemma_embedding_greedy(rest, needle.drop_first(), haystack.drop_first());
        } else {
            assert(pos[0] != 0);
            let rest = shift(pos, -1);
            assert forall|i: int| 0 <= i < rest.len() implies 0 <= #[trigger] rest[i] < haystack.drop_first().len() by {
                if i > 0 {
                    assert(pos[0] < pos[i]);
                }
            }
            assert forall|i: int| 0 <= i < rest.len() implies haystack.drop_first()[#[trigger] rest[i]] == needle[i] by {
                if i > 0 {
                    assert(pos[0] < pos[i]);
                }
                assert(haystack[pos[i]] == needle[i]);
            }
            assert forall|i: int, j: int| 0 <= i < j < rest.len() implies #[trigger] rest[i] < #[trigger] rest[j] by {
                assert(pos[i] < pos[j]);
            }
            lemma_embedding_greedy(rest, needle, haystack.drop_first());
        }
    }
}

/// Greedy matching decides the subsequence relation exactly.
pub proof fn lemma_greedy_is_subsequence(needle: Seq<char>, haystack: Seq<char>)
    ensures
        greedy_match(needle, haystack) == is_subsequence(needle, haystack),
{
    if greedy_match(needle, haystack) {
        let pos = lemma_greedy_witness(needle, haystack);
        assert(embeds(pos, needle, haystack));
    }
    if is_subsequence(needle, haystack) {
        let pos = choose|pos: Seq<int>| embeds(pos, needle, haystack);
        lemma_embedding_greedy(pos, needle, haystack);
    }
}

/// An empty needle matches every haystack.
pub proof fn lemma_empty_needle_matches(haystack: Seq<char>)
    ensures
        is_subsequence(Seq::empty(), haystack),
{
    assert(embeds(Seq::<int>::empty(), Seq::empty(), haystack));
}

/// Being a subsequence is transitive: an embedding of `a` in `b` followed
/// by one of `b` in `c` gives one of `a` in `c`.
pub proof fn lemma_subsequence_transitive(a: Seq<char>, b: Seq<char>, c: Seq<char>)
    requires
        is_subsequence(a, b),
        is_subsequence(b, c),
    ensures
        is_subsequence(a, c),
{
    let q = choose|q: Seq<int>| embeds(q, a, b);
    let p = choose|p: Seq<int>| embeds(p, b, c);
    let r = Seq::new(q.len(), |i: int| p[q[i]]);
    assert forall|i: int| 0 <= i < r.len() implies 0 <= #[trigger] r[i] < c.len() by {
        assert(0 <= q[i] < b.len());
        assert(0 <= p[q[i]] < c.len());
    }
    assert forall|i: int| 0 <= i < r.len() implies c[#[trigger] r[i]] == a[i] by {
        assert(0 <= q[i] < b.len());
        assert(c[p[q[i]]] == b[q[i]]);
        assert(b[q[i]] == a[i]);
    }
    assert forall|i: int, j: int| 0 <= i < j < r.len() implies #[trigger] r[i] < #[trigger] r[j] by {
        assert(q[i] < q[j]);
        assert(0 <= q[i] < b.len() && 0 <= q[j] < b.len());
        assert(p[q[i]] < p[q[j]]);
    }
    assert(embeds(r, a, c));
}

/// Every prefix of a sequence is a subsequence of it.
pub proof fn lemma_prefix_is_subsequence(s: Seq<char>, k: int)
    requires
        0 <= k <= s.len(),
    ensures
        is_subsequence(s.take(k), s),
{
    let pos = Seq::new(k as nat, |i: int| i);
    assert(embeds(pos, s.take(k), s));
}

/// A match survives shortening the needle: whatever `haystack` matches,
/// it also matches with any subsequence of the needle.
pub proof fn lemma_shorter_needle_keeps_match(haystack: Seq<char>, needle: Seq<char>, shorter: Seq<char>)
    requires
        is_subsequence(needle, haystack),
        is_subsequence(shorter, needle),
    ensures
        is_subsequence(shorter, haystack),
{
    lemma_subsequence_transitive(shorter, needle, haystack);
}

/// A match survives deleting characters from the end of the needle, as
/// when the filter input is erased with Backspace.
pub proof fn lemma_needle_prefix_keeps_match(haystack: Seq<char>, needle: Seq<char>, k: int)
    requires
        is_subsequence(needle, haystack),
        0 <= k <= needle.len(),
    ensures
        is_subsequence(needle.take(k), haystack),
{
    lemma_prefix_is_subsequence(needle, k);
    lemma_subsequence_transitive(needle.take(k), needle, haystack);
}

/// A match survives lengthening the haystack: a needle that matches a
/// name matches every name that contains it as a subsequence.
pub proof fn lemma_longer_haystack_keeps_match(haystack: Seq<char>, longer: Seq<char>, needle: Seq<char>)
    requires
        is_subsequence(needle, haystack),
        is_subsequence(haystack, longer),
    ensures
        is_subsequence(needle, longer),
{
    lemma_subsequence_transitive(needle, haystack, longer);
}

/// Fuzzy match: every character of `needle` appears in `haystack` in order
/// (not necessarily contiguously); e.g. `delo` matches `deploy`.
pub fn fuzzy_match(haystack: &str, needle: &str) -> (r: bool)
    ensures
        r == is_subsequence(needle@, haystack@),
{
    proof {
        lemma_greedy_is_subsequence(needle@, haystack@);
    }
    let mut hs = haystack.chars();
    let mut ns = needle.chars();
    loop
        invariant
            greedy_match(needle@, haystack@) == greedy_match(ns.remaining(), hs.remaining()),
            ns.decrease() is Some,
            hs.decrease() is Some,
            greedy_match(needle@, haystack@) == is_subsequence(needle@, haystack@),
        decreases ns.decrease()->0,
    {
        let ghost needle_before = ns.remaining();
        match ns.next() {
            None => {
                return true;
            },
            Some(n) => {
                let ghost needle_rest = ns.remaining();
                assert(needle_before =~= seq![n] + needle_rest);
                loop
                    invariant_except_break
                        greedy_match(needle@, haystack@) == greedy_match(
                            seq![n] + needle_rest,
                            hs.remaining(),
                        ),
                    invariant
                        hs.decrease() is Some,
                        ns.remaining() == needle_rest,
                        greedy_match(needle@, haystack@) == is_subsequence(needle@, haystack@),
                    ensures
                        greedy_match(needle@, haystack@) == greedy_match(needle_rest, hs.remaining()),
                    decreases hs.decrease()->0,
                {
                    let ghost hay_before = hs.remaining();
                    match hs.next() {
                        None => {
                            return false;
                        },
                        Some(h) => {
                            assert((seq![n] + needle_rest).drop_first() =~= needle_rest);
                            if h == n {
                                break;
                            }
                        },
                    }
                }
            },
        }
    }
}

} // verus!
