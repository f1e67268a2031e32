//! The unordered pairs of body indices, in lexicographic order.
use vstd::prelude::*;
use itertools::Itertools;

verus! {

/// The pairs (`i`, `j`) with `i < j < n`, for one `i`, by increasing `j`.
pub open spec fn pair_row(n: int, i: int) -> Seq<(int, int)> {
    Seq::new(if n - i - 1 > 0 { (n - i - 1) as nat } else { 0 }, |d: int| (i, i + 1 + d))
}

/// The rows of the first `m` values of `i`, one after another.
pub open spec fn pairs_upto(n: int, m: int) -> Seq<(int, int)>
    decreases m,
{
    if m <= 0 {
        Seq::empty()
    } else {
        pairs_upto(n, m - 1) + pair_row(n, m - 1)
    }
}

/// All pairs (`i`, `j`) with `i < j < n`, in lexicographic order.
pub open spec fn lex_pairs(n: int) -> Seq<(int, int)> {
    pairs_upto(n, n)
}

/// A list of index pairs read as pairs of integers.
pub open spec fn pairs_as_ints(v: Seq<(usize, usize)>) -> Seq<(int, int)> {
    v.map_values(|p: (usize, usize)| (p.0 as int, p.1 as int))
}

/// Relies on `Itertools::combinations`: the 2-element combinations of
/// `0..n` come in lexicographic order of their indices, each pair once.
#[verifier::external_body]
pub(crate) fn index_pairs(n: usize) -> (r: Vec<(usize, usize)>)
    ensures
        pairs_as_ints(r@) == lex_pairs(n as int),
{
    (0..n).combinations(2).map(|c| (c[0], c[1])).collect()
}

/// Each row adds its length to the count of pairs before it.
pub proof fn lemma_pairs_upto_len(n: int, m: int)
    requires
        0 <= m < n,
    ensures
        pairs_upto(n, m + 1).len() == pairs_upto(n, m).len() + (n - m - 1),
{
}

/// The count of pairs before row `a` is at most the count before row `b`.
pub proof fn lemma_pairs_upto_grows(n: int, a: int, b: int)
    requires
        0 <= a <= b,
    ensures
        pairs_upto(n, a).len() <= pairs_upto(n, b).len(),
    decreases b,
{
    if b > a {
        lemma_pairs_upto_grows(n, a, b - 1);
    }
}

/// The pair at offset `d` of row `i` is (`i`, `i + 1 + d`).
pub proof fn lemma_pairs_upto_index(n: int, i: int, d: int, m: int)
    requires
        0 <= i < m,
        0 <= d < n - i - 1,
    ensures
        pairs_upto(n, i).len() + d < pairs_upto(n, m).len(),
        pairs_upto(n, m)[pairs_upto(n, i).len() + d] == (i, i + 1 + d),
    decreases m,
{
    if m > i + 1 {
        lemma_pairs_upto_index(n, i, d, m - 1);
    }
}

} // verus!
