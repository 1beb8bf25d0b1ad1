//! How blank references are numbered: the model numbers the blanks of a
//! quiz 0, 1, 2, ... in source order, and a fold quiz converts back exactly
//! when its references follow that numbering and use every blank.
use crate::ast::InlineV;
use crate::model::convert::{inlines_to_model, item_to_ast, restore_inlines_from};
use crate::model::types::{BlankM, InlineM, ItemM};
use vstd::prelude::*;

verus! {

/// The blank references among the first `n` inlines, in order.
pub open spec fn blank_references(v: Seq<InlineM>, n: int) -> Seq<u32>
    decreases n,
{
    if n <= 0 || n > v.len() {
        seq![]
    } else {
        match v[n - 1] {
            InlineM::Blank(i) => blank_references(v, n - 1).push(i),
            _ => blank_references(v, n - 1),
        }
    }
}

proof fn lemma_refs_prefix(v: Seq<InlineM>, w: Seq<InlineM>, n: int)
    requires
        0 <= n <= v.len(),
        n <= w.len(),
        forall|i: int| 0 <= i < n ==> v[i] == w[i],
    ensures
        blank_references(v, n) == blank_references(w, n),
    decreases n,
{
    if n > 0 {
        lemma_refs_prefix(v, w, n - 1);
    }
}

/// `r` counts up by one from `k`.
pub open spec fn counts_from(r: Seq<u32>, k: int) -> bool {
    forall|j: int| 0 <= j < r.len() ==> r[j] == k + j
}

proof fn lemma_counts_prefix(r: Seq<u32>, x: u32, k: int)
    ensures
        counts_from(r.push(x), k) <==> counts_from(r, k) && x == k + r.len(),
{
    if counts_from(r, k) && x == k + r.len() {
        assert forall|j: int| 0 <= j < r.push(x).len() implies r.push(x)[j] == k + j by {
            if j < r.len() {
                assert(r.push(x)[j] == r[j]);
            }
        }
    }
    if counts_from(r.push(x), k) {
        assert forall|j: int| 0 <= j < r.len() implies r[j] == k + j by {
            assert(r.push(x)[j] == r[j]);
        }
        assert(r.push(x)[r.len() as int] == x);
    }
}

/// Restoring the first `n` inlines from the blank cursor `k` succeeds exactly
/// when their blank references count up from `k` and stay among the blanks;
/// the cursor then moves past them.
pub proof fn lemma_restore_cursor(
    v: Seq<InlineM>,
    n: int,
    bs: Seq<BlankM>,
    location: Seq<char>,
    k: u32,
)
    requires
        0 <= n <= v.len(),
        k <= bs.len() <= u32::MAX,
    ensures
        restore_inlines_from(v, n, Some(bs), location, k) is Ok <==> (counts_from(
            blank_references(v, n),
            k as int,
        ) && k + blank_references(v, n).len() <= bs.len()),
        restore_inlines_from(v, n, Some(bs), location, k) is Ok ==> restore_inlines_from(
            v,
            n,
            Some(bs),
            location,
            k,
        )->Ok_0.1 == k + blank_references(v, n).len(),
    decreases n,
{
    if n > 0 {
        lemma_restore_cursor(v, n - 1, bs, location, k);
        let r = blank_references(v, n - 1);
        if let InlineM::Blank(i) = v[n - 1] {
            lemma_counts_prefix(r, i, k as int);
        }
    }
}

/// A fold quiz of the model converts to the syntax tree exactly when it has
/// blanks and its blank references are 0, 1, ..., one for each blank, in
/// order. A quiz with more than `u32::MAX` blanks is left out: the index after
/// its last blank does not fit.
pub proof fn lemma_fold_converts_iff(content: Seq<InlineM>, blanks: Seq<BlankM>)
    requires
        blanks.len() <= u32::MAX,
    ensures
        item_to_ast(ItemM::Fold { content, blanks }) is Ok <==> {
            &&& blanks.len() > 0
            &&& counts_from(blank_references(content, content.len() as int), 0)
            &&& blank_references(content, content.len() as int).len() == blanks.len()
        },
{
    lemma_restore_cursor(content, content.len() as int, blanks, "a fold quiz"@, 0);
}

// ---------------------------------------------------------------------
// From the tree: blanks are numbered as they are met.
/// Fold blanks among the first `n` inlines of the tree.
pub open spec fn tree_blank_count(v: Seq<InlineV>, n: int) -> nat
    decreases n,
{
    if n <= 0 || n > v.len() {
        0
    } else {
        tree_blank_count(v, n - 1) + if v[n - 1].kind is FoldBlank {
            1nat
        } else {
            0nat
        }
    }
}

/// Converting the first `n` inlines of the tree, with `bs` the blanks met
/// before, numbers their fold blanks `bs.len()`, `bs.len() + 1`, ... in
/// order and collects one more blank for each.
pub proof fn lemma_blank_numbering(v: Seq<InlineV>, n: int, bs: Seq<BlankM>)
    requires
        0 <= n <= v.len(),
        inlines_to_model(v, n, None, bs) is Ok,
    ensures
        ({
            let (xs, bs2) = inlines_to_model(v, n, None, bs)->Ok_0;
            &&& xs.len() == n
            &&& counts_from(blank_references(xs, n), bs.len() as int)
            &&& blank_references(xs, n).len() == tree_blank_count(v, n)
            &&& bs2.len() == bs.len() + tree_blank_count(v, n)
            &&& bs2.subrange(0, bs.len() as int) == bs
        }),
    decreases n,
{
    if n > 0 {
        lemma_blank_numbering(v, n - 1, bs);
        let (xs1, bs1) = inlines_to_model(v, n - 1, None, bs)->Ok_0;
        let (xs, bs2) = inlines_to_model(v, n, None, bs)->Ok_0;
        assert(xs == xs1.push(xs[n - 1]));
        lemma_refs_prefix(xs, xs1, n - 1);
        if let InlineM::Blank(i) = xs[n - 1] {
            lemma_counts_prefix(blank_references(xs1, n - 1), i, bs.len() as int);
            assert(bs2.subrange(0, bs.len() as int) =~= bs1.subrange(0, bs.len() as int));
        }
    }
}

} // verus!
