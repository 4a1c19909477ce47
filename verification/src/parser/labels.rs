//! The jump labels a parsed program carries, and their freshness: the
//! parser numbers labels from a counter, so every label of a program is
//! generated once, from the range of numbers its parse used.
use vstd::prelude::*;
use crate::parser::statement::Statement;
use crate::util::text::{decimal, lemma_decimal_injective};

verus! {

/// The text of the `n`-th generated label: `L` and the number.
pub open spec fn label_text(n: nat) -> Seq<char> {
    "L"@ + decimal(n)
}

/// The labels of a statement, those of its nested blocks included.
pub open spec fn stmt_labels(s: Statement) -> Seq<Seq<char>>
    decreases s, 1nat,
{
    match s {
        Statement::FunctionDecleration { body, .. } => block_labels(body@, body@.len()),
        Statement::If { label, body, else_label, else_body, .. } => block_labels(body@, body@.len()) + match else_body {
            Some(eb) => block_labels(eb@, eb@.len()),
            None => Seq::empty(),
        } + match else_label {
            Some(l) => seq![l@],
            None => Seq::empty(),
        } + seq![label@],
        Statement::While { body_label, body, cond_label, .. } => block_labels(body@, body@.len()) + seq![body_label@, cond_label@],
        Statement::Block(v) => block_labels(v@, v@.len()),
        _ => Seq::empty(),
    }
}

/// The labels of the first `n` statements of a list.
pub open spec fn block_labels(ss: Seq<Statement>, n: nat) -> Seq<Seq<char>>
    decreases ss, n,
{
    if n == 0 || n > ss.len() {
        Seq::empty()
    } else {
        block_labels(ss, (n - 1) as nat) + stmt_labels(ss[n - 1])
    }
}

/// `l` is the text of a label numbered in `[lo, hi)`.
pub open spec fn label_in(l: Seq<char>, lo: nat, hi: nat) -> bool {
    exists|k: nat| lo <= k < hi && l == #[trigger] label_text(k)
}

/// Labels numbered in `[lo, hi)`, none of them twice.
pub open spec fn fresh_labels(ls: Seq<Seq<char>>, lo: nat, hi: nat) -> bool {
    &&& ls.no_duplicates()
    &&& forall|i: int| 0 <= i < ls.len() ==> label_in(#[trigger] ls[i], lo, hi)
}

/// Different numbers give different labels.
pub proof fn lemma_label_text_injective(n: nat, m: nat)
    ensures
        label_text(n) == label_text(m) ==> n == m,
{
    reveal_strlit("L");
    if label_text(n) == label_text(m) {
        assert(decimal(n) =~= label_text(n).skip(1));
        assert(decimal(m) =~= label_text(m).skip(1));
        lemma_decimal_injective(n, m);
    }
}

/// A label of one range is no label of a range that does not overlap it.
pub proof fn lemma_label_ranges_apart(l: Seq<char>, lo1: nat, hi1: nat, lo2: nat, hi2: nat)
    requires
        label_in(l, lo1, hi1),
        hi1 <= lo2 || hi2 <= lo1,
    ensures
        !label_in(l, lo2, hi2),
{
    let k1 = choose|k: nat| lo1 <= k < hi1 && l == #[trigger] label_text(k);
    if label_in(l, lo2, hi2) {
        let k2 = choose|k: nat| lo2 <= k < hi2 && l == #[trigger] label_text(k);
        lemma_label_text_injective(k1, k2);
    }
}

/// No labels are fresh in any range.
pub proof fn lemma_fresh_empty(lo: nat, hi: nat)
    ensures
        fresh_labels(Seq::empty(), lo, hi),
{
}

/// One label is fresh in the range of its number.
pub proof fn lemma_fresh_one(k: nat)
    ensures
        fresh_labels(seq![label_text(k)], k, k + 1),
{
    assert(label_in(seq![label_text(k)][0], k, k + 1));
}

/// Fresh labels stay fresh in a wider range.
pub proof fn lemma_fresh_widen(ls: Seq<Seq<char>>, lo: nat, hi: nat, lo2: nat, hi2: nat)
    requires
        fresh_labels(ls, lo, hi),
        lo2 <= lo,
        hi <= hi2,
    ensures
        fresh_labels(ls, lo2, hi2),
{
    assert forall|i: int| 0 <= i < ls.len() implies label_in(#[trigger] ls[i], lo2, hi2) by {
        assert(label_in(ls[i], lo, hi));
        let k = choose|k: nat| lo <= k < hi && ls[i] == #[trigger] label_text(k);
        assert(ls[i] == label_text(k));
    }
}

/// Labels fresh in two ranges that do not overlap, taken together, are
/// fresh in a range that covers both.
pub proof fn lemma_fresh_concat(a: Seq<Seq<char>>, b: Seq<Seq<char>>, lo1: nat, hi1: nat, lo2: nat, hi2: nat, lo: nat, hi: nat)
    requires
        fresh_labels(a, lo1, hi1),
        fresh_labels(b, lo2, hi2),
        hi1 <= lo2 || hi2 <= lo1,
        lo <= lo1,
        lo <= lo2,
        hi1 <= hi,
        hi2 <= hi,
    ensures
        fresh_labels(a + b, lo, hi),
{
    let c = a + b;
    assert forall|i: int, j: int| 0 <= i < c.len() && 0 <= j < c.len() && i != j implies c[i] != c[j] by {
        if i < a.len() && j < a.len() {
        } else if i >= a.len() && j >= a.len() {
            assert(c[i] == b[i - a.len()]);
            assert(c[j] == b[j - a.len()]);
        } else if i < a.len() {
            assert(label_in(a[i], lo1, hi1));
            assert(c[j] == b[j - a.len()]);
            assert(label_in(b[j - a.len()], lo2, hi2));
            lemma_label_ranges_apart(a[i], lo1, hi1, lo2, hi2);
        } else {
            assert(label_in(a[j], lo1, hi1));
            assert(c[i] == b[i - a.len()]);
            assert(label_in(b[i - a.len()], lo2, hi2));
            lemma_label_ranges_apart(a[j], lo1, hi1, lo2, hi2);
        }
    }
    lemma_fresh_widen(a, lo1, hi1, lo, hi);
    lemma_fresh_widen(b, lo2, hi2, lo, hi);
    assert forall|i: int| 0 <= i < c.len() implies label_in(#[trigger] c[i], lo, hi) by {
        if i < a.len() {
            assert(label_in(a[i], lo, hi));
        } else {
            assert(c[i] == b[i - a.len()]);
            assert(label_in(b[i - a.len()], lo, hi));
        }
    }
}

/// The labels of a list do not depend on what follows the statements
/// counted.
pub proof fn lemma_block_labels_prefix(a: Seq<Statement>, b: Seq<Statement>, n: nat)
    requires
        n <= a.len(),
        n <= b.len(),
        forall|i: int| 0 <= i < n ==> a[i] == b[i],
    ensures
        block_labels(a, n) == block_labels(b, n),
    decreases n,
{
    if n > 0 {
        lemma_block_labels_prefix(a, b, (n - 1) as nat);
    }
}

/// Adding a statement to a list adds its labels.
pub proof fn lemma_block_labels_push(a: Seq<Statement>, s: Statement)
    ensures
        block_labels(a.push(s), a.len() + 1) == block_labels(a, a.len()) + stmt_labels(s),
{
    lemma_block_labels_prefix(a, a.push(s), a.len());
}

/// Law: a program parsed with the label counter its predecessor left
/// carries no label of its predecessor, so two programs parsed in turn
/// can be joined without a label clash.
pub proof fn lemma_labels_of_parses_in_turn(first: Seq<Statement>, second: Seq<Statement>, start: nat, mid: nat, end: nat)
    requires
        start <= mid <= end,
        fresh_labels(block_labels(first, first.len()), start, mid),
        fresh_labels(block_labels(second, second.len()), mid, end),
    ensures
        fresh_labels(block_labels(first + second, first.len() + second.len()), start, end),
{
    lemma_fresh_concat(
        block_labels(first, first.len()),
        block_labels(second, second.len()),
        start,
        mid,
        mid,
        end,
        start,
        end,
    );
    lemma_block_labels_concat(first, second);
}

/// The labels of two lists joined are those of the first, then those of
/// the second.
pub proof fn lemma_block_labels_concat(a: Seq<Statement>, b: Seq<Statement>)
    ensures
        block_labels(a + b, a.len() + b.len()) == block_labels(a, a.len()) + block_labels(b, b.len()),
    decreases b.len(),
{
    if b.len() == 0 {
        assert(a + b =~= a);
        assert(block_labels(b, 0) =~= Seq::<Seq<char>>::empty());
        assert(block_labels(a, a.len()) + Seq::<Seq<char>>::empty() =~= block_labels(a, a.len()));
    } else {
        let b1 = b.drop_last();
        lemma_block_labels_concat(a, b1);
        assert(a + b =~= (a + b1).push(b.last()));
        assert(b =~= b1.push(b.last()));
        lemma_block_labels_push(a + b1, b.last());
        lemma_block_labels_push(b1, b.last());
        assert(block_labels(a, a.len()) + block_labels(b1, b1.len()) + stmt_labels(b.last())
            =~= block_labels(a, a.len()) + (block_labels(b1, b1.len()) + stmt_labels(b.last())));
    }
}

/// Labels fresh in `[lo, hi)` none of which is numbered `hi - 1` are fresh
/// in `[lo, hi - 1)`.
proof fn lemma_fresh_below_top(ls: Seq<Seq<char>>, lo: nat, hi: nat)
    requires
        fresh_labels(ls, lo, hi),
        lo < hi,
        forall|i: int| 0 <= i < ls.len() ==> #[trigger] ls[i] != label_text((hi - 1) as nat),
    ensures
        fresh_labels(ls, lo, (hi - 1) as nat),
{
    assert forall|i: int| 0 <= i < ls.len() implies label_in(#[trigger] ls[i], lo, (hi - 1) as nat) by {
        assert(label_in(ls[i], lo, hi));
        let k = choose|k: nat| lo <= k < hi && ls[i] == #[trigger] label_text(k);
        assert(ls[i] == label_text(k));
    }
}

/// Removing the one label numbered `hi - 1`, found at `j`, leaves labels
/// fresh in `[lo, hi - 1)`.
proof fn lemma_fresh_remove_top(ls: Seq<Seq<char>>, lo: nat, hi: nat, j: int)
    requires
        fresh_labels(ls, lo, hi),
        lo < hi,
        0 <= j < ls.len(),
        ls[j] == label_text((hi - 1) as nat),
    ensures
        fresh_labels(ls.subrange(0, j) + ls.subrange(j + 1, ls.len() as int), lo, (hi - 1) as nat),
        (ls.subrange(0, j) + ls.subrange(j + 1, ls.len() as int)).len() == ls.len() - 1,
        forall|i: int| 0 <= i < ls.len() - 1 ==>
            #[trigger] (ls.subrange(0, j) + ls.subrange(j + 1, ls.len() as int))[i] == ls[if i < j { i } else { i + 1 }],
{
    let r = ls.subrange(0, j) + ls.subrange(j + 1, ls.len() as int);
    assert forall|i: int| 0 <= i < r.len() implies #[trigger] r[i] == ls[if i < j { i } else { i + 1 }] by {
        if i >= j {
            assert(r[i] == ls.subrange(j + 1, ls.len() as int)[i - j]);
        }
    }
    assert forall|a: int, b: int| 0 <= a < r.len() && 0 <= b < r.len() && a != b implies r[a] != r[b] by {
        assert(r[a] == ls[if a < j { a } else { a + 1 }]);
        assert(r[b] == ls[if b < j { b } else { b + 1 }]);
    }
    assert forall|i: int| 0 <= i < r.len() implies r[i] != label_text((hi - 1) as nat) by {
        assert(r[i] == ls[if i < j { i } else { i + 1 }]);
    }
    assert(fresh_labels(r, lo, hi)) by {
        assert forall|i: int| 0 <= i < r.len() implies label_in(#[trigger] r[i], lo, hi) by {
            assert(r[i] == ls[if i < j { i } else { i + 1 }]);
        }
    }
    lemma_fresh_below_top(r, lo, hi);
}

/// At most `hi - lo` labels are fresh in `[lo, hi)`.
proof fn lemma_fresh_count_bound(ls: Seq<Seq<char>>, lo: nat, hi: nat)
    requires
        fresh_labels(ls, lo, hi),
        lo <= hi,
    ensures
        ls.len() <= hi - lo,
    decreases hi - lo,
{
    if hi == lo {
        if ls.len() > 0 {
            assert(label_in(ls[0], lo, hi));
        }
    } else if exists|j: int| 0 <= j < ls.len() && ls[j] == label_text((hi - 1) as nat) {
        let j = choose|j: int| 0 <= j < ls.len() && ls[j] == label_text((hi - 1) as nat);
        lemma_fresh_remove_top(ls, lo, hi, j);
        lemma_fresh_count_bound(ls.subrange(0, j) + ls.subrange(j + 1, ls.len() as int), lo, (hi - 1) as nat);
    } else {
        lemma_fresh_below_top(ls, lo, hi);
        lemma_fresh_count_bound(ls, lo, (hi - 1) as nat);
    }
}

/// Law: labels fresh in `[lo, hi)` that are as many as the range holds are
/// exactly the labels `L{lo}` to `L{hi - 1}`, each once. `Parser::parse`
/// ensures both of its program's labels, for the range from the count it
/// started with to the count it reached.
pub proof fn lemma_fresh_labels_exact(ls: Seq<Seq<char>>, lo: nat, hi: nat)
    requires
        fresh_labels(ls, lo, hi),
        hi == lo + ls.len(),
    ensures
        forall|k: nat| lo <= k < hi ==> ls.contains(#[trigger] label_text(k)),
        ls.no_duplicates(),
        forall|i: int| 0 <= i < ls.len() ==> label_in(#[trigger] ls[i], lo, hi),
    decreases hi - lo,
{
    if hi > lo {
        if exists|j: int| 0 <= j < ls.len() && ls[j] == label_text((hi - 1) as nat) {
            let j = choose|j: int| 0 <= j < ls.len() && ls[j] == label_text((hi - 1) as nat);
            let r = ls.subrange(0, j) + ls.subrange(j + 1, ls.len() as int);
            lemma_fresh_remove_top(ls, lo, hi, j);
            lemma_fresh_labels_exact(r, lo, (hi - 1) as nat);
            assert forall|k: nat| lo <= k < hi implies ls.contains(#[trigger] label_text(k)) by {
                if k == hi - 1 {
                    assert(ls[j] == label_text(k));
                } else {
                    assert(r.contains(label_text(k)));
                    let i = choose|i: int| 0 <= i < r.len() && r[i] == label_text(k);
                    assert(r[i] == ls[if i < j { i } else { i + 1 }]);
                }
            }
        } else {
            lemma_fresh_below_top(ls, lo, hi);
            lemma_fresh_count_bound(ls, lo, (hi - 1) as nat);
        }
    }
}

} // verus!
