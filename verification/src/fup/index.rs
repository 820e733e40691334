use vstd::prelude::*;

use super::syntax::{
    decimal_value, digit_run_end, index_number, is_digit, range_shaped, spec_index_tree,
    spec_parse_range, token_text, IndexRange,
};
use super::FupParser;
use crate::grammar::{
    lemma_list_model, lemma_models_push, models, spec_element_at, spec_index_after, spec_index_until, GrammarTree,
    SpecTree,
};
use crate::lexer::TokenKind;

verus! {

/// `(cdr (cdr ... indexable))` with `start_index` applications of `cdr`.
pub fn index_after<'i>(indexable: GrammarTree<'i>, start_index: usize) -> (t: GrammarTree<'i>)
    ensures
        t@ == spec_index_after(indexable@, start_index as nat),
{
    let ghost x = indexable@;
    let mut expr = indexable;
    let mut k: usize = 0;
    while k < start_index
        invariant
            k <= start_index,
            expr@ == spec_index_after(x, k as nat),
        decreases start_index - k,
    {
        expr = GrammarTree::apply1("cdr", expr);
        k = k + 1;
    }
    expr
}

/// `(car (cdr ... indexable))`: the element at `index`.
pub fn element_at<'i>(indexable: &GrammarTree<'i>, index: usize) -> (t: GrammarTree<'i>)
    ensures
        t@ == spec_element_at(indexable@, index as nat),
{
    GrammarTree::apply1("car", index_after(indexable.deep_clone(), index))
}

/// The elements at indices `start .. end` of `indexable`.
pub fn index_between<'i>(indexable: &GrammarTree<'i>, start: usize, end: usize) -> (v: Vec<
    GrammarTree<'i>,
>)
    requires
        start <= end,
    ensures
        models(v@) == spec_index_until(indexable@, end as nat).skip(start as int),
{
    let mut v: Vec<GrammarTree<'i>> = Vec::new();
    let mut k = start;
    while k < end
        invariant
            start <= k <= end,
            models(v@) == spec_index_until(indexable@, k as nat).skip(start as int),
        decreases end - k,
    {
        let e = element_at(indexable, k);
        proof {
            lemma_models_push(v@, e);
            assert(spec_index_until(indexable@, k as nat).skip(start as int).push(e@) =~= spec_index_until(indexable@, (k + 1) as nat).skip(start as int));
        }
        v.push(e);
        k = k + 1;
    }
    v
}

/// The elements at indices `0 .. end_index` of `indexable`.
pub fn index_until<'i>(indexable: &GrammarTree<'i>, end_index: usize) -> (v: Vec<GrammarTree<'i>>)
    ensures
        models(v@) == spec_index_until(indexable@, end_index as nat),
{
    let v = index_between(indexable, 0, end_index);
    assert(spec_index_until(indexable@, end_index as nat).skip(0) =~= spec_index_until(
        indexable@,
        end_index as nat,
    ));
    v
}

/// `(list e...)` for the elements `e`.
fn list_of_elements<'i>(elements: Vec<GrammarTree<'i>>) -> (t: GrammarTree<'i>)
    ensures
        t@ == super::syntax::list_of(models(elements@)),
{
    let mut v = vec![GrammarTree::Atom("list")];
    let ghost rest = models(elements@);
    let mut elements = elements;
    v.append(&mut elements);
    proof {
        lemma_list_model(v);
        assert(models(v@) =~= seq![SpecTree::Atom("list"@)] + rest);
    }
    GrammarTree::List(v)
}

/// The Scheme expression that indexing `indexable` by `range` denotes.
pub fn index_tree<'i>(indexable: GrammarTree<'i>, range: IndexRange) -> (t: GrammarTree<'i>)
    ensures
        t@ == spec_index_tree(indexable@, range),
{
    match range {
        IndexRange::Exact(n) => element_at(&indexable, n),
        IndexRange::OpenRight(n) => index_after(indexable, n),
        IndexRange::OpenLeft(n) => list_of_elements(index_until(&indexable, n)),
        IndexRange::Full(a, b) => {
            if a >= b {
                let empty: Vec<GrammarTree<'i>> = Vec::new();
                assert(models(empty@) =~= Seq::<SpecTree>::empty());
                proof {
                    lemma_list_model(empty);
                }
                GrammarTree::List(empty)
            } else {
                list_of_elements(index_between(&indexable, a, b))
            }
        },
    }
}

/// A run of digits has at least the value of each of its prefixes.
proof fn lemma_decimal_prefix(w: Seq<char>, k: int)
    requires
        0 <= k <= w.len(),
        forall|m: int| 0 <= m < w.len() ==> #[trigger] is_digit(w[m]),
    ensures
        decimal_value(w.take(k)) <= decimal_value(w),
    decreases w.len(),
{
    if k < w.len() {
        let init = w.drop_last();
        assert forall|m: int| 0 <= m < init.len() implies #[trigger] is_digit(init[m]) by {
            assert(init[m] == w[m]);
        }
        lemma_decimal_prefix(init, k);
        assert(init.take(k) =~= w.take(k));
    } else {
        assert(w.take(k) =~= w);
    }
}

impl<'i> FupParser<'i> {
    /// The first position in `k .. end` that holds no digit (or `end`).
    fn digit_run(&self, k: usize, end: usize) -> (p: usize)
        requires
            k <= end <= self.source().len(),
        ensures
            k <= p <= end,
            p - k == digit_run_end(self.source().subrange(k as int, end as int), 0) ,
    {
        proof {
            use_type_invariant(self);
        }
        let ghost w = self.chars@.subrange(k as int, end as int);
        let mut p = k;
        while p < end && 48 <= self.chars[p] as u32 && self.chars[p] as u32 <= 57
            invariant
                k <= p <= end <= self.chars@.len(),
                w == self.chars@.subrange(k as int, end as int),
                digit_run_end(w, 0) == digit_run_end(w, p - k),
            decreases end - p,
        {
            p = p + 1;
        }
        p
    }

    /// The value of the digits in `k .. end`, if it fits in a `usize`.
    fn number(&self, k: usize, end: usize) -> (n: Option<usize>)
        requires
            k <= end <= self.source().len(),
            forall|m: int| k <= m < end ==> #[trigger] is_digit(self.source()[m]),
        ensures
            n == index_number(self.source().subrange(k as int, end as int)),
    {
        proof {
            use_type_invariant(self);
        }
        let ghost w = self.chars@.subrange(k as int, end as int);
        assert forall|m: int| 0 <= m < w.len() implies #[trigger] is_digit(w[m]) by {
            assert(w[m] == self.chars@[k + m]);
        }
        let mut value: usize = 0;
        let mut p = k;
        while p < end
            invariant
                k <= p <= end <= self.chars@.len(),
                w == self.chars@.subrange(k as int, end as int),
                forall|m: int| 0 <= m < w.len() ==> #[trigger] is_digit(w[m]),
                value == decimal_value(w.take(p - k)),
            decreases end - p,
        {
            let c = self.chars[p];
            assert(c == w[p - k]);
            assert(is_digit(w[p - k]));
            let d = (c as u32 - 48) as usize;
            assert(w.take(p - k + 1).drop_last() =~= w.take(p - k));
            if value > (usize::MAX - d) / 10 {
                proof {
                    lemma_decimal_prefix(w, p - k + 1);
                }
                return None;
            }
            value = value * 10 + d;
            p = p + 1;
        }
        assert(w.take(end - k) =~= w);
        Some(value)
    }

    /// Whether the word at `i` has the shape of an index range.
    pub fn range_shape_at(&self, i: usize) -> (b: bool)
        requires
            i < self.tokens().len(),
            self.tokens()[i as int].kind == TokenKind::Word,
        ensures
            b == range_shaped(token_text(self.source(), self.tokens()[i as int])),
    {
        proof {
            use_type_invariant(self);
        }
        let t = self.tokens[i];
        assert(t.start < t.end <= self.chars@.len());
        let ghost w = token_text(self.chars@, t);
        let p = self.digit_run(t.start, t.end);
        let ghost q = p - t.start;
        if p == t.end {
            return p > t.start;
        }
        if !(t.end - p >= 2 && self.chars[p] == '.' && self.chars[p + 1] == '.') {
            return false;
        }
        assert(self.chars[p as int] == w[q]);
        assert(self.chars[p + 1] == w[q + 1]);
        let e = self.digit_run(p + 2, t.end);
        assert(self.chars@.subrange((p + 2) as int, t.end as int) =~= w.skip(q + 2));
        proof {
            lemma_digit_run_shift(w, q + 2);
        }
        e == t.end && !(p == t.start && p + 2 == t.end)
    }

    /// The index range the word at `i` spells, if any.
    pub fn range_at(&self, i: usize) -> (r: Option<IndexRange>)
        requires
            i < self.tokens().len(),
            self.tokens()[i as int].kind == TokenKind::Word,
        ensures
            r == spec_parse_range(token_text(self.source(), self.tokens()[i as int])),
    {
        proof {
            use_type_invariant(self);
        }
        let t = self.tokens[i];
        assert(t.start < t.end <= self.chars@.len());
        let ghost w = token_text(self.chars@, t);
        let p = self.digit_run(t.start, t.end);
        let ghost q = p - t.start;
        assert forall|m: int| 0 <= m < q implies #[trigger] is_digit(w[m]) by {
            lemma_digit_run(w, 0, m);
        }
        assert forall|m: int| t.start <= m < p implies #[trigger] is_digit(self.chars@[m]) by {
            assert(self.chars@[m] == w[m - t.start]);
            lemma_digit_run(w, 0, m - t.start);
        }
        assert(self.chars@.subrange(t.start as int, p as int) =~= w.take(q));
        let left = self.number(t.start, p);
        if p == t.end {
            if p > t.start && left.is_some() {
                return Some(IndexRange::Exact(left.unwrap()));
            } else {
                return None;
            }
        }
        if !(t.end - p >= 2 && self.chars[p] == '.' && self.chars[p + 1] == '.') {
            return None;
        }
        let e = self.digit_run(p + 2, t.end);
        assert(self.chars@.subrange((p + 2) as int, t.end as int) =~= w.skip(q + 2));
        proof {
            lemma_digit_run_shift(w, q + 2);
        }
        if e != t.end {
            return None;
        }
        assert forall|m: int| p + 2 <= m < t.end implies #[trigger] is_digit(self.chars@[m]) by {
            assert(self.chars@[m] == w.skip(q + 2)[m - p - 2]);
            lemma_digit_run(w.skip(q + 2), 0, m - p - 2);
        }
        let right = self.number(p + 2, t.end);
        if p == t.start && p + 2 == t.end {
            None
        } else if p == t.start {
            match right {
                Some(n) => Some(IndexRange::OpenLeft(n)),
                None => None,
            }
        } else if p + 2 == t.end {
            match left {
                Some(n) => Some(IndexRange::OpenRight(n)),
                None => None,
            }
        } else {
            match (left, right) {
                (Some(a), Some(b)) => Some(IndexRange::Full(a, b)),
                _ => None,
            }
        }
    }
}

/// Every position before the end of a digit run holds a digit.
proof fn lemma_digit_run(w: Seq<char>, k: int, m: int)
    requires
        0 <= k <= m < digit_run_end(w, k),
    ensures
        is_digit(w[m]),
    decreases m - k,
{
    if m > k {
        lemma_digit_run(w, k + 1, m);
    }
}

/// The end of a digit run, seen from a suffix.
proof fn lemma_digit_run_shift(w: Seq<char>, a: int)
    requires
        0 <= a <= w.len(),
    ensures
        digit_run_end(w.skip(a), 0) + a == digit_run_end(w, a),
{
    lemma_digit_run_shift_from(w, a, 0);
}

proof fn lemma_digit_run_shift_from(w: Seq<char>, a: int, k: int)
    requires
        0 <= a <= w.len(),
        0 <= k <= w.len() - a,
    ensures
        digit_run_end(w.skip(a), k) + a == digit_run_end(w, a + k),
    decreases w.len() - a - k,
{
    if k < w.len() - a {
        lemma_digit_run_shift_from(w, a, k + 1);
    }
}

} // verus!
