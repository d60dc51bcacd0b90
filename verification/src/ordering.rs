//! The order in which sibling permissions are listed: fewer code segments
//! first, then the code itself, character by character.

use vstd::prelude::*;
use vstd::relations::{sorted_by, total_ordering};
use vstd::seq_lib::{lemma_sorted_unique, to_multiset_build, to_multiset_insert};

verus! {

/// The separator between the segments of a permission code.
pub const SEGMENT_SEPARATOR: char = ':';

/// How many separators `code` holds.
pub open spec fn separators(code: Seq<char>) -> nat
    decreases code.len(),
{
    if code.len() == 0 {
        0
    } else {
        separators(code.drop_last()) + if code.last() == SEGMENT_SEPARATOR {
            1nat
        } else {
            0nat
        }
    }
}

/// How many segments `code` has: `system` has one, `system:user:view` three.
pub open spec fn segment_count(code: Seq<char>) -> nat {
    separators(code) + 1
}

/// `a` comes strictly before `b` in dictionary order, characters compared by
/// their scalar values.
pub open spec fn text_lt(a: Seq<char>, b: Seq<char>) -> bool
    decreases a.len(),
{
    if b.len() == 0 {
        false
    } else if a.len() == 0 {
        true
    } else if a[0] != b[0] {
        (a[0] as u32) < (b[0] as u32)
    } else {
        text_lt(a.drop_first(), b.drop_first())
    }
}

/// The code `a` is listed strictly before the code `b`.
pub open spec fn code_before(a: Seq<char>, b: Seq<char>) -> bool {
    segment_count(a) < segment_count(b) || (segment_count(a) == segment_count(b) && text_lt(a, b))
}

/// Different characters have different scalar values.
pub proof fn lemma_scalar_values_differ(c: char, d: char)
    requires
        c != d,
    ensures
        c as u32 != d as u32,
{
    vstd::utf8::char_u32_cast(c, c as u32);
    vstd::utf8::char_u32_cast(d, d as u32);
}

/// No text comes before itself.
pub proof fn lemma_text_lt_irreflexive(a: Seq<char>)
    ensures
        !text_lt(a, a),
    decreases a.len(),
{
    if a.len() > 0 {
        lemma_text_lt_irreflexive(a.drop_first());
    }
}

/// Of two different texts exactly one comes before the other.
pub proof fn lemma_text_lt_trichotomy(a: Seq<char>, b: Seq<char>)
    ensures
        a != b ==> (text_lt(a, b) <==> !text_lt(b, a)),
        a == b ==> !text_lt(a, b) && !text_lt(b, a),
    decreases a.len(),
{
    if a == b {
        lemma_text_lt_irreflexive(a);
    } else if a.len() == 0 || b.len() == 0 {
        if a.len() == 0 && b.len() == 0 {
            assert(a =~= b);
        }
    } else if a[0] != b[0] {
        lemma_scalar_values_differ(a[0], b[0]);
    } else {
        if a.drop_first() == b.drop_first() {
            assert(a =~= seq![a[0]] + a.drop_first());
            assert(b =~= seq![b[0]] + b.drop_first());
        }
        lemma_text_lt_trichotomy(a.drop_first(), b.drop_first());
    }
}

/// Dictionary order is transitive.
pub proof fn lemma_text_lt_transitive(a: Seq<char>, b: Seq<char>, c: Seq<char>)
    requires
        text_lt(a, b),
        text_lt(b, c),
    ensures
        text_lt(a, c),
    decreases a.len(),
{
    if a.len() > 0 && a[0] == b[0] && b[0] == c[0] {
        lemma_text_lt_transitive(a.drop_first(), b.drop_first(), c.drop_first());
    }
}

/// The order of the rows at two positions of a list of codes: by code, and
/// between equal codes by position.
pub open spec fn position_leq(codes: Seq<Seq<char>>) -> spec_fn(usize, usize) -> bool {
    |i: usize, j: usize|
        code_before(codes[i as int], codes[j as int]) || (!code_before(
            codes[j as int],
            codes[i as int],
        ) && i <= j)
}

/// Positions are totally ordered by [`position_leq`].
pub proof fn lemma_position_leq_total(codes: Seq<Seq<char>>)
    ensures
        total_ordering(position_leq(codes)),
{
    let leq = position_leq(codes);
    assert forall|i: usize| #[trigger] leq(i, i) by {
        lemma_text_lt_irreflexive(codes[i as int]);
    }
    assert forall|i: usize, j: usize| #[trigger] leq(i, j) && #[trigger] leq(j, i) implies i
        == j by {
        lemma_text_lt_trichotomy(codes[i as int], codes[j as int]);
    }
    assert forall|i: usize, j: usize, k: usize| #[trigger] leq(i, j) && #[trigger] leq(
        j,
        k,
    ) implies leq(i, k) by {
        let (a, b, c) = (codes[i as int], codes[j as int], codes[k as int]);
        lemma_text_lt_trichotomy(a, b);
        lemma_text_lt_trichotomy(b, c);
        lemma_text_lt_trichotomy(a, c);
        if text_lt(a, b) && text_lt(b, c) {
            lemma_text_lt_transitive(a, b, c);
        }
        if text_lt(c, a) && text_lt(a, b) {
            lemma_text_lt_transitive(c, a, b);
        }
        if text_lt(b, c) && text_lt(c, a) {
            lemma_text_lt_transitive(b, c, a);
        }
    }
    assert forall|i: usize, j: usize| #[trigger] leq(i, j) || #[trigger] leq(j, i) by {}
}

/// What a permission code is ordered by: its characters, and how many
/// separators they hold.
pub struct CodeKey {
    pub chars: Vec<char>,
    pub separators: usize,
}

impl CodeKey {
    /// The count stored in the key is the count of separators in its text.
    pub open spec fn wf(&self) -> bool {
        self.separators == separators(self.chars@)
    }

    /// The key of the code whose characters are `chars`.
    pub fn new(chars: Vec<char>) -> (key: CodeKey)
        ensures
            key.wf(),
            key.chars@ == chars@,
    {
        let separators = count_separators(&chars);
        CodeKey { chars, separators }
    }
}

/// The codes that a list of keys stands for.
pub open spec fn codes_of(keys: Seq<CodeKey>) -> Seq<Seq<char>> {
    Seq::new(keys.len(), |i: int| keys[i].chars@)
}

/// Every key of the list is well formed.
pub open spec fn keys_wf(keys: Seq<CodeKey>) -> bool {
    forall|i: int| 0 <= i < keys.len() ==> (#[trigger] keys[i]).wf()
}

/// Counts the separators of a code.
pub fn count_separators(code: &Vec<char>) -> (n: usize)
    ensures
        n == separators(code@),
{
    let mut n: usize = 0;
    let mut i: usize = 0;
    while i < code.len()
        invariant
            i <= code.len(),
            n <= i,
            n == separators(code@.take(i as int)),
        decreases code.len() - i,
    {
        assert(code@.take(i + 1).drop_last() =~= code@.take(i as int));
        if code[i] == SEGMENT_SEPARATOR {
            n = n + 1;
        }
        i = i + 1;
    }
    assert(code@.take(i as int) =~= code@);
    n
}

/// Tells whether `a` comes strictly before `b` in dictionary order.
pub fn text_less(a: &Vec<char>, b: &Vec<char>) -> (r: bool)
    ensures
        r == text_lt(a@, b@),
{
    let mut i: usize = 0;
    assert(a@.skip(0) =~= a@ && b@.skip(0) =~= b@);
    while i < a.len() && i < b.len()
        invariant
            i <= a.len(),
            i <= b.len(),
            text_lt(a@, b@) == text_lt(a@.skip(i as int), b@.skip(i as int)),
        decreases a.len() - i,
    {
        if a[i] != b[i] {
            return (a[i] as u32) < (b[i] as u32);
        }
        assert(a@.skip(i as int).drop_first() =~= a@.skip(i + 1));
        assert(b@.skip(i as int).drop_first() =~= b@.skip(i + 1));
        i = i + 1;
    }
    i < b.len()
}

/// Tells whether position `i` is listed no later than position `j`.
pub fn position_no_later(keys: &Vec<CodeKey>, i: usize, j: usize) -> (r: bool)
    requires
        keys_wf(keys@),
        i < keys.len(),
        j < keys.len(),
    ensures
        r == position_leq(codes_of(keys@))(i, j),
{
    let a = &keys[i];
    let b = &keys[j];
    if a.separators != b.separators {
        a.separators < b.separators
    } else if text_less(&a.chars, &b.chars) {
        true
    } else if text_less(&b.chars, &a.chars) {
        false
    } else {
        i <= j
    }
}

/// A total order on the positions of a list, which can be computed.
pub trait Ranking {
    /// How many positions the list has.
    spec fn size(&self) -> nat;

    /// What the list must satisfy for its positions to be compared.
    spec fn ranked(&self) -> bool;

    /// Position `i` comes no later than position `j`.
    spec fn no_later_than(&self) -> spec_fn(usize, usize) -> bool;

    /// The order is total.
    proof fn lemma_total(&self)
        requires
            self.ranked(),
        ensures
            total_ordering(self.no_later_than()),
    ;

    /// Tells whether position `i` comes no later than position `j`.
    fn no_later(&self, i: usize, j: usize) -> (r: bool)
        requires
            self.ranked(),
            i < self.size(),
            j < self.size(),
        ensures
            r == self.no_later_than()(i, j),
    ;
}

impl Ranking for Vec<CodeKey> {
    open spec fn size(&self) -> nat {
        self@.len()
    }

    open spec fn ranked(&self) -> bool {
        keys_wf(self@)
    }

    open spec fn no_later_than(&self) -> spec_fn(usize, usize) -> bool {
        position_leq(codes_of(self@))
    }

    proof fn lemma_total(&self) {
        lemma_position_leq_total(codes_of(self@));
    }

    fn no_later(&self, i: usize, j: usize) -> (r: bool) {
        position_no_later(self, i, j)
    }
}

/// Arranges the positions `idx` in the order of `ranking`.
pub fn arrange_by<R: Ranking>(ranking: &R, idx: &Vec<usize>) -> (out: Vec<usize>)
    requires
        ranking.ranked(),
        forall|k: int| 0 <= k < idx.len() ==> idx[k] < ranking.size(),
    ensures
        out@ == idx@.sort_by(ranking.no_later_than()),
        forall|k: int| 0 <= k < out.len() ==> out[k] < ranking.size(),
{
    let ghost leq = ranking.no_later_than();
    proof {
        ranking.lemma_total();
    }
    let mut out: Vec<usize> = Vec::new();
    let mut k: usize = 0;
    assert(idx@.take(0) =~= out@);
    while k < idx.len()
        invariant
            k <= idx.len(),
            ranking.ranked(),
            leq == ranking.no_later_than(),
            total_ordering(leq),
            forall|m: int| 0 <= m < idx.len() ==> idx[m] < ranking.size(),
            forall|m: int| 0 <= m < out.len() ==> out[m] < ranking.size(),
            sorted_by(out@, leq),
            out@.to_multiset() == idx@.take(k as int).to_multiset(),
        decreases idx.len() - k,
    {
        let x = idx[k];
        let mut p: usize = 0;
        while p < out.len() && ranking.no_later(out[p], x)
            invariant
                p <= out.len(),
                x < ranking.size(),
                ranking.ranked(),
                leq == ranking.no_later_than(),
                forall|m: int| 0 <= m < out.len() ==> out[m] < ranking.size(),
                forall|q: int| 0 <= q < p ==> leq(#[trigger] out[q], x),
            decreases out.len() - p,
        {
            p = p + 1;
        }
        let ghost before = out@;
        out.insert(p, x);
        proof {
            before.insert_ensures(p as int, x);
            assert forall|a: int, b: int| 0 <= a < b < out.len() implies leq(out[a], out[b]) by {
                if b == p {
                    assert(out[a] == before[a]);
                } else if a == p {
                    assert(out[b] == before[b - 1]);
                    assert(leq(x, before[p as int]));
                    assert(leq(before[p as int], before[b - 1]) || b - 1 == p);
                } else {
                    let a0 = if a < p { a } else { a - 1 };
                    let b0 = if b < p { b } else { b - 1 };
                    assert(out[a] == before[a0] && out[b] == before[b0]);
                }
            }
            to_multiset_insert(before, p as int, x);
            assert(idx@.take(k + 1) =~= idx@.take(k as int).push(x));
            to_multiset_build(idx@.take(k as int), x);
        }
        k = k + 1;
    }
    proof {
        assert(idx@.take(k as int) =~= idx@);
        idx@.lemma_sort_by_ensures(leq);
        lemma_sorted_unique(out@, idx@.sort_by(leq), leq);
    }
    out
}

/// Arranges the positions `idx` in listing order.
pub fn arrange(keys: &Vec<CodeKey>, idx: &Vec<usize>) -> (out: Vec<usize>)
    requires
        keys_wf(keys@),
        forall|k: int| 0 <= k < idx.len() ==> idx[k] < keys.len(),
    ensures
        out@ == idx@.sort_by(position_leq(codes_of(keys@))),
        forall|k: int| 0 <= k < out.len() ==> out[k] < keys.len(),
{
    arrange_by(keys, idx)
}

} // verus!
