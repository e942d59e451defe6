//! Order: the order of texts, and a stable sort.

use vstd::prelude::*;

use crate::text;

verus! {

// ---------------------------------------------------------------------------
// The order of texts
// ---------------------------------------------------------------------------

/// Is `a` before or equal to `b`, character by character? Characters compare
/// by their code points, which is how the bytes of their UTF-8 forms compare.
pub open spec fn text_le(a: Seq<char>, b: Seq<char>) -> bool
    decreases a.len(),
{
    if a.len() == 0 {
        true
    } else if b.len() == 0 {
        false
    } else if a[0] == b[0] {
        text_le(a.drop_first(), b.drop_first())
    } else {
        a[0] < b[0]
    }
}

pub proof fn lemma_text_le_total(a: Seq<char>, b: Seq<char>)
    ensures
        text_le(a, b) || text_le(b, a),
    decreases a.len(),
{
    if a.len() > 0 && b.len() > 0 && a[0] == b[0] {
        lemma_text_le_total(a.drop_first(), b.drop_first());
    }
}

pub proof fn lemma_text_le_transitive(a: Seq<char>, b: Seq<char>, c: Seq<char>)
    requires
        text_le(a, b),
        text_le(b, c),
    ensures
        text_le(a, c),
    decreases a.len(),
{
    if a.len() > 0 && b.len() > 0 && c.len() > 0 && a[0] == b[0] && b[0] == c[0] {
        lemma_text_le_transitive(a.drop_first(), b.drop_first(), c.drop_first());
    }
}

/// Two texts that are each before or equal to the other are the same text.
pub proof fn text_order_is_antisymmetric(a: Seq<char>, b: Seq<char>)
    requires
        text_le(a, b),
        text_le(b, a),
    ensures
        a == b,
    decreases a.len(),
{
    if a.len() > 0 && b.len() > 0 {
        text_order_is_antisymmetric(a.drop_first(), b.drop_first());
        assert(a =~= seq![a[0]] + a.drop_first());
        assert(b =~= seq![b[0]] + b.drop_first());
    } else {
        assert(a =~= b);
    }
}

/// Is the text `a` before or equal to `b`?
pub fn text_at_most(a: &str, b: &str) -> (r: bool)
    ensures
        r == text_le(a@, b@),
{
    let x = text::chars_of(a);
    let y = text::chars_of(b);
    let mut i: usize = 0;
    assert(x@.skip(0) =~= x@);
    assert(y@.skip(0) =~= y@);
    while i < x.len() && i < y.len()
        invariant
            i <= x@.len(),
            i <= y@.len(),
            text_le(x@.skip(i as int), y@.skip(i as int)) == text_le(a@, b@),
        decreases x.len() - i,
    {
        if x[i] != y[i] {
            return x[i] < y[i];
        }
        assert(x@.skip(i as int).drop_first() =~= x@.skip(i + 1));
        assert(y@.skip(i as int).drop_first() =~= y@.skip(i + 1));
        i += 1;
    }
    i == x.len()
}

// ---------------------------------------------------------------------------
// Sorting
// ---------------------------------------------------------------------------

/// Values that can be sorted: each has a model, and the models are totally
/// preordered.
pub trait Sortable: Sized {
    type Model;

    spec fn model(&self) -> Self::Model;

    spec fn le(a: Self::Model, b: Self::Model) -> bool;

    proof fn le_total(a: Self::Model, b: Self::Model)
        ensures
            Self::le(a, b) || Self::le(b, a),
    ;

    proof fn le_transitive(a: Self::Model, b: Self::Model, c: Self::Model)
        requires
            Self::le(a, b),
            Self::le(b, c),
        ensures
            Self::le(a, c),
    ;

    fn at_most(&self, other: &Self) -> (r: bool)
        ensures
            r == Self::le(self.model(), other.model()),
    ;
}

impl Sortable for String {
    type Model = Seq<char>;

    open spec fn model(&self) -> Seq<char> {
        self@
    }

    open spec fn le(a: Seq<char>, b: Seq<char>) -> bool {
        text_le(a, b)
    }

    proof fn le_total(a: Seq<char>, b: Seq<char>) {
        lemma_text_le_total(a, b);
    }

    proof fn le_transitive(a: Seq<char>, b: Seq<char>, c: Seq<char>) {
        lemma_text_le_transitive(a, b, c);
    }

    fn at_most(&self, other: &String) -> (r: bool) {
        text_at_most(self.as_str(), other.as_str())
    }
}

/// The models of a list of values.
pub open spec fn models<T: Sortable>(v: Seq<T>) -> Seq<T::Model> {
    Seq::new(v.len(), |i: int| v[i].model())
}

/// No element comes after one that is greater.
pub open spec fn sorted<T: Sortable>(s: Seq<T::Model>) -> bool {
    forall|i: int, j: int| 0 <= i < j < s.len() ==> T::le(#[trigger] s[i], #[trigger] s[j])
}

/// Does `x` rank with `m`?
pub open spec fn tie<T: Sortable>(m: T::Model) -> spec_fn(T::Model) -> bool {
    |x: T::Model| T::le(x, m) && T::le(m, x)
}

/// Is `r` the sequence `s` sorted, with those elements that rank alike in the
/// order in which `s` has them?
pub open spec fn stable_sort_of<T: Sortable>(r: Seq<T::Model>, s: Seq<T::Model>) -> bool {
    &&& sorted::<T>(r)
    &&& forall|m: T::Model| #[trigger] r.filter(tie::<T>(m)) == s.filter(tie::<T>(m))
}

proof fn lemma_filter_none<A>(s: Seq<A>, p: spec_fn(A) -> bool)
    requires
        forall|i: int| 0 <= i < s.len() ==> !p(#[trigger] s[i]),
    ensures
        s.filter(p) == Seq::<A>::empty(),
    decreases s.len(),
{
    reveal(Seq::filter);
    if s.len() > 0 {
        assert forall|i: int| 0 <= i < s.drop_last().len() implies !p(
            #[trigger] s.drop_last()[i],
        ) by {
            assert(s.drop_last()[i] == s[i]);
        }
        lemma_filter_none(s.drop_last(), p);
        assert(!p(s[s.len() - 1]));
    }
}

proof fn lemma_filter_push<A>(s: Seq<A>, x: A, p: spec_fn(A) -> bool)
    ensures
        s.push(x).filter(p) == (if p(x) {
            s.filter(p).push(x)
        } else {
            s.filter(p)
        }),
{
    reveal(Seq::filter);
    assert(s.push(x).drop_last() =~= s);
}

/// Putting `x` behind every element that is at most `x` keeps the order, and
/// puts `x` last among those that rank alike.
proof fn lemma_insert<T: Sortable>(s: Seq<T::Model>, i: int, x: T::Model)
    requires
        sorted::<T>(s),
        0 <= i <= s.len(),
        forall|k: int| 0 <= k < i ==> T::le(#[trigger] s[k], x),
        i < s.len() ==> !T::le(s[i], x),
    ensures
        sorted::<T>(s.insert(i, x)),
        forall|m: T::Model| #[trigger]
            s.insert(i, x).filter(tie::<T>(m)) == s.push(x).filter(tie::<T>(m)),
{
    let r = s.insert(i, x);
    assert forall|k: int| i <= k < s.len() implies !T::le(#[trigger] s[k], x) && T::le(
        x,
        s[k],
    ) by {
        T::le_total(s[k], x);
        if T::le(s[k], x) && k > i {
            assert(T::le(s[i], s[k]));
            T::le_transitive(s[i], s[k], x);
        }
    }
    assert forall|a: int, b: int| 0 <= a < b < r.len() implies T::le(
        #[trigger] r[a],
        #[trigger] r[b],
    ) by {
        if b < i {
            assert(T::le(s[a], s[b]));
        } else if b == i {
            assert(T::le(s[a], x));
        } else if a < i {
            assert(T::le(s[a], s[b - 1]));
        } else if a == i {
            assert(T::le(x, s[b - 1]));
        } else {
            assert(T::le(s[a - 1], s[b - 1]));
        }
    }
    assert forall|m: T::Model| #[trigger]
        s.insert(i, x).filter(tie::<T>(m)) == s.push(x).filter(tie::<T>(m)) by {
        let p = tie::<T>(m);
        let head = s.take(i);
        let tail = s.skip(i);
        assert(s =~= head + tail);
        assert(r =~= head.push(x) + tail);
        Seq::filter_distributes_over_add(head, tail, p);
        Seq::filter_distributes_over_add(head.push(x), tail, p);
        lemma_filter_push(head, x, p);
        lemma_filter_push(s, x, p);
        if p(x) {
            assert forall|k: int| 0 <= k < tail.len() implies !p(#[trigger] tail[k]) by {
                assert(tail[k] == s[i + k]);
                if p(tail[k]) {
                    T::le_transitive(s[i + k], m, x);
                }
            }
            lemma_filter_none(tail, p);
            assert(r.filter(p) =~= s.push(x).filter(p));
        }
    }
}

/// Sort a list; values that rank alike keep their order.
pub fn stable_sort<T: Sortable>(v: Vec<T>) -> (r: Vec<T>)
    ensures
        stable_sort_of::<T>(models(r@), models(v@)),
{
    let ghost input = v@;
    let mut rest: Vec<T> = v;
    let mut out: Vec<T> = Vec::new();
    let n: usize = rest.len();
    let mut done: usize = 0;
    assert(models(out@) =~= models(input.take(0)));
    while done < n
        invariant
            done <= n == input.len(),
            rest@ == input.skip(done as int),
            stable_sort_of::<T>(models(out@), models(input.take(done as int))),
        decreases n - done,
    {
        let x = rest.remove(0);
        assert(x == input[done as int]);
        assert(rest@ =~= input.skip(done + 1));
        let mut i: usize = 0;
        while i < out.len() && out[i].at_most(&x)
            invariant
                i <= out@.len(),
                forall|k: int| 0 <= k < i ==> T::le(#[trigger] models(out@)[k], x.model()),
            decreases out.len() - i,
        {
            i += 1;
        }
        proof {
            let s = models(out@);
            let m = x.model();
            assert(i < s.len() ==> s[i as int] == out@[i as int].model());
            lemma_insert::<T>(s, i as int, m);
            assert(models(out@.insert(i as int, x)) =~= s.insert(i as int, m));
            let before = models(input.take(done as int));
            assert(models(input.take(done + 1)) =~= before.push(m));
            assert forall|q: T::Model| #[trigger]
                s.insert(i as int, m).filter(tie::<T>(q)) == before.push(m).filter(
                    tie::<T>(q),
                ) by {
                assert(s.filter(tie::<T>(q)) == before.filter(tie::<T>(q)));
                lemma_filter_push(s, m, tie::<T>(q));
                lemma_filter_push(before, m, tie::<T>(q));
            }
        }
        out.insert(i, x);
        done += 1;
    }
    assert(input.take(done as int) =~= input);
    out
}

/// A sequence has one stable sort only.
pub proof fn stable_sort_is_unique<T: Sortable>(
    a: Seq<T::Model>,
    b: Seq<T::Model>,
    s: Seq<T::Model>,
)
    requires
        stable_sort_of::<T>(a, s),
        stable_sort_of::<T>(b, s),
    ensures
        a == b,
{
    assert forall|m: T::Model| #[trigger] a.filter(tie::<T>(m)) == b.filter(tie::<T>(m)) by {
        assert(a.filter(tie::<T>(m)) == s.filter(tie::<T>(m)));
        assert(b.filter(tie::<T>(m)) == s.filter(tie::<T>(m)));
    }
    lemma_same_ties::<T>(a, b);
}

/// Some element of `a` ranks with the element `y` of `b`, so the last of `a` is
/// at least `y`.
proof fn lemma_last_bound<T: Sortable>(a: Seq<T::Model>, b: Seq<T::Model>, j: int)
    requires
        sorted::<T>(a),
        0 <= j < b.len(),
        a.filter(tie::<T>(b[j])) == b.filter(tie::<T>(b[j])),
    ensures
        a.len() > 0,
        T::le(b[j], a.last()),
{
    let y = b[j];
    let p = tie::<T>(y);
    T::le_total(y, y);
    assert(p(y));
    b.lemma_filter_contains(p, j);
    assert(a.filter(p).contains(y));
    a.lemma_filter_contains_rev(p, y);
    let k = choose|k: int| 0 <= k < a.len() && a[k] == y;
    if k < a.len() - 1 {
        assert(T::le(a[k], a[a.len() - 1]));
    }
}

proof fn lemma_same_ties<T: Sortable>(a: Seq<T::Model>, b: Seq<T::Model>)
    requires
        sorted::<T>(a),
        sorted::<T>(b),
        forall|m: T::Model| #[trigger] a.filter(tie::<T>(m)) == b.filter(tie::<T>(m)),
    ensures
        a == b,
    decreases a.len(),
{
    if a.len() == 0 || b.len() == 0 {
        if b.len() > 0 {
            assert(a.filter(tie::<T>(b[0])) == b.filter(tie::<T>(b[0])));
            lemma_last_bound::<T>(a, b, 0);
        }
        if a.len() > 0 {
            assert(a.filter(tie::<T>(a[0])) == b.filter(tie::<T>(a[0])));
            lemma_last_bound::<T>(b, a, 0);
        }
        assert(a =~= b);
    } else {
        let x = a.last();
        let y = b.last();
        let a1 = a.drop_last();
        let b1 = b.drop_last();
        assert(a.filter(tie::<T>(x)) == b.filter(tie::<T>(x)));
        assert(a.filter(tie::<T>(y)) == b.filter(tie::<T>(y)));
        lemma_last_bound::<T>(a, b, b.len() - 1);
        lemma_last_bound::<T>(b, a, a.len() - 1);
        T::le_total(x, x);
        assert(a =~= a1.push(x));
        assert(b =~= b1.push(y));
        lemma_filter_push(a1, x, tie::<T>(x));
        lemma_filter_push(b1, y, tie::<T>(x));
        assert(tie::<T>(x)(y));
        assert(a.filter(tie::<T>(x)).last() == x);
        assert(b.filter(tie::<T>(x)).last() == y);
        assert(x == y);
        assert forall|m: T::Model| #[trigger] a1.filter(tie::<T>(m)) == b1.filter(tie::<T>(m)) by {
            let p = tie::<T>(m);
            assert(a.filter(p) == b.filter(p));
            lemma_filter_push(a1, x, p);
            lemma_filter_push(b1, x, p);
            if p(x) {
                assert(a1.filter(p) =~= a.filter(p).drop_last());
                assert(b1.filter(p) =~= b.filter(p).drop_last());
            }
        }
        assert forall|i: int, j: int| 0 <= i < j < a1.len() implies T::le(
            #[trigger] a1[i],
            #[trigger] a1[j],
        ) by {
            assert(T::le(a[i], a[j]));
        }
        assert forall|i: int, j: int| 0 <= i < j < b1.len() implies T::le(
            #[trigger] b1[i],
            #[trigger] b1[j],
        ) by {
            assert(T::le(b[i], b[j]));
        }
        lemma_same_ties::<T>(a1, b1);
    }
}

proof fn lemma_filtered_is_from<A>(s: Seq<A>, p: spec_fn(A) -> bool, x: A)
    requires
        s.filter(p).contains(x),
    ensures
        s.contains(x),
    decreases s.len(),
{
    reveal(Seq::filter);
    if s.len() > 0 {
        let front = s.drop_last();
        if p(s.last()) && x == s.last() {
            assert(s[s.len() - 1] == x);
        } else {
            let i = choose|i: int| 0 <= i < s.filter(p).len() && s.filter(p)[i] == x;
            if p(s.last()) {
                assert(s.filter(p) == front.filter(p).push(s.last()));
                assert(front.filter(p)[i] == x);
            }
            assert(front.filter(p).contains(x));
            lemma_filtered_is_from(front, p, x);
            let j = choose|j: int| 0 <= j < front.len() && front[j] == x;
            assert(s[j] == x);
        }
    }
}

/// Sorting neither loses nor invents an element.
pub proof fn a_sort_keeps_the_elements<T: Sortable>(
    r: Seq<T::Model>,
    s: Seq<T::Model>,
    x: T::Model,
)
    requires
        stable_sort_of::<T>(r, s),
    ensures
        r.contains(x) == s.contains(x),
{
    let p = tie::<T>(x);
    T::le_total(x, x);
    assert(r.filter(p) == s.filter(p));
    if r.contains(x) {
        let i = choose|i: int| 0 <= i < r.len() && r[i] == x;
        r.lemma_filter_contains(p, i);
        lemma_filtered_is_from(s, p, x);
    }
    if s.contains(x) {
        let i = choose|i: int| 0 <= i < s.len() && s[i] == x;
        s.lemma_filter_contains(p, i);
        lemma_filtered_is_from(r, p, x);
    }
}

/// Texts are ordered like the words of a dictionary: by the first character in which
/// they differ, and a text comes before what it is the beginning of.
pub proof fn texts_are_ordered_by_their_first_difference(a: Seq<char>, b: Seq<char>, i: int)
    requires
        0 <= i <= a.len(),
        i <= b.len(),
        a.take(i) == b.take(i),
        i == a.len() || i == b.len() || a[i] != b[i],
    ensures
        text_le(a, b) <==> i == a.len() || (i < b.len() && a[i] < b[i]),
    decreases a.len(),
{
    if i > 0 {
        assert(a.take(i)[0] == a[0] && b.take(i)[0] == b[0]);
        let x = a.drop_first();
        let y = b.drop_first();
        assert forall|j: int| 0 <= j < i - 1 implies #[trigger] x.take(i - 1)[j] == y.take(i - 1)[j] by {
            assert(a.take(i)[j + 1] == b.take(i)[j + 1]);
            assert(x.take(i - 1)[j] == a[j + 1] && a.take(i)[j + 1] == a[j + 1]);
            assert(y.take(i - 1)[j] == b[j + 1] && b.take(i)[j + 1] == b[j + 1]);
        }
        assert(x.take(i - 1) =~= y.take(i - 1));
        texts_are_ordered_by_their_first_difference(x, y, i - 1);
    }
}

} // verus!
