//! Total orders, and lists kept in order without repeats.
//!
//! Two readings of one house have to pick the same lamp, so everything the
//! library sorts it sorts by a total order, and what comes out is fixed by what
//! went in: [`lemma_one_order`].

use vstd::prelude::*;

use crate::text;
use crate::text::to_chars;

verus! {

/// Whether `f` is a three-way comparison of a total order: zero on equals and
/// nothing else, of opposite sign the other way round, and transitive.
pub open spec fn is_order<T>(f: spec_fn(T, T) -> int) -> bool {
    &&& forall|x: T, y: T| (#[trigger] f(x, y)) == 0 <==> x == y
    &&& forall|x: T, y: T| (#[trigger] f(x, y)) < 0 <==> f(y, x) > 0
    &&& forall|x: T, y: T, z: T|
        (#[trigger] f(x, y)) < 0 && (#[trigger] f(y, z)) < 0 ==> f(x, z) < 0
}

/// The order of two lists: by the first items that differ, and a list before
/// any that goes on where it ends.
pub open spec fn list_order<T>(a: Seq<T>, b: Seq<T>, f: spec_fn(T, T) -> int) -> int
    decreases a.len(),
{
    if a.len() == 0 && b.len() == 0 {
        0
    } else if a.len() == 0 {
        -1
    } else if b.len() == 0 {
        1
    } else if f(a[0], b[0]) != 0 {
        f(a[0], b[0])
    } else {
        list_order(a.drop_first(), b.drop_first(), f)
    }
}

/// The order of two characters, by code point.
pub open spec fn char_order(a: char, b: char) -> int {
    if a < b {
        -1
    } else if a == b {
        0
    } else {
        1
    }
}

/// The order of two texts, by the code points of their characters.
pub open spec fn text_order(a: Seq<char>, b: Seq<char>) -> int {
    list_order(a, b, |x: char, y: char| char_order(x, y))
}

proof fn lemma_list_zero<T>(a: Seq<T>, b: Seq<T>, f: spec_fn(T, T) -> int)
    requires
        is_order(f),
    ensures
        list_order(a, b, f) == 0 <==> a == b,
        list_order(a, b, f) < 0 <==> list_order(b, a, f) > 0,
    decreases a.len(),
{
    if a.len() > 0 && b.len() > 0 {
        lemma_list_zero(a.drop_first(), b.drop_first(), f);
        assert(f(a[0], b[0]) == 0 <==> a[0] == b[0]);
        assert(f(b[0], a[0]) == 0 <==> b[0] == a[0]);
        assert(f(a[0], b[0]) < 0 <==> f(b[0], a[0]) > 0);
        if a.drop_first() == b.drop_first() && a[0] == b[0] {
            assert(a =~= seq![a[0]] + a.drop_first());
            assert(b =~= seq![b[0]] + b.drop_first());
        }
    } else if a.len() == 0 && b.len() == 0 {
        assert(a =~= b);
    }
}

proof fn lemma_list_chain<T>(a: Seq<T>, b: Seq<T>, c: Seq<T>, f: spec_fn(T, T) -> int)
    requires
        is_order(f),
        list_order(a, b, f) < 0,
        list_order(b, c, f) < 0,
    ensures
        list_order(a, c, f) < 0,
    decreases a.len(),
{
    if a.len() > 0 && b.len() > 0 && c.len() > 0 {
        assert(f(a[0], b[0]) == 0 <==> a[0] == b[0]);
        assert(f(b[0], c[0]) == 0 <==> b[0] == c[0]);
        assert(f(a[0], c[0]) == 0 <==> a[0] == c[0]);
        if f(a[0], b[0]) == 0 && f(b[0], c[0]) == 0 {
            lemma_list_chain(a.drop_first(), b.drop_first(), c.drop_first(), f);
        }
    }
}

/// Lists are in a total order where their items are.
pub proof fn lemma_list_order<T>(f: spec_fn(T, T) -> int)
    requires
        is_order(f),
    ensures
        is_order(|a: Seq<T>, b: Seq<T>| list_order(a, b, f)),
{
    let g = |a: Seq<T>, b: Seq<T>| list_order(a, b, f);
    assert forall|a: Seq<T>, b: Seq<T>| (#[trigger] g(a, b)) == 0 <==> a == b by {
        lemma_list_zero(a, b, f);
    }
    assert forall|a: Seq<T>, b: Seq<T>| (#[trigger] g(a, b)) < 0 <==> g(b, a) > 0 by {
        lemma_list_zero(a, b, f);
    }
    assert forall|a: Seq<T>, b: Seq<T>, c: Seq<T>|
        (#[trigger] g(a, b)) < 0 && (#[trigger] g(b, c)) < 0 implies g(a, c) < 0 by {
        lemma_list_chain(a, b, c, f);
    }
}

/// Texts are in a total order.
pub proof fn lemma_text_order()
    ensures
        is_order(|a: Seq<char>, b: Seq<char>| text_order(a, b)),
{
    let f = |x: char, y: char| char_order(x, y);
    assert(is_order(f));
    lemma_list_order(f);
    let g = |a: Seq<char>, b: Seq<char>| list_order(a, b, f);
    let h = |a: Seq<char>, b: Seq<char>| text_order(a, b);
    assert(g =~= h);
}

/// [`text_order`].
pub(crate) fn order_texts(a: &str, b: &str) -> (r: i8)
    ensures
        r == text_order(a@, b@),
        r == -1 || r == 0 || r == 1,
{
    let x = to_chars(a);
    let y = to_chars(b);
    let ghost f = |p: char, q: char| char_order(p, q);
    let mut i: usize = 0;
    assert(x@.skip(0) == x@);
    assert(y@.skip(0) == y@);
    loop
        invariant
            i <= x@.len(),
            i <= y@.len(),
            x@ == a@,
            y@ == b@,
            f == (|p: char, q: char| char_order(p, q)),
            text_order(a@, b@) == list_order(x@.skip(i as int), y@.skip(i as int), f),
        decreases x@.len() - i,
    {
        if i == x.len() {
            return if i == y.len() {
                0
            } else {
                -1
            };
        }
        if i == y.len() {
            return 1;
        }
        if x[i] < y[i] {
            return -1;
        }
        if y[i] < x[i] {
            return 1;
        }
        proof {
            assert(x@.skip(i as int).drop_first() == x@.skip(i + 1));
            assert(y@.skip(i as int).drop_first() == y@.skip(i + 1));
        }
        i = i + 1;
    }
}

/// The first comparison that tells two things apart.
pub open spec fn first_told(a: int, b: int) -> int {
    if a != 0 {
        a
    } else {
        b
    }
}

/// The order of two pairs: by the first, then by the second.
pub open spec fn pair_order<A, B>(
    p: (A, B),
    q: (A, B),
    f: spec_fn(A, A) -> int,
    g: spec_fn(B, B) -> int,
) -> int {
    first_told(f(p.0, q.0), g(p.1, q.1))
}

/// The order of two optional things: nothing before something.
pub open spec fn opt_order<A>(p: Option<A>, q: Option<A>, f: spec_fn(A, A) -> int) -> int {
    match (p, q) {
        (None, None) => 0,
        (None, Some(_)) => -1,
        (Some(_), None) => 1,
        (Some(x), Some(y)) => f(x, y),
    }
}

/// Pairs are in a total order where their parts are.
pub proof fn lemma_pair_order<A, B>(f: spec_fn(A, A) -> int, g: spec_fn(B, B) -> int)
    requires
        is_order(f),
        is_order(g),
    ensures
        is_order(|p: (A, B), q: (A, B)| pair_order(p, q, f, g)),
{
    let h = |p: (A, B), q: (A, B)| pair_order(p, q, f, g);
    assert forall|x: (A, B), y: (A, B)| (#[trigger] h(x, y)) == 0 <==> x == y by {
        assert(f(x.0, y.0) == 0 <==> x.0 == y.0);
        assert(g(x.1, y.1) == 0 <==> x.1 == y.1);
    }
    assert forall|x: (A, B), y: (A, B)| (#[trigger] h(x, y)) < 0 <==> h(y, x) > 0 by {
        assert(f(x.0, y.0) < 0 <==> f(y.0, x.0) > 0);
        assert(f(x.0, y.0) == 0 <==> x.0 == y.0);
        assert(f(y.0, x.0) == 0 <==> x.0 == y.0);
        assert(g(x.1, y.1) < 0 <==> g(y.1, x.1) > 0);
    }
    assert forall|x: (A, B), y: (A, B), z: (A, B)|
        (#[trigger] h(x, y)) < 0 && (#[trigger] h(y, z)) < 0 implies h(x, z) < 0 by {
        assert(f(x.0, y.0) == 0 <==> x.0 == y.0);
        assert(f(y.0, z.0) == 0 <==> y.0 == z.0);
        assert(f(x.0, z.0) == 0 <==> x.0 == z.0);
        if f(x.0, y.0) < 0 && f(y.0, z.0) < 0 {
            assert(f(x.0, z.0) < 0);
        }
        if g(x.1, y.1) < 0 && g(y.1, z.1) < 0 {
            assert(g(x.1, z.1) < 0);
        }
    }
}

/// Optional things are in a total order where the things are.
pub proof fn lemma_opt_order<A>(f: spec_fn(A, A) -> int)
    requires
        is_order(f),
    ensures
        is_order(|p: Option<A>, q: Option<A>| opt_order(p, q, f)),
{
    let h = |p: Option<A>, q: Option<A>| opt_order(p, q, f);
    assert forall|x: Option<A>, y: Option<A>| (#[trigger] h(x, y)) == 0 <==> x == y by {
        if let (Some(a), Some(b)) = (x, y) {
            assert(f(a, b) == 0 <==> a == b);
        }
    }
    assert forall|x: Option<A>, y: Option<A>| (#[trigger] h(x, y)) < 0 <==> h(y, x) > 0 by {
        if let (Some(a), Some(b)) = (x, y) {
            assert(f(a, b) < 0 <==> f(b, a) > 0);
        }
    }
    assert forall|x: Option<A>, y: Option<A>, z: Option<A>|
        (#[trigger] h(x, y)) < 0 && (#[trigger] h(y, z)) < 0 implies h(x, z) < 0 by {
        if let (Some(a), Some(b)) = (x, y) {
            if let Some(c) = z {
                assert(f(a, b) < 0 && f(b, c) < 0);
                assert(f(a, c) < 0);
            }
        }
    }
}

/// The order of two lists of texts.
pub open spec fn texts_order(a: Seq<Seq<char>>, b: Seq<Seq<char>>) -> int {
    list_order(a, b, |x: Seq<char>, y: Seq<char>| text_order(x, y))
}

/// The order of two lists of pairs of texts.
pub open spec fn pairs_order(
    a: Seq<(Seq<char>, Seq<char>)>,
    b: Seq<(Seq<char>, Seq<char>)>,
) -> int {
    list_order(
        a,
        b,
        |p: (Seq<char>, Seq<char>), q: (Seq<char>, Seq<char>)|
            pair_order(
                p,
                q,
                |x: Seq<char>, y: Seq<char>| text_order(x, y),
                |x: Seq<char>, y: Seq<char>| text_order(x, y),
            ),
    )
}

/// The order of two optional texts.
pub open spec fn opt_text_order(a: Option<Seq<char>>, b: Option<Seq<char>>) -> int {
    opt_order(a, b, |x: Seq<char>, y: Seq<char>| text_order(x, y))
}

/// [`texts_order`].
pub(crate) fn order_text_lists(a: &Vec<String>, b: &Vec<String>) -> (r: i8)
    ensures
        r == texts_order(text::texts(a@), text::texts(b@)),
{
    let ghost x = text::texts(a@);
    let ghost y = text::texts(b@);
    let ghost f = |p: Seq<char>, q: Seq<char>| text_order(p, q);
    let mut i: usize = 0;
    assert(x.skip(0) == x);
    assert(y.skip(0) == y);
    loop
        invariant
            i <= a@.len(),
            i <= b@.len(),
            x == text::texts(a@),
            y == text::texts(b@),
            f == (|p: Seq<char>, q: Seq<char>| text_order(p, q)),
            texts_order(x, y) == list_order(x.skip(i as int), y.skip(i as int), f),
        decreases a@.len() - i,
    {
        if i == a.len() {
            return if i == b.len() {
                0
            } else {
                -1
            };
        }
        if i == b.len() {
            return 1;
        }
        let c = order_texts(&a[i], &b[i]);
        proof {
            assert(x.skip(i as int)[0] == a@[i as int]@);
            assert(y.skip(i as int)[0] == b@[i as int]@);
        }
        if c != 0 {
            return c;
        }
        proof {
            assert(x.skip(i as int).drop_first() == x.skip(i + 1));
            assert(y.skip(i as int).drop_first() == y.skip(i + 1));
        }
        i = i + 1;
    }
}

/// The texts of a list of pairs.
pub open spec fn pair_texts(v: Seq<(String, String)>) -> Seq<(Seq<char>, Seq<char>)> {
    v.map_values(|p: (String, String)| (p.0@, p.1@))
}

/// [`pairs_order`].
pub(crate) fn order_pair_lists(a: &Vec<(String, String)>, b: &Vec<(String, String)>) -> (r: i8)
    ensures
        r == pairs_order(pair_texts(a@), pair_texts(b@)),
{
    let ghost x = pair_texts(a@);
    let ghost y = pair_texts(b@);
    let ghost f = |p: (Seq<char>, Seq<char>), q: (Seq<char>, Seq<char>)|
        pair_order(
            p,
            q,
            |x: Seq<char>, y: Seq<char>| text_order(x, y),
            |x: Seq<char>, y: Seq<char>| text_order(x, y),
        );
    let mut i: usize = 0;
    assert(x.skip(0) == x);
    assert(y.skip(0) == y);
    assert(pairs_order(x, y) == list_order(x, y, f));
    loop
        invariant
            i <= a@.len(),
            i <= b@.len(),
            x == pair_texts(a@),
            y == pair_texts(b@),
            f == (|p: (Seq<char>, Seq<char>), q: (Seq<char>, Seq<char>)|
                pair_order(
                    p,
                    q,
                    |x: Seq<char>, y: Seq<char>| text_order(x, y),
                    |x: Seq<char>, y: Seq<char>| text_order(x, y),
                )),
            pairs_order(x, y) == list_order(x.skip(i as int), y.skip(i as int), f),
        decreases a@.len() - i,
    {
        if i == a.len() {
            return if i == b.len() {
                0
            } else {
                -1
            };
        }
        if i == b.len() {
            return 1;
        }
        let c = order_texts(&a[i].0, &b[i].0);
        let d = order_texts(&a[i].1, &b[i].1);
        proof {
            assert(x.skip(i as int)[0] == (a@[i as int].0@, a@[i as int].1@));
            assert(y.skip(i as int)[0] == (b@[i as int].0@, b@[i as int].1@));
            assert(f(x.skip(i as int)[0], y.skip(i as int)[0]) == first_told(c as int, d as int));
        }
        if c != 0 {
            return c;
        }
        if d != 0 {
            return d;
        }
        proof {
            assert(x.skip(i as int).drop_first() == x.skip(i + 1));
            assert(y.skip(i as int).drop_first() == y.skip(i + 1));
        }
        i = i + 1;
    }
}

/// [`opt_text_order`].
pub(crate) fn order_opt_texts(a: &Option<String>, b: &Option<String>) -> (r: i8)
    ensures
        r == opt_text_order(text::opt_text(*a), text::opt_text(*b)),
{
    match (a, b) {
        (None, None) => 0,
        (None, Some(_)) => -1,
        (Some(_), None) => 1,
        (Some(x), Some(y)) => order_texts(x, y),
    }
}

// ---------------------------------------------------------------------------
// Lists in order
// ---------------------------------------------------------------------------

/// A type whose values are in a total order.
pub trait Ranked: View + Sized {
    /// The three-way comparison of two values.
    spec fn rank(a: Self::V, b: Self::V) -> int;

    proof fn rank_is_order()
        ensures
            is_order(|a: Self::V, b: Self::V| Self::rank(a, b)),
    ;

    /// [`Self::rank`].
    fn rank_against(&self, other: &Self) -> (r: i8)
        ensures
            r == Self::rank(self@, other@),
    ;
}

impl Ranked for String {
    open spec fn rank(a: Seq<char>, b: Seq<char>) -> int {
        text_order(a, b)
    }

    proof fn rank_is_order() {
        lemma_text_order();
        let g = |a: Seq<char>, b: Seq<char>| text_order(a, b);
        let h = |a: Seq<char>, b: Seq<char>| <String as Ranked>::rank(a, b);
        assert(g =~= h);
    }

    fn rank_against(&self, other: &String) -> (r: i8) {
        order_texts(self, other)
    }
}

/// What the values of a list stand for.
pub open spec fn views<T: View>(v: Seq<T>) -> Seq<T::V> {
    v.map_values(|t: T| t@)
}

/// Whether each value stands before the next, none twice.
pub open spec fn ascending<T: Ranked>(s: Seq<T::V>) -> bool {
    forall|i: int, j: int| 0 <= i < j < s.len() ==> T::rank(#[trigger] s[i], #[trigger] s[j]) < 0
}

/// Put a value in its place in a list in order, unless it is there already.
pub(crate) fn place<T: Ranked>(v: &mut Vec<T>, x: T)
    requires
        ascending::<T>(views(old(v)@)),
    ensures
        ascending::<T>(views(final(v)@)),
        forall|y: T::V|
            #[trigger] views(final(v)@).contains(y) <==> views(old(v)@).contains(y) || y == x@,
{
    let ghost before = views(v@);
    let ghost new = x@;
    proof {
        T::rank_is_order();
    }
    let ghost f = |a: T::V, b: T::V| T::rank(a, b);
    let n = v.len();
    let mut i: usize = 0;
    while i < n
        invariant_except_break
            forall|k: int| 0 <= k < i ==> T::rank(#[trigger] before[k], new) < 0,
        invariant
            i <= n,
            n == v@.len(),
            before == views(v@),
            v@ == old(v)@,
            new == x@,
            is_order(f),
            f == (|a: T::V, b: T::V| T::rank(a, b)),
            ascending::<T>(before),
        ensures
            forall|k: int| 0 <= k < i ==> T::rank(#[trigger] before[k], new) < 0,
            i < n ==> T::rank(before[i as int], new) > 0,
            !before.contains(new) || i == n,
        decreases n - i,
    {
        let r = v[i].rank_against(&x);
        assert(before[i as int] == v@[i as int]@);
        assert(f(before[i as int], new) == r);
        if r == 0 {
            proof {
                assert(before[i as int] == new);
                assert forall|y: T::V| views(v@).contains(y) <==> before.contains(y) || y
                    == new by {}
            }
            return;
        }
        if r > 0 {
            proof {
                assert forall|k: int| 0 <= k < before.len() implies before[k] != new by {
                    assert(f(new, new) == 0);
                    assert(f(before[k], new) == 0 <==> before[k] == new);
                    if k > i {
                        assert(f(before[i as int], before[k]) < 0);
                        assert(f(before[i as int], new) > 0);
                    }
                }
            }
            break;
        }
        i = i + 1;
    }
    proof {
        assert forall|k: int| i <= k < before.len() implies f(new, #[trigger] before[k]) < 0 by {
            assert(f(before[i as int], new) > 0);
            assert(f(new, before[i as int]) < 0);
            if k > i {
                assert(f(before[i as int], before[k]) < 0);
            }
        }
    }
    v.insert(i, x);
    proof {
        let after = views(v@);
        assert(after =~= before.insert(i as int, new));
        assert forall|a: int, b: int| 0 <= a < b < after.len() implies T::rank(
            #[trigger] after[a],
            #[trigger] after[b],
        ) < 0 by {
            if a < i {
                assert(after[a] == before[a]);
                if b == i {
                    assert(T::rank(before[a], new) < 0);
                } else if b < i {
                    assert(after[b] == before[b]);
                } else {
                    assert(after[b] == before[b - 1]);
                }
            } else if a == i {
                assert(after[b] == before[b - 1]);
                assert(f(new, before[b - 1]) < 0);
            } else {
                assert(after[a] == before[a - 1]);
                assert(after[b] == before[b - 1]);
            }
        }
        assert forall|y: T::V| #[trigger] after.contains(y) <==> before.contains(y) || y == new by {
            if before.contains(y) {
                let k = choose|k: int| 0 <= k < before.len() && before[k] == y;
                if k < i {
                    assert(after[k] == y);
                } else {
                    assert(after[k + 1] == y);
                }
            }
            if y == new {
                assert(after[i as int] == y);
            }
            if after.contains(y) {
                let k = choose|k: int| 0 <= k < after.len() && after[k] == y;
                if k < i {
                    assert(before[k] == y);
                } else if k > i {
                    assert(before[k - 1] == y);
                }
            }
        }
    }
}

/// Two lists in order that hold the same values are the same list.
pub proof fn lemma_one_order<T: Ranked>(a: Seq<T::V>, b: Seq<T::V>)
    requires
        ascending::<T>(a),
        ascending::<T>(b),
        forall|x: T::V|
            #![trigger a.contains(x)]
            #![trigger b.contains(x)]
            a.contains(x) <==> b.contains(x),
    ensures
        a == b,
    decreases a.len(),
{
    T::rank_is_order();
    let f = |x: T::V, y: T::V| T::rank(x, y);
    if a.len() == 0 {
        if b.len() > 0 {
            assert(b.contains(b[0]));
        }
        assert(a =~= b);
    } else if b.len() == 0 {
        assert(a.contains(a[0]));
    } else {
        // The last of each is the last of both.
        assert(a.contains(a.last()));
        assert(b.contains(b.last()));
        let i = choose|i: int| 0 <= i < b.len() && b[i] == a.last();
        let j = choose|j: int| 0 <= j < a.len() && a[j] == b.last();
        if i < b.len() - 1 {
            assert(f(b[i], b.last()) < 0);
            if j < a.len() - 1 {
                assert(f(a[j], a.last()) < 0);
                assert(f(b.last(), a.last()) < 0);
                assert(f(a.last(), b.last()) > 0);
            } else {
                assert(f(b[i], b.last()) == 0);
            }
        }
        assert(a.last() == b.last());
        let c = a.drop_last();
        let d = b.drop_last();
        assert forall|x: T::V|
            #![trigger c.contains(x)]
            #![trigger d.contains(x)]
            c.contains(x) <==> d.contains(x) by {
            if c.contains(x) {
                let k = choose|k: int| 0 <= k < c.len() && c[k] == x;
                assert(a[k] == x);
                assert(a.contains(x));
                let l = choose|l: int| 0 <= l < b.len() && b[l] == x;
                assert(f(a[k], a.last()) < 0);
                assert(f(x, x) == 0);
                assert(l != b.len() - 1);
                assert(d[l] == x);
            }
            if d.contains(x) {
                let k = choose|k: int| 0 <= k < d.len() && d[k] == x;
                assert(b[k] == x);
                assert(b.contains(x));
                let l = choose|l: int| 0 <= l < a.len() && a[l] == x;
                assert(f(b[k], b.last()) < 0);
                assert(f(x, x) == 0);
                assert(l != a.len() - 1);
                assert(c[l] == x);
            }
        }
        assert(ascending::<T>(c)) by {
            assert forall|p: int, q: int| 0 <= p < q < c.len() implies T::rank(
                #[trigger] c[p],
                #[trigger] c[q],
            ) < 0 by {
                assert(c[p] == a[p] && c[q] == a[q]);
            }
        }
        assert(ascending::<T>(d)) by {
            assert forall|p: int, q: int| 0 <= p < q < d.len() implies T::rank(
                #[trigger] d[p],
                #[trigger] d[q],
            ) < 0 by {
                assert(d[p] == b[p] && d[q] == b[q]);
            }
        }
        lemma_one_order::<T>(c, d);
        assert(a =~= c.push(a.last()));
        assert(b =~= d.push(b.last()));
    }
}

// ---------------------------------------------------------------------------
// Laws
// ---------------------------------------------------------------------------

/// Texts are ordered by the first character in which they differ, and a text
/// stands before every longer one that it begins.
pub proof fn law_texts_are_ordered_by_the_first_difference(a: Seq<char>, b: Seq<char>, i: int)
    requires
        0 <= i <= a.len(),
        i <= b.len(),
        forall|j: int| 0 <= j < i ==> #[trigger] a[j] == b[j],
    ensures
        i < a.len() && i < b.len() && a[i] < b[i] ==> text_order(a, b) < 0 && text_order(b, a) > 0,
        i == a.len() && i < b.len() ==> text_order(a, b) < 0 && text_order(b, a) > 0,
        i == a.len() && i == b.len() ==> text_order(a, b) == 0,
    decreases i,
{
    let f = |x: char, y: char| char_order(x, y);
    if i > 0 {
        assert(a[0] == b[0]);
        let c = a.drop_first();
        let d = b.drop_first();
        assert forall|j: int| 0 <= j < i - 1 implies #[trigger] c[j] == d[j] by {
            assert(a[j + 1] == b[j + 1]);
        }
        law_texts_are_ordered_by_the_first_difference(c, d, i - 1);
        assert(f(a[0], b[0]) == 0);
        assert(f(b[0], a[0]) == 0);
        assert(text_order(a, b) == text_order(c, d));
        assert(text_order(b, a) == text_order(d, c));
    }
}

/// What may be missing stands first where it is, and what is told first decides
/// before what is told second.
pub proof fn law_what_is_missing_stands_first(s: Seq<char>, t: Seq<char>, a: int, b: int)
    ensures
        opt_text_order(None, Some(s)) < 0,
        opt_text_order(Some(s), None) > 0,
        opt_text_order(None, None) == 0,
        opt_text_order(Some(s), Some(t)) == text_order(s, t),
        a != 0 ==> first_told(a, b) == a,
        first_told(0, b) == b,
{
}

/// Lists are ordered by the first item in which they differ, as the items are,
/// and a list stands before every longer one that it begins.
pub proof fn law_lists_are_ordered_by_the_first_difference<T>(
    a: Seq<T>,
    b: Seq<T>,
    f: spec_fn(T, T) -> int,
    i: int,
)
    requires
        0 <= i <= a.len(),
        i <= b.len(),
        forall|j: int| 0 <= j < i ==> f(#[trigger] a[j], b[j]) == 0,
    ensures
        i < a.len() && i < b.len() && f(a[i], b[i]) != 0 ==> list_order(a, b, f) == f(a[i], b[i]),
        i == a.len() && i < b.len() ==> list_order(a, b, f) < 0,
        i < a.len() && i == b.len() ==> list_order(a, b, f) > 0,
        i == a.len() && i == b.len() ==> list_order(a, b, f) == 0,
    decreases i,
{
    if i > 0 {
        assert(f(a[0], b[0]) == 0);
        let c = a.drop_first();
        let d = b.drop_first();
        assert forall|j: int| 0 <= j < i - 1 implies f(#[trigger] c[j], d[j]) == 0 by {
            assert(f(a[j + 1], b[j + 1]) == 0);
        }
        law_lists_are_ordered_by_the_first_difference(c, d, f, i - 1);
    }
}

/// A row stands in order where each stands before every one behind it.
pub proof fn law_a_row_in_order<T: Ranked>(s: Seq<T::V>, i: int, j: int)
    requires
        ascending::<T>(s),
        0 <= i < j < s.len(),
    ensures
        T::rank(s[i], s[j]) < 0,
{
}

} // verus!
