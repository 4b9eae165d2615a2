//! Ordering of siblings by title.
use vstd::prelude::*;

verus! {

/// `a` comes before `b`: lexicographic order of their characters.
pub open spec fn title_lt(a: Seq<char>, b: Seq<char>) -> bool
    decreases a.len(),
{
    if b.len() == 0 {
        false
    } else if a.len() == 0 {
        true
    } else if a[0] != b[0] {
        a[0] < b[0]
    } else {
        title_lt(a.drop_first(), b.drop_first())
    }
}

/// Whether title `a` comes strictly before title `b`.
pub fn title_less(a: &str, b: &str) -> (r: bool)
    ensures
        r == title_lt(a@, b@),
{
    let na = a.unicode_len();
    let nb = b.unicode_len();
    let mut i: usize = 0;
    assert(a@.skip(0) =~= a@);
    assert(b@.skip(0) =~= b@);
    while i < na && i < nb
        invariant
            na == a@.len(),
            nb == b@.len(),
            i <= na,
            i <= nb,
            a@.take(i as int) == b@.take(i as int),
            title_lt(a@, b@) == title_lt(a@.skip(i as int), b@.skip(i as int)),
        decreases na - i,
    {
        let ca = a.get_char(i);
        let cb = b.get_char(i);
        assert(a@.skip(i as int)[0] == ca);
        assert(b@.skip(i as int)[0] == cb);
        if ca != cb {
            return ca < cb;
        }
        assert(a@.skip(i as int).drop_first() =~= a@.skip(i as int + 1));
        assert(b@.skip(i as int).drop_first() =~= b@.skip(i as int + 1));
        assert(a@.take(i as int + 1) =~= a@.take(i as int).push(ca));
        assert(b@.take(i as int + 1) =~= b@.take(i as int).push(cb));
        i = i + 1;
    }
    i < nb
}

/// A node that is ordered among its siblings by its title.
pub trait Titled: View + Sized {
    spec fn key(v: Self::V) -> Seq<char>;

    fn title_str(&self) -> (r: &str)
        ensures
            r@ == Self::key(self@),
    ;
}

pub open spec fn views<T: View>(s: Seq<T>) -> Seq<T::V> {
    s.map_values(|x: T| x@)
}

/// `x` put into `s` after every element whose title does not come after its own.
pub open spec fn insert_sorted<T: Titled>(s: Seq<T::V>, x: T::V) -> Seq<T::V>
    decreases s.len(),
{
    if s.len() > 0 && title_lt(T::key(x), T::key(s.last())) {
        insert_sorted::<T>(s.drop_last(), x).push(s.last())
    } else {
        s.push(x)
    }
}

/// `s` sorted by title; elements with equal titles keep their order.
pub open spec fn sort_titled<T: Titled>(s: Seq<T::V>) -> Seq<T::V>
    decreases s.len(),
{
    if s.len() == 0 {
        s
    } else {
        insert_sorted::<T>(sort_titled::<T>(s.drop_last()), s.last())
    }
}

proof fn lemma_insert_at<T: Titled>(s: Seq<T::V>, x: T::V, j: int)
    requires
        0 <= j <= s.len(),
        forall|k: int| j <= k < s.len() ==> title_lt(T::key(x), #[trigger] T::key(s[k])),
        j == 0 || !title_lt(T::key(x), T::key(s[j - 1])),
    ensures
        insert_sorted::<T>(s, x) == s.take(j).push(x) + s.skip(j),
    decreases s.len(),
{
    if j == s.len() {
        assert(s.take(j).push(x) + s.skip(j) =~= s.push(x));
    } else {
        assert(title_lt(T::key(x), T::key(s[s.len() - 1])));
        let d = s.drop_last();
        assert forall|k: int| j <= k < d.len() implies title_lt(T::key(x), #[trigger] T::key(d[k])) by {
            assert(d[k] == s[k]);
        }
        lemma_insert_at::<T>(d, x, j);
        assert(d.take(j).push(x) + d.skip(j) + seq![s.last()] =~= s.take(j).push(x) + s.skip(j));
        assert(insert_sorted::<T>(s, x) == insert_sorted::<T>(d, x).push(s.last()));
    }
}

/// The elements of `v` sorted by title, stably.
pub fn sort_by_title<T: Titled>(v: Vec<T>) -> (r: Vec<T>)
    ensures
        views(r@) == sort_titled::<T>(views(v@)),
{
    let ghost orig = v@;
    let n = v.len();
    let mut rest = v;
    let mut r: Vec<T> = Vec::new();
    let mut i: usize = 0;
    while i < n
        invariant
            n == orig.len(),
            i <= n,
            rest@ == orig.subrange(i as int, n as int),
            views(r@) == sort_titled::<T>(views(orig.take(i as int))),
        decreases n - i,
    {
        let x = rest.remove(0);
        assert(x == orig[i as int]);
        let mut j: usize = r.len();
        while j > 0 && title_less(x.title_str(), r[j - 1].title_str())
            invariant
                j <= r@.len(),
                forall|k: int| j <= k < r@.len() ==> title_lt(T::key(x@), #[trigger] T::key(views(r@)[k])),
            decreases j,
        {
            j = j - 1;
        }
        let ghost s = views(r@);
        proof {
            assert forall|k: int| j <= k < s.len() implies title_lt(T::key(x@), #[trigger] T::key(s[k])) by {}
            lemma_insert_at::<T>(s, x@, j as int);
            let t = views(orig.take(i as int + 1));
            assert(t.drop_last() =~= views(orig.take(i as int)));
            assert(t.last() == x@);
        }
        r.insert(j, x);
        assert(views(r@) =~= s.take(j as int).push(x@) + s.skip(j as int));
        i = i + 1;
    }
    assert(orig.take(n as int) =~= orig);
    r
}

proof fn lemma_lt_irreflexive(a: Seq<char>)
    ensures
        !title_lt(a, a),
    decreases a.len(),
{
    if a.len() > 0 {
        lemma_lt_irreflexive(a.drop_first());
    }
}

proof fn lemma_lt_transitive(a: Seq<char>, b: Seq<char>, c: Seq<char>)
    requires
        title_lt(a, b),
        title_lt(b, c),
    ensures
        title_lt(a, c),
    decreases a.len(),
{
    if a.len() > 0 && b.len() > 0 && c.len() > 0 && a[0] == b[0] && b[0] == c[0] {
        lemma_lt_transitive(a.drop_first(), b.drop_first(), c.drop_first());
    }
}

proof fn lemma_lt_total(a: Seq<char>, b: Seq<char>)
    requires
        a != b,
    ensures
        title_lt(a, b) || title_lt(b, a),
    decreases a.len(),
{
    if a.len() == 0 && b.len() == 0 {
        assert(a =~= b);
    } else if a.len() > 0 && b.len() > 0 && a[0] == b[0] {
        if a.drop_first() == b.drop_first() {
            assert(a =~= seq![a[0]] + a.drop_first());
            assert(b =~= seq![b[0]] + b.drop_first());
        }
        lemma_lt_total(a.drop_first(), b.drop_first());
    }
}

/// No element of `s` has a title before that of an element ahead of it.
pub open spec fn sorted_by_title<T: Titled>(s: Seq<T::V>) -> bool {
    forall|i: int, j: int|
        0 <= i < j < s.len() ==> !title_lt(#[trigger] T::key(s[j]), #[trigger] T::key(s[i]))
}

proof fn lemma_insert_sorted<T: Titled>(s: Seq<T::V>, x: T::V)
    requires
        sorted_by_title::<T>(s),
    ensures
        sorted_by_title::<T>(insert_sorted::<T>(s, x)),
        insert_sorted::<T>(s, x).to_multiset() == s.to_multiset().insert(x),
    decreases s.len(),
{
    broadcast use vstd::seq_lib::group_to_multiset_ensures;

    let r = insert_sorted::<T>(s, x);
    if s.len() > 0 && title_lt(T::key(x), T::key(s.last())) {
        let d = s.drop_last();
        let last = s.last();
        assert(s =~= d.push(last));
        lemma_insert_sorted::<T>(d, x);
        let r1 = insert_sorted::<T>(d, x);
        assert(r == r1.push(last));
        assert forall|i: int, j: int| 0 <= i < j < r.len() implies !title_lt(
            #[trigger] T::key(r[j]),
            #[trigger] T::key(r[i]),
        ) by {
            if j == r.len() - 1 {
                let e = r1[i];
                assert(r1.contains(e));
                assert(r1.to_multiset().count(e) > 0);
                if e == x {
                    lemma_lt_irreflexive(T::key(last));
                    if title_lt(T::key(last), T::key(x)) {
                        lemma_lt_transitive(T::key(last), T::key(x), T::key(last));
                    }
                } else {
                    assert(d.to_multiset().count(e) > 0);
                    assert(d.contains(e));
                    let k = choose|k: int| 0 <= k < d.len() && d[k] == e;
                    assert(s[k] == e);
                    assert(!title_lt(T::key(s[s.len() - 1]), T::key(s[k])));
                }
            } else {
                assert(r[i] == r1[i]);
                assert(r[j] == r1[j]);
            }
        }
    } else {
        assert(r == s.push(x));
        assert forall|i: int, j: int| 0 <= i < j < r.len() implies !title_lt(
            #[trigger] T::key(r[j]),
            #[trigger] T::key(r[i]),
        ) by {
            if j == r.len() - 1 {
                let e = s[i];
                let last = s.last();
                assert(!title_lt(T::key(x), T::key(last)));
                if title_lt(T::key(x), T::key(e)) {
                    if i < s.len() - 1 {
                        assert(!title_lt(T::key(s[s.len() - 1]), T::key(s[i])));
                        if T::key(e) != T::key(last) {
                            lemma_lt_total(T::key(e), T::key(last));
                            lemma_lt_transitive(T::key(x), T::key(e), T::key(last));
                        }
                    }
                }
            } else {
                assert(r[i] == s[i]);
                assert(r[j] == s[j]);
            }
        }
    }
}

/// Sorting by title gives the same elements, each as often, with no title
/// before that of an element ahead of it.
pub proof fn lemma_sort_titled<T: Titled>(s: Seq<T::V>)
    ensures
        sorted_by_title::<T>(sort_titled::<T>(s)),
        sort_titled::<T>(s).to_multiset() == s.to_multiset(),
    decreases s.len(),
{
    broadcast use vstd::seq_lib::group_to_multiset_ensures;

    if s.len() > 0 {
        lemma_sort_titled::<T>(s.drop_last());
        lemma_insert_sorted::<T>(sort_titled::<T>(s.drop_last()), s.last());
        assert(s =~= s.drop_last().push(s.last()));
    }
}

} // verus!
