//! Lexicographic order on texts and a sort of values by text keys.
//!
//! `String`'s `Ord` compares UTF-8 bytes lexicographically, which orders
//! texts exactly as comparing their characters by code point does.
use vstd::prelude::*;

verus! {

broadcast use vstd::seq_lib::group_to_multiset_ensures;

/// `a <= b` in the lexicographic order of code points.
pub open spec fn text_le(a: Seq<char>, b: Seq<char>) -> bool
    decreases a.len(),
{
    if a.len() == 0 {
        true
    } else if b.len() == 0 {
        false
    } else if (a[0] as u32) != (b[0] as u32) {
        (a[0] as u32) < (b[0] as u32)
    } else {
        text_le(a.drop_first(), b.drop_first())
    }
}

/// Any two texts are ordered one way or the other.
pub proof fn lemma_text_le_total(a: Seq<char>, b: Seq<char>)
    ensures
        text_le(a, b) || text_le(b, a),
    decreases a.len(),
{
    if a.len() > 0 && b.len() > 0 && (a[0] as u32) == (b[0] as u32) {
        lemma_text_le_total(a.drop_first(), b.drop_first());
    }
}

/// The order is transitive.
pub proof fn lemma_text_le_trans(a: Seq<char>, b: Seq<char>, c: Seq<char>)
    requires
        text_le(a, b),
        text_le(b, c),
    ensures
        text_le(a, c),
    decreases a.len(),
{
    if a.len() > 0 && b.len() > 0 && c.len() > 0 && (a[0] as u32) == (b[0] as u32) && (b[0] as u32)
        == (c[0] as u32) {
        lemma_text_le_trans(a.drop_first(), b.drop_first(), c.drop_first());
    }
}

/// The order is reflexive.
pub proof fn lemma_text_le_refl(a: Seq<char>)
    ensures
        text_le(a, a),
    decreases a.len(),
{
    if a.len() > 0 {
        lemma_text_le_refl(a.drop_first());
    }
}

/// Compares two texts.
pub fn text_le_exec(a: &Vec<char>, b: &Vec<char>) -> (r: bool)
    ensures
        r == text_le(a@, b@),
{
    let mut i: usize = 0;
    assert(a@.skip(0) =~= a@);
    assert(b@.skip(0) =~= b@);
    while i < a.len() && i < b.len() && (a[i] as u32) == (b[i] as u32)
        invariant
            i <= a.len(),
            i <= b.len(),
            text_le(a@, b@) == text_le(a@.skip(i as int), b@.skip(i as int)),
        decreases a.len() - i,
    {
        assert(a@.skip(i as int).drop_first() =~= a@.skip(i + 1));
        assert(b@.skip(i as int).drop_first() =~= b@.skip(i + 1));
        i += 1;
    }
    if i == a.len() {
        true
    } else if i == b.len() {
        false
    } else {
        (a[i] as u32) < (b[i] as u32)
    }
}

/// A value that is ordered by a text key.
pub trait TextKeyed {
    /// The key the value is ordered by.
    spec fn sort_key(&self) -> Seq<char>;

    /// Computes the key.
    fn text_key(&self) -> (r: Vec<char>)
        ensures
            r@ == self.sort_key(),
    ;
}

/// Every key is at most every later key.
pub open spec fn keys_sorted<T: TextKeyed>(s: Seq<T>) -> bool {
    forall|i: int, j: int|
        0 <= i < j < s.len() ==> text_le(#[trigger] s[i].sort_key(), #[trigger] s[j].sort_key())
}

/// The items whose key is `k`, in their order.
pub open spec fn with_key<T: TextKeyed>(s: Seq<T>, k: Seq<char>) -> Seq<T>
    decreases s.len(),
{
    if s.len() == 0 {
        Seq::empty()
    } else {
        let rest = with_key(s.drop_last(), k);
        if s.last().sort_key() == k {
            rest.push(s.last())
        } else {
            rest
        }
    }
}

proof fn lemma_with_key_add<T: TextKeyed>(a: Seq<T>, b: Seq<T>, k: Seq<char>)
    ensures
        with_key(a + b, k) == with_key(a, k) + with_key(b, k),
    decreases b.len(),
{
    if b.len() == 0 {
        assert(a + b =~= a);
        assert(with_key(a, k) + with_key(b, k) =~= with_key(a, k));
    } else {
        lemma_with_key_add(a, b.drop_last(), k);
        assert((a + b).drop_last() =~= a + b.drop_last());
        assert((a + b).last() == b.last());
        if b.last().sort_key() == k {
            assert(with_key(a, k) + with_key(b.drop_last(), k).push(b.last()) =~= (with_key(a, k) + with_key(
                b.drop_last(),
                k,
            )).push(b.last()));
        }
    }
}

proof fn lemma_with_key_none<T: TextKeyed>(s: Seq<T>, k: Seq<char>)
    requires
        forall|q: int| 0 <= q < s.len() ==> (#[trigger] s[q]).sort_key() != k,
    ensures
        with_key(s, k) == Seq::<T>::empty(),
    decreases s.len(),
{
    if s.len() > 0 {
        assert forall|q: int| 0 <= q < s.drop_last().len() implies (#[trigger] s.drop_last()[q]).sort_key() != k by {
            assert(s.drop_last()[q] == s[q]);
        }
        lemma_with_key_none(s.drop_last(), k);
    }
}

proof fn lemma_with_key_single<T: TextKeyed>(x: T, k: Seq<char>)
    ensures
        with_key(seq![x], k) == if x.sort_key() == k {
            seq![x]
        } else {
            Seq::<T>::empty()
        },
{
    let s = seq![x];
    assert(s.len() == 1);
    assert(s.drop_last() =~= Seq::<T>::empty());
    assert(s.last() == x);
    assert(with_key(s.drop_last(), k) == Seq::<T>::empty());
    assert(Seq::<T>::empty().push(x) =~= s);
}

/// Inserting `x` before every item whose key is not below its own puts
/// it first among the items with its key.
proof fn lemma_with_key_insert<T: TextKeyed>(before: Seq<T>, p: int, x: T, k: Seq<char>)
    requires
        0 <= p <= before.len(),
        forall|q: int| 0 <= q < p ==> !text_le(x.sort_key(), #[trigger] before[q].sort_key()),
    ensures
        with_key(before.insert(p, x), k) == with_key(seq![x], k) + with_key(before, k),
{
    let head = before.take(p);
    let tail = before.skip(p);
    assert(before.insert(p, x) =~= (head + seq![x]) + tail);
    assert(before =~= head + tail);
    lemma_with_key_add(head + seq![x], tail, k);
    lemma_with_key_add(head, seq![x], k);
    lemma_with_key_add(head, tail, k);
    lemma_with_key_single(x, k);
    if x.sort_key() == k {
        assert forall|q: int| 0 <= q < head.len() implies (#[trigger] head[q]).sort_key() != k by {
            assert(head[q] == before[q]);
            lemma_text_le_refl(k);
        }
        lemma_with_key_none(head, k);
        assert(with_key(head, k) + with_key(seq![x], k) =~= with_key(seq![x], k));
        assert(with_key(head, k) + with_key(tail, k) =~= with_key(tail, k));
    } else {
        assert(with_key(head, k) + with_key(seq![x], k) =~= with_key(head, k));
        assert(with_key(seq![x], k) + with_key(before, k) =~= with_key(before, k));
    }
}

/// `items` reordered so that their keys ascend; items with equal keys keep
/// their order (a stable sort).
pub fn sort_by_text_key<T: TextKeyed>(items: Vec<T>) -> (r: Vec<T>)
    ensures
        r@.to_multiset() == items@.to_multiset(),
        keys_sorted(r@),
        forall|k: Seq<char>| #[trigger] with_key(r@, k) == with_key(items@, k),
{
    let ghost given = items@;
    let mut input = items;
    let mut out: Vec<T> = Vec::new();
    assert(out@.to_multiset().add(input@.to_multiset()) =~= given.to_multiset());
    assert(input@ =~= given.take(input@.len() as int));
    assert forall|k: Seq<char>| #[trigger] with_key(out@, k) == with_key(given.skip(input@.len() as int), k) by {
        assert(given.skip(input@.len() as int) =~= Seq::<T>::empty());
    }
    while input.len() > 0
        invariant
            keys_sorted(out@),
            out@.to_multiset().add(input@.to_multiset()) == given.to_multiset(),
            input@.len() <= given.len(),
            input@ == given.take(input@.len() as int),
            forall|k: Seq<char>| #[trigger] with_key(out@, k) == with_key(given.skip(input@.len() as int), k),
        decreases input.len(),
    {
        let ghost before_input = input@;
        let x = input.pop().unwrap();
        assert(before_input =~= input@.push(x));
        assert(input@ =~= given.take(input@.len() as int));
        let ghost n = input@.len() as int;
        assert(given[n] == x);
        assert(given.skip(n) =~= seq![x] + given.skip(n + 1));
        let key = x.text_key();
        let mut p: usize = 0;
        while p < out.len() && !text_le_exec(&key, &out[p].text_key())
            invariant
                p <= out.len(),
                key@ == x.sort_key(),
                forall|q: int| 0 <= q < p ==> !text_le(key@, #[trigger] out@[q].sort_key()),
            decreases out.len() - p,
        {
            p += 1;
        }
        let ghost before = out@;
        out.insert(p, x);
        assert forall|k: Seq<char>| #[trigger] with_key(out@, k) == with_key(given.skip(n), k) by {
            lemma_with_key_insert(before, p as int, x, k);
            lemma_with_key_add(seq![x], given.skip(n + 1), k);
        }
        assert forall|i: int, j: int| 0 <= i < j < out@.len() implies text_le(
            #[trigger] out@[i].sort_key(),
            #[trigger] out@[j].sort_key(),
        ) by {
            if i < p && j == p {
                lemma_text_le_total(key@, before[i].sort_key());
            } else if i == p && j > p {
                if j - 1 > p {
                    lemma_text_le_trans(key@, before[p as int].sort_key(), before[j - 1].sort_key());
                }
            }
        }
    }
    assert(input@ =~= Seq::<T>::empty());
    assert(given.skip(0) =~= given);
    assert(out@.to_multiset() =~= out@.to_multiset().add(input@.to_multiset()));
    out
}

} // verus!
