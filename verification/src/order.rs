//! The order of texts and of byte strings: symbol by symbol, the shorter one first where one
//! starts the other.

use vstd::prelude::*;

use crate::text::chars_of;

verus! {

/// Whether `a` comes before `b`.
pub open spec fn before(a: Seq<int>, b: Seq<int>) -> bool
    decreases a.len(),
{
    if b.len() == 0 {
        false
    } else if a.len() == 0 {
        true
    } else if a[0] == b[0] {
        before(a.drop_first(), b.drop_first())
    } else {
        a[0] < b[0]
    }
}

/// A text as code points.
pub open spec fn codes(s: Seq<char>) -> Seq<int> {
    s.map_values(|c: char| c as u32 as int)
}

/// A byte string as numbers.
pub open spec fn byte_codes(s: Seq<u8>) -> Seq<int> {
    s.map_values(|b: u8| b as int)
}

/// A character is known by its code point.
proof fn lemma_code_injective(a: char, b: char)
    requires
        a as u32 == b as u32,
    ensures
        a == b,
{
}

/// Texts with the same code points are the same.
pub proof fn lemma_codes_injective(a: Seq<char>, b: Seq<char>)
    requires
        codes(a) == codes(b),
    ensures
        a == b,
{
    assert(a.len() == codes(a).len() && b.len() == codes(b).len());
    assert forall|i: int| 0 <= i < a.len() implies a[i] == b[i] by {
        assert(codes(a)[i] == a[i] as u32);
        assert(codes(b)[i] == b[i] as u32);
        lemma_code_injective(a[i], b[i]);
    }
    assert(a =~= b);
}

/// Nothing comes before itself.
pub proof fn lemma_before_irreflexive(a: Seq<int>)
    ensures
        !before(a, a),
    decreases a.len(),
{
    if a.len() > 0 {
        lemma_before_irreflexive(a.drop_first());
    }
}

/// What comes before something comes before all that follows it.
pub proof fn lemma_before_transitive(a: Seq<int>, b: Seq<int>, c: Seq<int>)
    requires
        before(a, b),
        before(b, c),
    ensures
        before(a, c),
    decreases a.len(),
{
    if a.len() > 0 && a[0] == b[0] && b[0] == c[0] {
        lemma_before_transitive(a.drop_first(), b.drop_first(), c.drop_first());
    }
}

/// Of two different sequences, one comes before the other.
pub proof fn lemma_before_total(a: Seq<int>, b: Seq<int>)
    ensures
        before(a, b) || a == b || before(b, a),
    decreases a.len(),
{
    if a.len() > 0 && b.len() > 0 && a[0] == b[0] {
        lemma_before_total(a.drop_first(), b.drop_first());
        if a.drop_first() == b.drop_first() {
            assert(a =~= seq![a[0]] + a.drop_first());
            assert(b =~= seq![b[0]] + b.drop_first());
        }
    } else if a.len() == 0 && b.len() == 0 {
        assert(a =~= b);
    }
}

/// Two sequences do not come before each other.
pub proof fn lemma_before_asymmetric(a: Seq<int>, b: Seq<int>)
    requires
        before(a, b),
    ensures
        !before(b, a),
{
    if before(b, a) {
        lemma_before_transitive(a, b, a);
        lemma_before_irreflexive(a);
    }
}

/// Whether text `a` comes before text `b`.
pub fn text_before(a: &str, b: &str) -> (r: bool)
    ensures
        r == before(codes(a@), codes(b@)),
{
    let x: Vec<char> = chars_of(a);
    let y: Vec<char> = chars_of(b);
    let ghost p = codes(a@);
    let ghost q = codes(b@);
    let mut i: usize = 0;
    assert(p.skip(0) =~= p && q.skip(0) =~= q);
    while i < x.len() && i < y.len() && x[i] == y[i]
        invariant
            i <= x@.len(),
            i <= y@.len(),
            p == codes(x@),
            q == codes(y@),
            before(p.skip(i as int), q.skip(i as int)) == before(p, q),
        decreases x@.len() - i,
    {
        assert(p.skip(i as int).drop_first() =~= p.skip(i + 1));
        assert(q.skip(i as int).drop_first() =~= q.skip(i + 1));
        i = i + 1;
    }
    if i >= y.len() {
        false
    } else if i >= x.len() {
        true
    } else {
        let c: char = x[i];
        let d: char = y[i];
        proof {
            assert(p.skip(i as int)[0] == c as u32);
            assert(q.skip(i as int)[0] == d as u32);
            if c as u32 == d as u32 {
                lemma_code_injective(c, d);
            }
        }
        (c as u32) < (d as u32)
    }
}

/// Whether byte string `a` comes before byte string `b`.
pub fn bytes_before(a: &[u8], b: &[u8]) -> (r: bool)
    ensures
        r == before(byte_codes(a@), byte_codes(b@)),
{
    let ghost p = byte_codes(a@);
    let ghost q = byte_codes(b@);
    let mut i: usize = 0;
    assert(p.skip(0) =~= p && q.skip(0) =~= q);
    while i < a.len() && i < b.len() && a[i] == b[i]
        invariant
            i <= a@.len(),
            i <= b@.len(),
            p == byte_codes(a@),
            q == byte_codes(b@),
            before(p.skip(i as int), q.skip(i as int)) == before(p, q),
        decreases a@.len() - i,
    {
        assert(p.skip(i as int).drop_first() =~= p.skip(i + 1));
        assert(q.skip(i as int).drop_first() =~= q.skip(i + 1));
        i = i + 1;
    }
    if i >= b.len() {
        false
    } else if i >= a.len() {
        true
    } else {
        a[i] < b[i]
    }
}

/// Where two run alike up to a place, that place decides: the one with the smaller symbol there
/// comes first, or the one that ends there while the other goes on.
pub proof fn law_first_difference_decides(a: Seq<int>, b: Seq<int>, k: int)
    requires
        0 <= k <= a.len(),
        k <= b.len(),
        forall|j: int| 0 <= j < k ==> #[trigger] a[j] == b[j],
    ensures
        k < a.len() && k < b.len() && a[k] != b[k] ==> before(a, b) == (a[k] < b[k]),
        k == a.len() ==> before(a, b) == (k < b.len()),
        k == b.len() ==> !before(a, b),
    decreases k,
{
    if k > 0 {
        assert(a[0] == b[0]);
        let p = a.drop_first();
        let q = b.drop_first();
        assert forall|j: int| 0 <= j < k - 1 implies #[trigger] p[j] == q[j] by {
            assert(a[j + 1] == b[j + 1]);
        }
        law_first_difference_decides(p, q, k - 1);
    }
}

/// Texts stand by the code points of their characters and byte strings by their bytes: at the
/// first place where two differ, the smaller one comes first, and one that starts another comes
/// before it.
pub proof fn law_texts_and_bytes_stand_in_order(
    a: Seq<char>,
    b: Seq<char>,
    p: Seq<u8>,
    q: Seq<u8>,
    k: int,
)
    ensures
        0 <= k < a.len() && k < b.len() && a.take(k) == b.take(k) && (a[k] as u32) < (b[k] as u32)
            ==> before(codes(a), codes(b)) && !before(codes(b), codes(a)),
        k == a.len() && k < b.len() && b.take(k) == a ==> before(codes(a), codes(b)),
        0 <= k < p.len() && k < q.len() && p.take(k) == q.take(k) && p[k] < q[k] ==> before(
            byte_codes(p),
            byte_codes(q),
        ) && !before(byte_codes(q), byte_codes(p)),
        k == p.len() && k < q.len() && q.take(k) == p ==> before(byte_codes(p), byte_codes(q)),
{
    if 0 <= k <= a.len() && k <= b.len() && a.take(k) == b.take(k) {
        assert forall|j: int| 0 <= j < k implies #[trigger] codes(a)[j] == codes(b)[j] by {
            assert(a.take(k)[j] == b.take(k)[j]);
        }
        law_first_difference_decides(codes(a), codes(b), k);
        law_first_difference_decides(codes(b), codes(a), k);
    }
    if k == a.len() {
        assert(a.take(k) =~= a);
    }
    if 0 <= k <= p.len() && k <= q.len() && p.take(k) == q.take(k) {
        assert forall|j: int| 0 <= j < k implies #[trigger] byte_codes(p)[j] == byte_codes(
            q,
        )[j] by {
            assert(p.take(k)[j] == q.take(k)[j]);
        }
        law_first_difference_decides(byte_codes(p), byte_codes(q), k);
        law_first_difference_decides(byte_codes(q), byte_codes(p), k);
    }
    if k == p.len() {
        assert(p.take(k) =~= p);
    }
}

} // verus!
