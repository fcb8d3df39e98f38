//! The order in which names are listed: lexicographic over their UTF-8
//! bytes, which is the order of `String`'s `Ord`.

use std::cmp::Ordering;
use vstd::prelude::*;
use vstd::utf8::{encode_utf8, encode_utf8_decode_utf8};

verus! {

/// `a` and `b` hold the same bytes below position `n`.
pub open spec fn agree_below(a: Seq<u8>, b: Seq<u8>, n: int) -> bool {
    forall|j: int| 0 <= j < n ==> a[j] == b[j]
}

/// `n` is where `a` first sorts below `b`: either `a` ends there while `b`
/// goes on, or both go on and `a`'s byte is the smaller one.
pub open spec fn first_below_at(a: Seq<u8>, b: Seq<u8>, n: int) -> bool {
    &&& 0 <= n <= a.len()
    &&& n < b.len()
    &&& agree_below(a, b, n)
    &&& (n == a.len() || a[n] < b[n])
}

/// Lexicographic order on byte strings; a proper prefix sorts first.
pub open spec fn bytes_lt(a: Seq<u8>, b: Seq<u8>) -> bool {
    exists|n: int| first_below_at(a, b, n)
}

/// Name `a` sorts strictly before name `b`.
pub open spec fn name_lt(a: Seq<char>, b: Seq<char>) -> bool {
    bytes_lt(encode_utf8(a), encode_utf8(b))
}

/// Every name sorts strictly before each name after it.
pub open spec fn strictly_sorted(s: Seq<Seq<char>>) -> bool {
    forall|i: int, j: int| 0 <= i < j < s.len() ==> name_lt(#[trigger] s[i], #[trigger] s[j])
}

/// `s` lists exactly the names of `keys`, each once, in ascending order.
pub open spec fn lists(s: Seq<Seq<char>>, keys: Set<Seq<char>>) -> bool {
    &&& strictly_sorted(s)
    &&& forall|n: Seq<char>| s.contains(n) <==> keys.contains(n)
}

/// The order on names is transitive.
pub proof fn lemma_name_lt_transitive(a: Seq<char>, b: Seq<char>, c: Seq<char>)
    requires
        name_lt(a, b),
        name_lt(b, c),
    ensures
        name_lt(a, c),
{
    let x = encode_utf8(a);
    let y = encode_utf8(b);
    let z = encode_utf8(c);
    let i = choose|n: int| first_below_at(x, y, n);
    let j = choose|n: int| first_below_at(y, z, n);
    if i <= j {
        assert(first_below_at(x, z, i));
    } else {
        assert(first_below_at(x, z, j));
    }
}

/// A strictly sorted list holds no name twice.
pub proof fn lemma_strictly_sorted_no_duplicates(s: Seq<Seq<char>>)
    requires
        strictly_sorted(s),
    ensures
        s.no_duplicates(),
{
    assert forall|i: int, j: int| 0 <= i < s.len() && 0 <= j < s.len() && i != j implies s[i]
        != s[j] by {
        if i < j {
            assert(name_lt(s[i], s[j]));
        } else {
            assert(name_lt(s[j], s[i]));
        }
    }
}

/// Compares two names in the order of `String`'s `Ord`.
pub fn compare_names(a: &str, b: &str) -> (r: Ordering)
    ensures
        r == Ordering::Less <==> name_lt(a@, b@),
        r == Ordering::Equal <==> a@ == b@,
        r == Ordering::Greater <==> name_lt(b@, a@),
{
    let x = a.as_bytes();
    let y = b.as_bytes();
    let ghost xs = encode_utf8(a@);
    let ghost ys = encode_utf8(b@);
    let mut i: usize = 0;
    while i < x.len() && i < y.len() && x[i] == y[i]
        invariant
            x@ == xs,
            y@ == ys,
            i <= x.len(),
            i <= y.len(),
            agree_below(xs, ys, i as int),
        decreases x.len() - i,
    {
        i = i + 1;
    }
    proof {
        encode_utf8_decode_utf8(a@);
        encode_utf8_decode_utf8(b@);
    }
    if i < x.len() && i < y.len() {
        if x[i] < y[i] {
            assert(first_below_at(xs, ys, i as int));
            proof { lemma_not_both_ways(a@, b@) }
            Ordering::Less
        } else {
            assert(first_below_at(ys, xs, i as int));
            proof { lemma_not_both_ways(b@, a@) }
            Ordering::Greater
        }
    } else if i < y.len() {
        assert(first_below_at(xs, ys, i as int));
        proof { lemma_not_both_ways(a@, b@) }
        Ordering::Less
    } else if i < x.len() {
        assert(first_below_at(ys, xs, i as int));
        proof { lemma_not_both_ways(b@, a@) }
        Ordering::Greater
    } else {
        assert(xs =~= ys);
        Ordering::Equal
    }
}

proof fn lemma_not_both_ways(a: Seq<char>, b: Seq<char>)
    requires
        name_lt(a, b),
    ensures
        !name_lt(b, a),
        a != b,
{
    if name_lt(b, a) {
        lemma_name_lt_transitive(a, b, a);
    }
}

} // verus!
