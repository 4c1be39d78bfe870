//! The order of names, byte by byte.

use crate::name::BoundedName;
use core::cmp::Ordering;
use vstd::prelude::*;
use vstd::std_specs::cmp::PartialOrdSpecImpl;

verus! {

/// How `a` stands to `b` when byte strings are ordered byte by byte, a
/// prefix before what extends it: -1 before, 0 equal, 1 after.
pub open spec fn bytes_order(a: Seq<u8>, b: Seq<u8>) -> int
    decreases a.len(),
{
    if a.len() == 0 {
        if b.len() == 0 {
            0
        } else {
            -1
        }
    } else if b.len() == 0 {
        1
    } else if a[0] < b[0] {
        -1
    } else if a[0] > b[0] {
        1
    } else {
        bytes_order(a.drop_first(), b.drop_first())
    }
}

/// Byte strings that agree on their first `n` bytes stand to each other as
/// what follows those bytes does.
pub proof fn lemma_order_after_common_prefix(a: Seq<u8>, b: Seq<u8>, n: int)
    requires
        0 <= n <= a.len(),
        n <= b.len(),
        forall|k: int| 0 <= k < n ==> a[k] == b[k],
    ensures
        bytes_order(a, b) == bytes_order(a.skip(n), b.skip(n)),
    decreases n,
{
    if n == 0 {
        assert(a.skip(0) =~= a);
        assert(b.skip(0) =~= b);
    } else {
        lemma_order_after_common_prefix(a.drop_first(), b.drop_first(), n - 1);
        assert(a.drop_first().skip(n - 1) =~= a.skip(n));
        assert(b.drop_first().skip(n - 1) =~= b.skip(n));
    }
}

/// Byte strings stand equal exactly when they are the same.
pub proof fn law_order_equal(a: Seq<u8>, b: Seq<u8>)
    ensures
        bytes_order(a, b) == 0 <==> a == b,
    decreases a.len(),
{
    if a.len() > 0 && b.len() > 0 && a[0] == b[0] {
        law_order_equal(a.drop_first(), b.drop_first());
        if a.drop_first() == b.drop_first() {
            assert(a =~= seq![a[0]] + a.drop_first());
            assert(b =~= seq![b[0]] + b.drop_first());
        }
    } else if a.len() == 0 && b.len() == 0 {
        assert(a =~= b);
    }
}

/// Turning two byte strings round turns their order round.
pub proof fn law_order_antisymmetric(a: Seq<u8>, b: Seq<u8>)
    ensures
        bytes_order(a, b) == -bytes_order(b, a),
    decreases a.len(),
{
    if a.len() > 0 && b.len() > 0 && a[0] == b[0] {
        law_order_antisymmetric(a.drop_first(), b.drop_first());
    }
}

/// What stands before or equal to a byte string that stands before or equal
/// to a third stands before or equal to the third.
pub proof fn law_order_transitive(a: Seq<u8>, b: Seq<u8>, c: Seq<u8>)
    requires
        bytes_order(a, b) <= 0,
        bytes_order(b, c) <= 0,
    ensures
        bytes_order(a, c) <= 0,
    decreases a.len(),
{
    if a.len() > 0 && b.len() > 0 && c.len() > 0 && a[0] == b[0] && b[0] == c[0] {
        law_order_transitive(a.drop_first(), b.drop_first(), c.drop_first());
    }
}

/// What stands before a byte string that stands before a third stands
/// before the third.
pub proof fn law_order_strictly_transitive(a: Seq<u8>, b: Seq<u8>, c: Seq<u8>)
    requires
        bytes_order(a, b) < 0,
        bytes_order(b, c) < 0,
    ensures
        bytes_order(a, c) < 0,
{
    law_order_transitive(a, b, c);
    law_order_equal(a, c);
    law_order_antisymmetric(a, b);
}

/// Of two different byte strings one stands before the other.
pub proof fn law_order_total(a: Seq<u8>, b: Seq<u8>)
    requires
        a != b,
    ensures
        bytes_order(a, b) < 0 || bytes_order(b, a) < 0,
{
    law_order_equal(a, b);
    law_order_antisymmetric(a, b);
}

/// Compares two byte strings byte by byte: -1 where `a` comes first, 0
/// where they are equal, 1 where `b` comes first.
pub fn compare_bytes(a: &Vec<u8>, b: &Vec<u8>) -> (sign: i8)
    ensures
        sign == bytes_order(a@, b@),
{
    let mut i: usize = 0;
    while i < a.len() && i < b.len()
        invariant
            i <= a.len(),
            i <= b.len(),
            forall|k: int| 0 <= k < i ==> a@[k] == b@[k],
        decreases a.len() - i,
    {
        if a[i] < b[i] {
            proof {
                lemma_order_after_common_prefix(a@, b@, i as int);
            }
            return -1;
        }
        if a[i] > b[i] {
            proof {
                lemma_order_after_common_prefix(a@, b@, i as int);
            }
            return 1;
        }
        i += 1;
    }
    proof {
        lemma_order_after_common_prefix(a@, b@, i as int);
    }
    if i < b.len() {
        -1
    } else if i < a.len() {
        1
    } else {
        0
    }
}

/// The order of two byte strings as an `Ordering`.
pub open spec fn bytes_ordering(a: Seq<u8>, b: Seq<u8>) -> Ordering {
    if bytes_order(a, b) < 0 {
        Ordering::Less
    } else if bytes_order(a, b) == 0 {
        Ordering::Equal
    } else {
        Ordering::Greater
    }
}

impl PartialOrd for BoundedName {
    /// Names are ordered as their bytes are; any two can be compared.
    fn partial_cmp(&self, other: &BoundedName) -> (order: Option<Ordering>) {
        let sign = compare_bytes(self.as_bytes(), other.as_bytes());
        if sign < 0 {
            Some(Ordering::Less)
        } else if sign == 0 {
            Some(Ordering::Equal)
        } else {
            Some(Ordering::Greater)
        }
    }
}

impl PartialOrdSpecImpl for BoundedName {
    open spec fn obeys_partial_cmp_spec() -> bool {
        true
    }

    open spec fn partial_cmp_spec(&self, other: &BoundedName) -> Option<Ordering> {
        Some(bytes_ordering(self@, other@))
    }
}

} // verus!
