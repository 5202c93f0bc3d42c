//! Account keys: opaque 32-byte identifiers with equality and a total order.

use vstd::prelude::*;

verus! {

/// A 32-byte account identifier.
#[derive(Clone, Copy, Debug)]
pub struct AccountKey {
    pub bytes: [u8; 32],
}

impl View for AccountKey {
    type V = Seq<u8>;

    open spec fn view(&self) -> Seq<u8> {
        self.bytes@
    }
}

/// Address of the system program; also marks the native asset in transfers.
pub const SYSTEM_PROGRAM_ID: [u8; 32] = [
    0, 0, 0, 0, 0, 0, 0, 0, 0, 0, 0, 0, 0, 0, 0, 0, 0, 0, 0, 0, 0, 0, 0, 0, 0, 0, 0, 0, 0, 0, 0, 0,
];

/// Address of the token program.
pub const TOKEN_PROGRAM_ID: [u8; 32] = [
    6, 221, 246, 225, 215, 101, 161, 147, 217, 203, 225, 70, 206, 235, 121, 172, 28, 180, 133,
    237, 95, 91, 55, 145, 58, 140, 245, 133, 126, 255, 0, 169,
];

/// Address of the program loader whose snapshot the account loader is seeded with.
pub const BPF_LOADER_ID: [u8; 32] = [
    2, 168, 246, 145, 78, 136, 161, 110, 57, 90, 225, 40, 148, 143, 250, 105, 86, 147, 55, 104,
    24, 221, 71, 67, 82, 33, 243, 198, 0, 0, 0, 0,
];

/// Lexicographic order on byte strings of equal length.
pub open spec fn bytes_lt(a: Seq<u8>, b: Seq<u8>) -> bool {
    exists|i: int|
        0 <= i < a.len() && i < b.len() && a.take(i) == b.take(i) && #[trigger] a[i] < b[i]
}

/// The pair `(a, b)` in ascending order.
pub open spec fn sorted_pair(a: AccountKey, b: AccountKey) -> (AccountKey, AccountKey) {
    if bytes_lt(b@, a@) {
        (b, a)
    } else {
        (a, b)
    }
}

impl AccountKey {
    pub fn new(bytes: [u8; 32]) -> (r: AccountKey)
        ensures
            r.bytes == bytes,
    {
        AccountKey { bytes }
    }

    /// The all-zero key; the system program's address and the native-asset marker.
    pub fn zero() -> (r: AccountKey)
        ensures
            r@ == Seq::new(32, |i: int| 0u8),
    {
        let r = AccountKey { bytes: [0u8; 32] };
        assert(r@ =~= Seq::new(32, |i: int| 0u8));
        r
    }

    pub fn to_bytes(&self) -> (r: [u8; 32])
        ensures
            r@ == self@,
    {
        self.bytes
    }

    /// The key's bytes as a vector.
    pub fn to_vec(&self) -> (r: Vec<u8>)
        ensures
            r@ == self@,
    {
        let mut r: Vec<u8> = Vec::new();
        let mut i: usize = 0;
        while i < 32
            invariant
                i <= 32,
                self@.len() == 32,
                r@ == self@.take(i as int),
            decreases 32 - i,
        {
            r.push(self.bytes[i]);
            assert(self@.take(i + 1) =~= self@.take(i as int).push(self@[i as int]));
            i = i + 1;
        }
        assert(self@.take(32) =~= self@);
        r
    }

    /// Byte-wise equality.
    pub fn same(&self, other: &AccountKey) -> (r: bool)
        ensures
            r == (self@ == other@),
    {
        let mut i: usize = 0;
        while i < 32
            invariant
                i <= 32,
                self@.len() == 32,
                other@.len() == 32,
                forall|j: int| 0 <= j < i ==> self@[j] == other@[j],
            decreases 32 - i,
        {
            if self.bytes[i] != other.bytes[i] {
                return false;
            }
            i = i + 1;
        }
        assert(self@ =~= other@);
        true
    }

    /// Lexicographic comparison: whether `self` sorts strictly before `other`.
    pub fn less_than(&self, other: &AccountKey) -> (r: bool)
        ensures
            r == bytes_lt(self@, other@),
    {
        let ghost a = self@;
        let ghost b = other@;
        let mut i: usize = 0;
        while i < 32
            invariant
                i <= 32,
                a == self@,
                b == other@,
                a.len() == 32,
                b.len() == 32,
                a.take(i as int) == b.take(i as int),
            decreases 32 - i,
        {
            if self.bytes[i] != other.bytes[i] {
                if self.bytes[i] < other.bytes[i] {
                    assert(a.take(i as int) == b.take(i as int) && a[i as int] < b[i as int]);
                    return true;
                } else {
                    assert forall|j: int|
                        0 <= j < a.len() && j < b.len() && a.take(j) == b.take(j) implies !(
                        #[trigger] a[j] < b[j]) by {
                        if j > i {
                            assert(a.take(j)[i as int] == a[i as int]);
                            assert(b.take(j)[i as int] == b[i as int]);
                        } else if j < i {
                            assert(a.take(i as int)[j] == a[j]);
                            assert(b.take(i as int)[j] == b[j]);
                        }
                    }
                    return false;
                }
            }
            assert(a.take(i + 1) =~= a.take(i as int).push(a[i as int]));
            assert(b.take(i + 1) =~= b.take(i as int).push(b[i as int]));
            i = i + 1;
        }
        assert forall|j: int|
            0 <= j < a.len() && j < b.len() && a.take(j) == b.take(j) implies !(
            #[trigger] a[j] < b[j]) by {
            assert(a.take(32)[j] == a[j]);
            assert(b.take(32)[j] == b[j]);
        }
        false
    }

    /// The two keys in ascending order.
    pub fn sort_pair(a: AccountKey, b: AccountKey) -> (r: (AccountKey, AccountKey))
        ensures
            r == sorted_pair(a, b),
    {
        if b.less_than(&a) {
            (b, a)
        } else {
            (a, b)
        }
    }
}

impl PartialEq for AccountKey {
    fn eq(&self, other: &AccountKey) -> (r: bool)
        ensures
            r == (self@ == other@),
    {
        self.same(other)
    }
}

impl vstd::std_specs::cmp::PartialEqSpecImpl for AccountKey {
    open spec fn obeys_eq_spec() -> bool {
        true
    }

    open spec fn eq_spec(&self, other: &AccountKey) -> bool {
        self@ == other@
    }
}

impl Eq for AccountKey {}

} // verus!

verus! {

/// `bytes_lt` is asymmetric.
pub proof fn lemma_bytes_lt_asymmetric(a: Seq<u8>, b: Seq<u8>)
    requires
        bytes_lt(a, b),
    ensures
        !bytes_lt(b, a),
{
    let i = choose|i: int| 0 <= i < a.len() && i < b.len() && a.take(i) == b.take(i) && #[trigger] a[i] < b[i];
    if bytes_lt(b, a) {
        let j = choose|j: int| 0 <= j < b.len() && j < a.len() && b.take(j) == a.take(j) && #[trigger] b[j] < a[j];
        if i < j {
            assert(a.take(j)[i] == a[i] && b.take(j)[i] == b[i]);
        } else if j < i {
            assert(a.take(i)[j] == a[j] && b.take(i)[j] == b[j]);
        }
    }
}

/// Distinct byte strings of one length are ordered one way or the other.
pub proof fn lemma_bytes_lt_total(a: Seq<u8>, b: Seq<u8>)
    requires
        a.len() == b.len(),
        a != b,
    ensures
        bytes_lt(a, b) || bytes_lt(b, a),
{
    assert(exists|d: int| 0 <= d < a.len() && a[d] != b[d]) by {
        if !(exists|d: int| 0 <= d < a.len() && a[d] != b[d]) {
            assert(a =~= b);
        }
    }
    let d = choose|d: int| 0 <= d < a.len() && a[d] != b[d];
    let first = first_difference(a, b, d);
    assert(a.take(first) =~= b.take(first));
    if a[first] < b[first] {
        assert(bytes_lt(a, b));
    } else {
        assert(b[first] < a[first]);
        assert(bytes_lt(b, a));
    }
}

/// The first index at which `a` and `b` differ, given one at `d`.
proof fn first_difference(a: Seq<u8>, b: Seq<u8>, d: int) -> (r: int)
    requires
        a.len() == b.len(),
        0 <= d < a.len(),
        a[d] != b[d],
    ensures
        0 <= r <= d,
        a[r] != b[r],
        forall|j: int| 0 <= j < r ==> a[j] == b[j],
    decreases d,
{
    if exists|j: int| 0 <= j < d && a[j] != b[j] {
        let j = choose|j: int| 0 <= j < d && a[j] != b[j];
        first_difference(a, b, j)
    } else {
        d
    }
}

/// The pair that `sorted_pair` returns is in ascending order.
pub proof fn lemma_sorted_pair_ascending(a: AccountKey, b: AccountKey)
    ensures
        !bytes_lt(sorted_pair(a, b).1@, sorted_pair(a, b).0@),
{
    if bytes_lt(b@, a@) {
        lemma_bytes_lt_asymmetric(b@, a@);
    }
}

} // verus!

verus! {

/// `bytes_lt` is transitive.
pub proof fn lemma_bytes_lt_transitive(a: Seq<u8>, b: Seq<u8>, c: Seq<u8>)
    requires
        bytes_lt(a, b),
        bytes_lt(b, c),
    ensures
        bytes_lt(a, c),
{
    let i = choose|i: int| 0 <= i < a.len() && i < b.len() && a.take(i) == b.take(i) && #[trigger] a[i] < b[i];
    let j = choose|j: int| 0 <= j < b.len() && j < c.len() && b.take(j) == c.take(j) && #[trigger] b[j] < c[j];
    if i < j {
        assert(b.take(i) =~= b.take(j).take(i));
        assert(c.take(i) =~= c.take(j).take(i));
        assert(b.take(j)[i] == c.take(j)[i]);
        assert(a.take(i) == c.take(i) && a[i] < c[i]);
    } else if j < i {
        assert(a.take(j) =~= a.take(i).take(j));
        assert(b.take(j) =~= b.take(i).take(j));
        assert(a.take(i)[j] == b.take(i)[j]);
        assert(a.take(j) == c.take(j) && a[j] < c[j]);
    } else {
        assert(a.take(i) == c.take(i) && a[i] < c[i]);
    }
}

} // verus!
