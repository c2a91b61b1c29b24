use crate::pattern::{is_match_listing, matches_at, strictly_ascending, PatternByte};
use vstd::prelude::*;

verus! {

/// Two strictly ascending sequences with the same members are equal.
proof fn lemma_ascending_same_members_equal(r1: Seq<usize>, r2: Seq<usize>)
    requires
        strictly_ascending(r1),
        strictly_ascending(r2),
        forall|x: usize| r1.contains(x) <==> r2.contains(x),
    ensures
        r1 == r2,
    decreases r1.len(),
{
    if r1.len() == 0 {
        if r2.len() > 0 {
            assert(r2.contains(r2[0]));
            assert(r1.contains(r2[0]));
        }
        assert(r1 =~= r2);
    } else if r2.len() == 0 {
        assert(r1.contains(r1[0]));
        assert(r2.contains(r1[0]));
    } else {
        // The heads are each the least member, so they are equal.
        assert(r1.contains(r1[0]));
        assert(r2.contains(r1[0]));
        let j2 = choose|j: int| 0 <= j < r2.len() && r2[j] == r1[0];
        if j2 > 0 {
            assert(r2[0] < r2[j2]);
        }
        assert(r2.contains(r2[0]));
        assert(r1.contains(r2[0]));
        let j1 = choose|j: int| 0 <= j < r1.len() && r1[j] == r2[0];
        if j1 > 0 {
            assert(r1[0] < r1[j1]);
        }
        assert(r1[0] == r2[0]);
        let t1 = r1.drop_first();
        let t2 = r2.drop_first();
        assert forall|a: int, b: int| 0 <= a < b < t1.len() implies t1[a] < t1[b] by {
            assert(r1[a + 1] < r1[b + 1]);
        }
        assert forall|a: int, b: int| 0 <= a < b < t2.len() implies t2[a] < t2[b] by {
            assert(r2[a + 1] < r2[b + 1]);
        }
        assert forall|x: usize| t1.contains(x) <==> t2.contains(x) by {
            lemma_tail_member(r1, r2, x);
            lemma_tail_member(r2, r1, x);
        }
        lemma_ascending_same_members_equal(t1, t2);
        assert forall|i: int| 0 <= i < r1.len() implies r1[i] == r2[i] by {
            if i > 0 {
                assert(t1[i - 1] == t2[i - 1]);
            }
        }
        assert(r1 =~= r2);
    }
}

/// A member of the tail of one of two strictly ascending sequences with equal
/// heads and the same members is a member of the other's tail.
proof fn lemma_tail_member(r1: Seq<usize>, r2: Seq<usize>, x: usize)
    requires
        strictly_ascending(r1),
        strictly_ascending(r2),
        r1.len() > 0,
        r2.len() > 0,
        r1[0] == r2[0],
        forall|y: usize| r1.contains(y) <==> r2.contains(y),
    ensures
        r1.drop_first().contains(x) ==> r2.drop_first().contains(x),
{
    let t1 = r1.drop_first();
    let t2 = r2.drop_first();
    if t1.contains(x) {
        let a = choose|a: int| 0 <= a < t1.len() && t1[a] == x;
        assert(r1[a + 1] == x);
        assert(r1[0] < r1[a + 1]);
        assert(r1.contains(x));
        assert(r2.contains(x));
        let b = choose|b: int| 0 <= b < r2.len() && r2[b] == x;
        assert(b != 0);
        assert(t2[b - 1] == x);
        assert(t2.contains(x));
    }
}

/// The listing of all matches of a pattern in a stream is unique: any two
/// strictly ascending offset lists that each contain exactly the offsets at
/// which the pattern matches are equal. In particular, the streaming path
/// ([`scan`](crate::scan)) and the in-memory path
/// ([`scan_bytes`](crate::scan_bytes)) yield identical offsets over the same
/// bytes and pattern, regardless of how the stream was chunked.
pub proof fn lemma_match_listing_unique(
    s: Seq<u8>,
    p: Seq<PatternByte>,
    r1: Seq<usize>,
    r2: Seq<usize>,
)
    requires
        is_match_listing(s, p, r1),
        is_match_listing(s, p, r2),
    ensures
        r1 == r2,
{
    assert forall|x: usize| r1.contains(x) <==> r2.contains(x) by {
        if r1.contains(x) {
            let a = choose|a: int| 0 <= a < r1.len() && r1[a] == x;
            assert(matches_at(s, p, r1[a] as int));
            assert(r2.contains((x as int) as usize));
        }
        if r2.contains(x) {
            let a = choose|a: int| 0 <= a < r2.len() && r2[a] == x;
            assert(matches_at(s, p, r2[a] as int));
            assert(r1.contains((x as int) as usize));
        }
    }
    lemma_ascending_same_members_equal(r1, r2);
}

} // verus!
