//! Facts about what sequences contain.
use vstd::prelude::*;

verus! {

/// What a sequence holds after a push.
pub proof fn lemma_push_contains<A>(s: Seq<A>, x: A, p: A)
    ensures
        s.push(x).contains(p) == (s.contains(p) || p == x),
{
    if s.contains(p) {
        let w = choose|w: int| 0 <= w < s.len() && s[w] == p;
        assert(s.push(x)[w] == p);
    }
    if p == x {
        assert(s.push(x)[s.len() as int] == p);
    }
    if s.push(x).contains(p) {
        let w = choose|w: int| 0 <= w < s.push(x).len() && s.push(x)[w] == p;
        if w < s.len() {
            assert(s[w] == p);
        }
    }
}

} // verus!
