//! Arithmetic on single trits: values in {-1, 0, +1}, read as the
//! balanced residues of the integers modulo 3.
use vstd::prelude::*;

verus! {

/// A trit is one of -1, 0, +1.
pub open spec fn is_trit(v: int) -> bool {
    v == -1 || v == 0 || v == 1
}

/// The trit congruent to `v` modulo 3.
pub open spec fn balanced_mod3(v: int) -> int {
    (v + 1) % 3 - 1
}

/// The sign of an integer, as a trit.
pub open spec fn sign(v: int) -> int {
    if v < 0 {
        -1
    } else if v == 0 {
        0
    } else {
        1
    }
}

/// Z₃ sum of two trits.
pub open spec fn z3_add(a: int, b: int) -> int {
    balanced_mod3(a + b)
}

/// Z₃ product of two trits (on trits this is the integer product).
pub open spec fn z3_mul(a: int, b: int) -> int {
    balanced_mod3(a * b)
}

/// Z₃ negation of a trit.
pub open spec fn z3_neg(a: int) -> int {
    balanced_mod3(-a)
}

/// `balanced_mod3(v)` is the one trit that is congruent to `v` modulo 3.
pub proof fn lemma_balanced_mod3(v: int)
    ensures
        is_trit(balanced_mod3(v)),
        (balanced_mod3(v) - v) % 3 == 0,
        forall|t: int| is_trit(t) && (t - v) % 3 == 0 ==> t == balanced_mod3(v),
{
}

/// Z₃ multiplication by explicit match on the nine trit pairs.
pub fn trit_mul(a: i8, b: i8) -> (r: i8)
    requires
        is_trit(a as int),
        is_trit(b as int),
    ensures
        r == a * b,
        r == z3_mul(a as int, b as int),
        is_trit(r as int),
{
    match (a, b) {
        (-1, -1) => 1,
        (-1, 0) => 0,
        (-1, 1) => -1,
        (0, -1) => 0,
        (0, 0) => 0,
        (0, 1) => 0,
        (1, -1) => -1,
        (1, 0) => 0,
        (1, 1) => 1,
        _ => {
            proof {
                assert(false);
            }
            0
        },
    }
}

/// Z₃ addition by explicit match on the nine trit pairs.
pub fn trit_add(a: i8, b: i8) -> (r: i8)
    requires
        is_trit(a as int),
        is_trit(b as int),
    ensures
        r == z3_add(a as int, b as int),
        is_trit(r as int),
{
    match (a, b) {
        (-1, -1) => 1,
        (-1, 0) => -1,
        (-1, 1) => 0,
        (0, -1) => -1,
        (0, 0) => 0,
        (0, 1) => 1,
        (1, -1) => 0,
        (1, 0) => 1,
        (1, 1) => -1,
        _ => {
            proof {
                assert(false);
            }
            0
        },
    }
}

/// Z₃ negation by explicit match.
pub fn trit_neg(a: i8) -> (r: i8)
    requires
        is_trit(a as int),
    ensures
        r == -a,
        r == z3_neg(a as int),
        is_trit(r as int),
{
    match a {
        -1 => 1,
        0 => 0,
        1 => -1,
        _ => {
            proof {
                assert(false);
            }
            0
        },
    }
}

/// Z₃ is a field: on trits, addition and multiplication are commutative and
/// associative, 0 and 1 are their identities, every trit has a negative, and
/// multiplication distributes over addition.
pub proof fn lemma_z3_field(a: int, b: int, c: int)
    requires
        is_trit(a),
        is_trit(b),
        is_trit(c),
    ensures
        is_trit(z3_add(a, b)),
        is_trit(z3_mul(a, b)),
        is_trit(z3_neg(a)),
        z3_add(a, b) == z3_add(b, a),
        z3_add(z3_add(a, b), c) == z3_add(a, z3_add(b, c)),
        z3_add(a, 0) == a,
        z3_add(a, z3_neg(a)) == 0,
        z3_mul(a, b) == z3_mul(b, a),
        z3_mul(z3_mul(a, b), c) == z3_mul(a, z3_mul(b, c)),
        z3_mul(a, 1) == a,
        z3_mul(a, z3_add(b, c)) == z3_add(z3_mul(a, b), z3_mul(a, c)),
{
    assert(is_trit(z3_add(a, b)) && is_trit(z3_mul(a, b)) && is_trit(z3_neg(a))) by {
        lemma_balanced_mod3(a + b);
        lemma_balanced_mod3(a * b);
        lemma_balanced_mod3(-a);
    }
    if a == -1 {
        if b == -1 {
            if c == -1 {} else if c == 0 {} else {}
        } else if b == 0 {
            if c == -1 {} else if c == 0 {} else {}
        } else {
            if c == -1 {} else if c == 0 {} else {}
        }
    } else if a == 0 {
        if b == -1 {
            if c == -1 {} else if c == 0 {} else {}
        } else if b == 0 {
            if c == -1 {} else if c == 0 {} else {}
        } else {
            if c == -1 {} else if c == 0 {} else {}
        }
    } else {
        if b == -1 {
            if c == -1 {} else if c == 0 {} else {}
        } else if b == 0 {
            if c == -1 {} else if c == 0 {} else {}
        } else {
            if c == -1 {} else if c == 0 {} else {}
        }
    }
}

/// Every positive integer has sign +1 and every negative integer sign -1,
/// however large: the sign never depends on a truncation of the value.
pub proof fn lemma_sign_cases(v: int)
    ensures
        v > 0 ==> sign(v) == 1,
        v < 0 ==> sign(v) == -1,
        v == 0 ==> sign(v) == 0,
        sign(v) * v >= 0,
        sign(-v) == -sign(v),
{
}

} // verus!
