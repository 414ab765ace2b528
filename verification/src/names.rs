//! The order of display names: byte by byte over their UTF-8 encoding,
//! a shorter name before every longer one that starts with it.

use vstd::prelude::*;

verus! {

/// The UTF-8 encoding of a text.
pub open spec fn bytes_of(text: Seq<char>) -> Seq<u8> {
    vstd::utf8::encode_utf8(text)
}

/// `a` comes before `b`, given that the two agree below position `i`.
pub open spec fn precedes_from(a: Seq<u8>, b: Seq<u8>, i: int) -> bool
    decreases a.len() - i,
{
    if i < 0 || i >= b.len() {
        false
    } else if i >= a.len() {
        true
    } else if a[i] != b[i] {
        a[i] < b[i]
    } else {
        precedes_from(a, b, i + 1)
    }
}

/// `a` comes strictly before `b`.
pub open spec fn precedes(a: Seq<u8>, b: Seq<u8>) -> bool {
    precedes_from(a, b, 0)
}

/// How the first of two names stands to the second.
#[derive(Clone, Copy, Debug, PartialEq, Eq, Structural)]
pub enum Side {
    Before,
    Same,
    After,
}

/// The side on which `a` stands of `b`.
pub open spec fn side_of(a: Seq<u8>, b: Seq<u8>) -> Side {
    if precedes(a, b) {
        Side::Before
    } else if a == b {
        Side::Same
    } else {
        Side::After
    }
}

/// Two sequences that agree below `i` and of which neither comes before
/// the other are equal.
pub proof fn neither_precedes_from(a: Seq<u8>, b: Seq<u8>, i: int)
    requires
        0 <= i <= a.len(),
        i <= b.len(),
        forall|k: int| 0 <= k < i ==> a[k] == b[k],
        !precedes_from(a, b, i),
        !precedes_from(b, a, i),
    ensures
        a == b,
    decreases a.len() - i,
{
    if i >= a.len() || i >= b.len() {
        assert(a =~= b);
    } else {
        neither_precedes_from(a, b, i + 1);
    }
}

/// Of two sequences that agree below `i`, at most one comes first.
pub proof fn precedes_from_one_way(a: Seq<u8>, b: Seq<u8>, i: int)
    requires
        0 <= i,
        precedes_from(a, b, i),
    ensures
        !precedes_from(b, a, i),
    decreases a.len() - i,
{
    if i < a.len() && i < b.len() && a[i] == b[i] {
        precedes_from_one_way(a, b, i + 1);
    }
}

/// The order is transitive from every position on.
pub proof fn precedes_from_chain(a: Seq<u8>, b: Seq<u8>, c: Seq<u8>, i: int)
    requires
        0 <= i,
        precedes_from(a, b, i),
        precedes_from(b, c, i),
    ensures
        precedes_from(a, c, i),
    decreases b.len() - i,
{
    if i < a.len() && i < b.len() && i < c.len() && a[i] == b[i] && b[i] == c[i] {
        precedes_from_chain(a, b, c, i + 1);
    }
}

/// No name comes before itself, and of two names at most one comes first.
pub proof fn precedes_one_way(a: Seq<u8>, b: Seq<u8>)
    requires
        precedes(a, b),
    ensures
        !precedes(b, a),
        a != b,
{
    precedes_from_one_way(a, b, 0);
}

/// The order of names is transitive.
pub proof fn precedes_chain(a: Seq<u8>, b: Seq<u8>, c: Seq<u8>)
    requires
        precedes(a, b),
        precedes(b, c),
    ensures
        precedes(a, c),
{
    precedes_from_chain(a, b, c, 0);
}

/// Of two different names one comes first.
pub proof fn precedes_total(a: Seq<u8>, b: Seq<u8>)
    ensures
        precedes(a, b) || precedes(b, a) || a == b,
{
    if !precedes(a, b) && !precedes(b, a) {
        neither_precedes_from(a, b, 0);
    }
}

/// On which side of `b` the byte string `a` stands.
pub fn side_of_bytes(a: &[u8], b: &[u8]) -> (s: Side)
    ensures
        s == side_of(a@, b@),
{
    let mut i: usize = 0;
    while i < a.len() && i < b.len()
        invariant
            i <= a.len(),
            i <= b.len(),
            forall|k: int| 0 <= k < i ==> a@[k] == b@[k],
            precedes(a@, b@) == precedes_from(a@, b@, i as int),
            precedes(b@, a@) == precedes_from(b@, a@, i as int),
        decreases a.len() - i,
    {
        if a[i] < b[i] {
            proof {
                precedes_one_way(a@, b@);
            }
            return Side::Before;
        }
        if a[i] > b[i] {
            proof {
                precedes_one_way(b@, a@);
            }
            return Side::After;
        }
        i = i + 1;
    }
    if i < b.len() {
        proof {
            precedes_one_way(a@, b@);
        }
        Side::Before
    } else if i < a.len() {
        proof {
            precedes_one_way(b@, a@);
        }
        Side::After
    } else {
        assert(a@ =~= b@);
        Side::Same
    }
}

/// On which side of the name `b` the name `a` stands.
pub fn side_of_names(a: &String, b: &String) -> (s: Side)
    ensures
        s == side_of(bytes_of(a@), bytes_of(b@)),
{
    side_of_bytes(a.as_str().as_bytes(), b.as_str().as_bytes())
}

} // verus!
