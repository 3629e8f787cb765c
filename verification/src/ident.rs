//! Point identifiers and the strict total order used to break ranking ties.

use vstd::prelude::*;
use vstd::utf8::encode_utf8;
use vstd::utf8::encode_utf8_decode_utf8;

verus! {

/// Model of a point identifier.
pub enum SpecId {
    Num(u64),
    Str(Seq<char>),
}

/// A point identifier: an unsigned integer or a string, unique within its
/// collection.
#[derive(Debug, PartialEq, Eq)]
pub enum PointId {
    Num(u64),
    Str(String),
}

impl View for PointId {
    type V = SpecId;

    open spec fn view(&self) -> SpecId {
        match *self {
            PointId::Num(n) => SpecId::Num(n),
            PointId::Str(s) => SpecId::Str(s@),
        }
    }
}

/// Strict lexicographic order on byte sequences, read from position `i`.
pub open spec fn bytes_lt_from(a: Seq<u8>, b: Seq<u8>, i: int) -> bool
    decreases a.len() - i,
{
    if i < 0 {
        false
    } else if i >= a.len() {
        i < b.len()
    } else if i >= b.len() {
        false
    } else if a[i] != b[i] {
        a[i] < b[i]
    } else {
        bytes_lt_from(a, b, i + 1)
    }
}

/// Strict total order on identifiers: numeric identifiers come first, ordered
/// by value; string identifiers follow, ordered lexicographically by their
/// UTF-8 bytes.  This is the tie-break order of search results.
pub open spec fn id_lt(a: SpecId, b: SpecId) -> bool {
    match (a, b) {
        (SpecId::Num(x), SpecId::Num(y)) => x < y,
        (SpecId::Num(_), SpecId::Str(_)) => true,
        (SpecId::Str(_), SpecId::Num(_)) => false,
        (SpecId::Str(x), SpecId::Str(y)) => bytes_lt_from(encode_utf8(x), encode_utf8(y), 0),
    }
}

proof fn lemma_bytes_lt_irrefl(a: Seq<u8>, i: int)
    ensures
        !bytes_lt_from(a, a, i),
    decreases a.len() - i,
{
    if 0 <= i < a.len() {
        lemma_bytes_lt_irrefl(a, i + 1);
    }
}

proof fn lemma_bytes_lt_trans(a: Seq<u8>, b: Seq<u8>, c: Seq<u8>, i: int)
    requires
        0 <= i,
        bytes_lt_from(a, b, i),
        bytes_lt_from(b, c, i),
    ensures
        bytes_lt_from(a, c, i),
    decreases a.len() - i,
{
    if i < a.len() && i < b.len() && i < c.len() && a[i] == b[i] && b[i] == c[i] {
        lemma_bytes_lt_trans(a, b, c, i + 1);
    }
}

proof fn lemma_bytes_lt_connected(a: Seq<u8>, b: Seq<u8>, i: int)
    requires
        0 <= i <= a.len(),
        i <= b.len(),
        !bytes_lt_from(a, b, i),
        !bytes_lt_from(b, a, i),
    ensures
        a.len() == b.len(),
        forall|k: int| i <= k < a.len() ==> a[k] == b[k],
    decreases a.len() - i,
{
    if i < a.len() && i < b.len() {
        lemma_bytes_lt_connected(a, b, i + 1);
    }
}

/// The identifier order never relates a value to itself.
pub proof fn lemma_id_lt_irrefl(a: SpecId)
    ensures
        !id_lt(a, a),
{
    match a {
        SpecId::Num(_) => {
        },
        SpecId::Str(x) => {
            lemma_bytes_lt_irrefl(encode_utf8(x), 0);
        },
    }
}

/// The identifier order is transitive.
pub proof fn lemma_id_lt_trans(a: SpecId, b: SpecId, c: SpecId)
    requires
        id_lt(a, b),
        id_lt(b, c),
    ensures
        id_lt(a, c),
{
    match (a, b, c) {
        (SpecId::Str(x), SpecId::Str(y), SpecId::Str(z)) => {
            lemma_bytes_lt_trans(encode_utf8(x), encode_utf8(y), encode_utf8(z), 0);
        },
        _ => {
        },
    }
}

/// Two identifiers that the order relates in neither direction are equal.
pub proof fn lemma_id_lt_connected(a: SpecId, b: SpecId)
    requires
        !id_lt(a, b),
        !id_lt(b, a),
    ensures
        a == b,
{
    match (a, b) {
        (SpecId::Str(x), SpecId::Str(y)) => {
            lemma_bytes_lt_connected(encode_utf8(x), encode_utf8(y), 0);
            assert(encode_utf8(x) =~= encode_utf8(y));
            encode_utf8_decode_utf8(x);
            encode_utf8_decode_utf8(y);
        },
        _ => {
        },
    }
}

fn bytes_lt_exec(a: &[u8], b: &[u8]) -> (r: bool)
    ensures
        r == bytes_lt_from(a@, b@, 0),
{
    let na: usize = a.len();
    let nb: usize = b.len();
    let mut i: usize = 0;
    while i < na && i < nb
        invariant
            na == a@.len(),
            nb == b@.len(),
            0 <= i <= na,
            0 <= i <= nb,
            bytes_lt_from(a@, b@, 0) == bytes_lt_from(a@, b@, i as int),
        decreases na - i,
    {
        let x = a[i];
        let y = b[i];
        if x != y {
            return x < y;
        }
        i = i + 1;
    }
    i < nb
}

impl PointId {
    /// Decides whether two identifiers denote the same point.
    pub fn eq_id(&self, other: &PointId) -> (r: bool)
        ensures
            r == (self@ == other@),
    {
        match (self, other) {
            (PointId::Num(x), PointId::Num(y)) => *x == *y,
            (PointId::Str(x), PointId::Str(y)) => *x == *y,
            _ => false,
        }
    }

    /// Decides the tie-break order between two identifiers.
    pub fn lt_id(&self, other: &PointId) -> (r: bool)
        ensures
            r == id_lt(self@, other@),
    {
        match (self, other) {
            (PointId::Num(x), PointId::Num(y)) => *x < *y,
            (PointId::Num(_), PointId::Str(_)) => true,
            (PointId::Str(_), PointId::Num(_)) => false,
            (PointId::Str(x), PointId::Str(y)) => bytes_lt_exec(
                x.as_str().as_bytes(),
                y.as_str().as_bytes(),
            ),
        }
    }
}

impl Clone for PointId {
    /// A clone has the same model as the original identifier.
    fn clone(&self) -> (r: Self)
        ensures
            r@ == self@,
    {
        match self {
            PointId::Num(n) => PointId::Num(*n),
            PointId::Str(s) => PointId::Str(s.clone()),
        }
    }
}

} // verus!
