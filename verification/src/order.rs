//! The order in which the entries of one directory are shown.
//!
//! Directories come before everything else.  Within the same class, names
//! are compared as byte strings in their UTF-8 encoding; no locale is
//! consulted.  This is also the order of their code points, as
//! [`crate::codepoint`] shows.

use crate::entry::{Entry, EntryModel};
use vstd::prelude::*;
use vstd::utf8::encode_utf8;

verus! {

/// The two byte strings hold the same bytes at every index below `k`.
pub open spec fn agree_below(a: Seq<u8>, b: Seq<u8>, k: int) -> bool {
    &&& 0 <= k <= a.len()
    &&& k <= b.len()
    &&& forall|i: int| 0 <= i < k ==> a[i] == b[i]
}

/// Index `k` is where `a` is found to sort before `b`: they agree below `k`,
/// and there `a` has ended while `b` goes on, or `a` holds the smaller byte.
pub open spec fn decided_at(a: Seq<u8>, b: Seq<u8>, k: int) -> bool {
    &&& agree_below(a, b, k)
    &&& k < b.len()
    &&& (k == a.len() || a[k] < b[k])
}

/// Strict lexicographic order on byte strings.
pub open spec fn bytes_before(a: Seq<u8>, b: Seq<u8>) -> bool {
    exists|k: int| decided_at(a, b, k)
}

/// Strict order on names: the byte order of their UTF-8 encodings.
pub open spec fn name_before(a: Seq<char>, b: Seq<char>) -> bool {
    bytes_before(encode_utf8(a), encode_utf8(b))
}

/// Strict order on entries: a directory sorts before a non-directory; two
/// entries of the same class sort by name.
pub open spec fn entry_before(x: EntryModel, y: EntryModel) -> bool {
    if (x.kind is Directory) != (y.kind is Directory) {
        x.kind is Directory
    } else {
        name_before(x.name, y.name)
    }
}

/// The outcome of comparing two values under a strict order.
#[derive(Clone, Copy, Debug, PartialEq, Eq, Structural)]
pub enum Precedence {
    /// The first sorts before the second.
    Before,
    /// Neither sorts before the other.
    Tied,
    /// The second sorts before the first.
    After,
}

/// How `a` stands to `b` under [`bytes_before`].
pub open spec fn bytes_precedence(a: Seq<u8>, b: Seq<u8>) -> Precedence {
    if bytes_before(a, b) {
        Precedence::Before
    } else if bytes_before(b, a) {
        Precedence::After
    } else {
        Precedence::Tied
    }
}

/// How `x` stands to `y` under [`entry_before`].
pub open spec fn entry_precedence(x: EntryModel, y: EntryModel) -> Precedence {
    if entry_before(x, y) {
        Precedence::Before
    } else if entry_before(y, x) {
        Precedence::After
    } else {
        Precedence::Tied
    }
}

/// No byte string sorts before itself.
pub proof fn lemma_bytes_before_irreflexive(a: Seq<u8>)
    ensures
        !bytes_before(a, a),
{
}

/// Two byte strings never sort before each other.
pub proof fn lemma_bytes_before_asymmetric(a: Seq<u8>, b: Seq<u8>)
    ensures
        !(bytes_before(a, b) && bytes_before(b, a)),
{
    if bytes_before(a, b) && bytes_before(b, a) {
        let k = choose|k: int| decided_at(a, b, k);
        let m = choose|m: int| decided_at(b, a, m);
        // The strings differ at both indices, and agree below each of them.
        assert(k != m);
    }
}

/// The byte order is transitive.
pub proof fn lemma_bytes_before_transitive(a: Seq<u8>, b: Seq<u8>, c: Seq<u8>)
    requires
        bytes_before(a, b),
        bytes_before(b, c),
    ensures
        bytes_before(a, c),
{
    let k = choose|k: int| decided_at(a, b, k);
    let m = choose|m: int| decided_at(b, c, m);
    let n = if k <= m { k } else { m };
    assert(decided_at(a, c, n));
}

/// Two byte strings agree below `k`, and from `k` on one of them has a
/// place where it is decided, or both end together.
proof fn lemma_bytes_total_from(a: Seq<u8>, b: Seq<u8>, k: int)
    requires
        agree_below(a, b, k),
    ensures
        bytes_before(a, b) || bytes_before(b, a) || a == b,
    decreases a.len() - k,
{
    if k == a.len() && k == b.len() {
        assert(a =~= b);
    } else if k == a.len() || (k < b.len() && a[k] < b[k]) {
        assert(decided_at(a, b, k));
    } else if k == b.len() || b[k] < a[k] {
        assert(decided_at(b, a, k));
    } else {
        lemma_bytes_total_from(a, b, k + 1);
    }
}

/// Of two different byte strings one sorts before the other.
pub proof fn lemma_bytes_before_total(a: Seq<u8>, b: Seq<u8>)
    ensures
        bytes_before(a, b) || bytes_before(b, a) || a == b,
{
    lemma_bytes_total_from(a, b, 0);
}

/// The name order is a strict total order: no name sorts before itself, the
/// order is transitive, and of two different names exactly one sorts before
/// the other.
pub proof fn lemma_name_order_strict_total(a: Seq<char>, b: Seq<char>, c: Seq<char>)
    ensures
        !name_before(a, a),
        !(name_before(a, b) && name_before(b, a)),
        name_before(a, b) && name_before(b, c) ==> name_before(a, c),
        a != b ==> name_before(a, b) || name_before(b, a),
{
    lemma_bytes_before_asymmetric(encode_utf8(a), encode_utf8(b));
    if name_before(a, b) && name_before(b, c) {
        lemma_bytes_before_transitive(encode_utf8(a), encode_utf8(b), encode_utf8(c));
    }
    lemma_bytes_before_total(encode_utf8(a), encode_utf8(b));
    vstd::utf8::encode_utf8_decode_utf8(a);
    vstd::utf8::encode_utf8_decode_utf8(b);
}

/// The entry order is a strict order in which being tied is an equivalence:
/// tied entries are both directories or both not, and bear the same name.
pub proof fn lemma_entry_order_strict_weak(x: EntryModel, y: EntryModel, z: EntryModel)
    ensures
        !entry_before(x, x),
        !(entry_before(x, y) && entry_before(y, x)),
        entry_before(x, y) && entry_before(y, z) ==> entry_before(x, z),
        entry_precedence(x, y) is Tied <==> (x.kind is Directory) == (y.kind is Directory)
            && x.name == y.name,
{
    lemma_name_order_strict_total(x.name, y.name, z.name);
    lemma_name_order_strict_total(x.name, x.name, x.name);
}

/// Compares two byte strings lexicographically.
pub fn compare_bytes(a: &[u8], b: &[u8]) -> (r: Precedence)
    ensures
        r == bytes_precedence(a@, b@),
{
    let mut i: usize = 0;
    while i < a.len() && i < b.len()
        invariant
            agree_below(a@, b@, i as int),
        decreases a.len() - i,
    {
        if a[i] < b[i] {
            proof {
                assert(decided_at(a@, b@, i as int));
                lemma_bytes_before_asymmetric(a@, b@);
            }
            return Precedence::Before;
        }
        if a[i] > b[i] {
            proof {
                assert(decided_at(b@, a@, i as int));
                lemma_bytes_before_asymmetric(a@, b@);
            }
            return Precedence::After;
        }
        i += 1;
    }
    proof {
        lemma_bytes_before_asymmetric(a@, b@);
    }
    if i < b.len() {
        assert(decided_at(a@, b@, i as int));
        Precedence::Before
    } else if i < a.len() {
        assert(decided_at(b@, a@, i as int));
        Precedence::After
    } else {
        proof {
            lemma_bytes_before_irreflexive(a@);
        }
        Precedence::Tied
    }
}

/// Compares two names by the bytes of their UTF-8 encodings.
pub fn compare_names(a: &str, b: &str) -> (r: Precedence)
    ensures
        r == bytes_precedence(encode_utf8(a@), encode_utf8(b@)),
        r is Before <==> name_before(a@, b@),
        r is After <==> name_before(b@, a@),
{
    proof {
        lemma_bytes_before_asymmetric(encode_utf8(a@), encode_utf8(b@));
    }
    compare_bytes(a.as_bytes(), b.as_bytes())
}

/// Compares two entries: directories first, then by name.
pub fn compare_entries(a: &Entry, b: &Entry) -> (r: Precedence)
    ensures
        r == entry_precedence(a@, b@),
{
    proof {
        lemma_entry_order_strict_weak(a@, b@, a@);
    }
    let a_is_dir = a.kind.is_directory();
    let b_is_dir = b.kind.is_directory();
    if a_is_dir && !b_is_dir {
        Precedence::Before
    } else if !a_is_dir && b_is_dir {
        Precedence::After
    } else {
        compare_names(a.name.as_str(), b.name.as_str())
    }
}

} // verus!
