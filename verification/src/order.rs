//! The order of names: texts are ordered as their UTF-8 bytes are, byte by
//! byte, a text before each of its proper extensions. Pairs of names are
//! ordered by their first name, then by their second.

use vstd::prelude::*;
use vstd::string::*;
use vstd::utf8::{encode_utf8, encode_utf8_decode_utf8};

verus! {

/// How one key stands to another in the order.
#[derive(Debug, Copy, Clone, PartialEq, Eq, Structural)]
pub enum Rank {
    /// The first comes before the second.
    Before,
    /// The two are the same key.
    Same,
    /// The first comes after the second.
    After,
}

/// Whether `a` and `b` hold the same bytes at every position before `k`.
pub open spec fn agree(a: Seq<u8>, b: Seq<u8>, k: int) -> bool {
    forall|j: int| 0 <= j < k ==> a[j] == b[j]
}

/// Whether `a` comes before `b`: at the first position where they part,
/// `a` has ended or holds the smaller byte.
pub open spec fn bytes_before(a: Seq<u8>, b: Seq<u8>) -> bool {
    exists|k: int|
        0 <= k <= a.len() && k < b.len() && #[trigger] agree(a, b, k) && (k == a.len() || a[k]
            < b[k])
}

/// Whether the text `a` comes before the text `b`.
pub open spec fn text_before(a: Seq<char>, b: Seq<char>) -> bool {
    bytes_before(encode_utf8(a), encode_utf8(b))
}

/// Whether the pair `a` comes before the pair `b`.
pub open spec fn pair_before(a: (Seq<char>, Seq<char>), b: (Seq<char>, Seq<char>)) -> bool {
    text_before(a.0, b.0) || (a.0 == b.0 && text_before(a.1, b.1))
}

/// No sequence of bytes comes before itself.
pub proof fn lemma_bytes_irreflexive(a: Seq<u8>)
    ensures
        !bytes_before(a, a),
{
}

/// The order of byte sequences is transitive.
pub proof fn lemma_bytes_transitive(a: Seq<u8>, b: Seq<u8>, c: Seq<u8>)
    requires
        bytes_before(a, b),
        bytes_before(b, c),
    ensures
        bytes_before(a, c),
{
    let k1 = choose|k: int|
        0 <= k <= a.len() && k < b.len() && #[trigger] agree(a, b, k) && (k == a.len() || a[k]
            < b[k]);
    let k2 = choose|k: int|
        0 <= k <= b.len() && k < c.len() && #[trigger] agree(b, c, k) && (k == b.len() || b[k]
            < c[k]);
    let k = if k1 <= k2 {
        k1
    } else {
        k2
    };
    assert(agree(a, c, k));
}

/// Of two different byte sequences one comes before the other.
pub proof fn lemma_bytes_total(a: Seq<u8>, b: Seq<u8>)
    ensures
        bytes_before(a, b) || a == b || bytes_before(b, a),
{
    let k = first_parting(a, b, 0);
    lemma_first_parting(a, b, 0);
    if k == a.len() && k == b.len() {
        assert(a =~= b);
    } else if k == a.len() || (k < b.len() && a[k] < b[k]) {
        assert(agree(a, b, k));
    } else {
        assert(agree(b, a, k));
    }
}

/// The first position at or after `i` where `a` and `b` part: where one of
/// them has ended or they hold different bytes.
pub open spec fn first_parting(a: Seq<u8>, b: Seq<u8>, i: int) -> int
    decreases a.len() - i,
{
    if 0 <= i < a.len() && i < b.len() && a[i] == b[i] {
        first_parting(a, b, i + 1)
    } else {
        i
    }
}

/// Where `first_parting` stops: within both sequences, after bytes that
/// agree, and not at bytes that agree.
pub proof fn lemma_first_parting(a: Seq<u8>, b: Seq<u8>, i: int)
    requires
        0 <= i <= a.len(),
        i <= b.len(),
    ensures
        i <= first_parting(a, b, i) <= a.len(),
        first_parting(a, b, i) <= b.len(),
        forall|j: int| i <= j < first_parting(a, b, i) ==> a[j] == b[j],
        first_parting(a, b, i) < a.len() && first_parting(a, b, i) < b.len() ==> a[first_parting(
            a,
            b,
            i,
        )] != b[first_parting(a, b, i)],
    decreases a.len() - i,
{
    if i < a.len() && i < b.len() && a[i] == b[i] {
        lemma_first_parting(a, b, i + 1);
    }
}

/// Texts with the same bytes are the same text.
pub proof fn lemma_same_bytes_same_text(a: Seq<char>, b: Seq<char>)
    requires
        encode_utf8(a) == encode_utf8(b),
    ensures
        a == b,
{
    encode_utf8_decode_utf8(a);
    encode_utf8_decode_utf8(b);
}

/// No text comes before itself.
pub proof fn lemma_text_irreflexive(a: Seq<char>)
    ensures
        !text_before(a, a),
{
    lemma_bytes_irreflexive(encode_utf8(a));
}

/// The order of texts is transitive.
pub proof fn lemma_text_transitive(a: Seq<char>, b: Seq<char>, c: Seq<char>)
    requires
        text_before(a, b),
        text_before(b, c),
    ensures
        text_before(a, c),
{
    lemma_bytes_transitive(encode_utf8(a), encode_utf8(b), encode_utf8(c));
}

/// Of two different texts one comes before the other.
pub proof fn lemma_text_total(a: Seq<char>, b: Seq<char>)
    ensures
        text_before(a, b) || a == b || text_before(b, a),
{
    lemma_bytes_total(encode_utf8(a), encode_utf8(b));
    if encode_utf8(a) == encode_utf8(b) {
        lemma_same_bytes_same_text(a, b);
    }
}

/// How the text `a` stands to the text `b`.
pub fn rank_text(a: &str, b: &str) -> (r: Rank)
    ensures
        match r {
            Rank::Before => text_before(a@, b@),
            Rank::Same => a@ == b@,
            Rank::After => text_before(b@, a@),
        },
{
    let x = a.as_bytes();
    let y = b.as_bytes();
    let mut i: usize = 0;
    while i < x.len() && i < y.len() && x[i] == y[i]
        invariant
            i <= x.len(),
            i <= y.len(),
            agree(x@, y@, i as int),
        decreases x.len() - i,
    {
        i = i + 1;
    }
    if i == x.len() && i == y.len() {
        proof {
            assert(x@ =~= y@);
            lemma_same_bytes_same_text(a@, b@);
        }
        Rank::Same
    } else if i == x.len() {
        Rank::Before
    } else if i == y.len() {
        assert(agree(y@, x@, i as int));
        Rank::After
    } else if x[i] < y[i] {
        Rank::Before
    } else {
        assert(agree(y@, x@, i as int));
        Rank::After
    }
}

/// A key of a sorted collection: a value with a view, and a strict total
/// order on the views.
pub trait Key: View + Sized {
    /// Whether the key viewed as `a` comes before the key viewed as `b`.
    spec fn before(a: Self::V, b: Self::V) -> bool;

    /// No key comes before itself.
    proof fn lemma_irreflexive(a: Self::V)
        ensures
            !Self::before(a, a),
    ;

    /// What comes before a key comes before all that the key comes before.
    proof fn lemma_transitive(a: Self::V, b: Self::V, c: Self::V)
        requires
            Self::before(a, b),
            Self::before(b, c),
        ensures
            Self::before(a, c),
    ;

    /// Of two different keys one comes before the other.
    proof fn lemma_total(a: Self::V, b: Self::V)
        ensures
            Self::before(a, b) || a == b || Self::before(b, a),
    ;

    /// How `self` stands to `other`.
    fn rank(&self, other: &Self) -> (r: Rank)
        ensures
            match r {
                Rank::Before => Self::before(self@, other@),
                Rank::Same => self@ == other@,
                Rank::After => Self::before(other@, self@),
            },
    ;

    /// A key with the same view.
    fn copy(&self) -> (r: Self)
        ensures
            r@ == self@,
    ;
}

impl Key for String {
    open spec fn before(a: Seq<char>, b: Seq<char>) -> bool {
        text_before(a, b)
    }

    proof fn lemma_irreflexive(a: Seq<char>) {
        lemma_text_irreflexive(a);
    }

    proof fn lemma_transitive(a: Seq<char>, b: Seq<char>, c: Seq<char>) {
        lemma_text_transitive(a, b, c);
    }

    proof fn lemma_total(a: Seq<char>, b: Seq<char>) {
        lemma_text_total(a, b);
    }

    fn rank(&self, other: &String) -> (r: Rank) {
        rank_text(self.as_str(), other.as_str())
    }

    fn copy(&self) -> (r: String) {
        self.clone()
    }
}

impl Key for (String, String) {
    open spec fn before(a: (Seq<char>, Seq<char>), b: (Seq<char>, Seq<char>)) -> bool {
        pair_before(a, b)
    }

    proof fn lemma_irreflexive(a: (Seq<char>, Seq<char>)) {
        lemma_text_irreflexive(a.0);
        lemma_text_irreflexive(a.1);
    }

    proof fn lemma_transitive(
        a: (Seq<char>, Seq<char>),
        b: (Seq<char>, Seq<char>),
        c: (Seq<char>, Seq<char>),
    ) {
        if text_before(a.0, b.0) && text_before(b.0, c.0) {
            lemma_text_transitive(a.0, b.0, c.0);
        }
        if a.0 == b.0 && b.0 == c.0 {
            lemma_text_transitive(a.1, b.1, c.1);
        }
    }

    proof fn lemma_total(a: (Seq<char>, Seq<char>), b: (Seq<char>, Seq<char>)) {
        lemma_text_total(a.0, b.0);
        lemma_text_total(a.1, b.1);
    }

    fn rank(&self, other: &(String, String)) -> (r: Rank) {
        match rank_text(self.0.as_str(), other.0.as_str()) {
            Rank::Before => Rank::Before,
            Rank::After => Rank::After,
            Rank::Same => rank_text(self.1.as_str(), other.1.as_str()),
        }
    }

    fn copy(&self) -> (r: (String, String)) {
        (self.0.clone(), self.1.clone())
    }
}

} // verus!
