//! Fixed-width content hashes and the byte codecs built on them.

use sha2::Digest;
use vstd::prelude::*;
use vstd::std_specs::cmp::PartialEqSpecImpl;

verus! {

/// A 32-byte content digest. Also used for version and node identifiers.
#[derive(Clone, Copy, Debug, Eq, PartialOrd, Ord)]
pub struct Hash {
    pub bytes: [u8; 32],
}

/// Identifier of a version or of a node: the same 32 bytes as a [`Hash`].
pub type Uuid = Hash;

impl View for Hash {
    type V = Seq<u8>;

    open spec fn view(&self) -> Seq<u8> {
        self.bytes@
    }
}

impl PartialEq for Hash {
    fn eq(&self, other: &Hash) -> (r: bool) {
        let mut i: usize = 0;
        while i < 32
            invariant
                i <= 32,
                forall|j: int| 0 <= j < i ==> self.bytes[j] == other.bytes[j],
            decreases 32 - i,
        {
            if self.bytes[i] != other.bytes[i] {
                return false;
            }
            i += 1;
        }
        assert(self.bytes@ =~= other.bytes@);
        true
    }
}

impl PartialEqSpecImpl for Hash {
    open spec fn obeys_eq_spec() -> bool {
        true
    }

    open spec fn eq_spec(&self, other: &Hash) -> bool {
        self@ == other@
    }
}

/// Byte-lexicographic "strictly before": at the first index where the two
/// sequences differ `a` holds the smaller byte, or `a` is a proper prefix
/// of `b`.
pub open spec fn lex_lt(a: Seq<u8>, b: Seq<u8>) -> bool {
    ||| exists|k: int| is_first_difference(a, b, k) && a[k] < b[k]
    ||| (a.len() < b.len() && a == b.take(a.len() as int))
}

/// `k` indexes both sequences, they agree before `k` and differ at `k`.
pub open spec fn is_first_difference(a: Seq<u8>, b: Seq<u8>, k: int) -> bool {
    &&& 0 <= k < a.len()
    &&& k < b.len()
    &&& a[k] != b[k]
    &&& forall|j: int| 0 <= j < k ==> a[j] == b[j]
}

/// Two sequences have at most one first difference.
pub proof fn lemma_first_difference_unique(a: Seq<u8>, b: Seq<u8>, k1: int, k2: int)
    requires
        is_first_difference(a, b, k1),
        is_first_difference(a, b, k2),
    ensures
        k1 == k2,
{
    if k1 < k2 {
        assert(a[k1] == b[k1]);
    } else if k2 < k1 {
        assert(a[k2] == b[k2]);
    }
}

/// The byte order is irreflexive.
pub proof fn lemma_lex_lt_irreflexive(a: Seq<u8>)
    ensures
        !lex_lt(a, a),
{
}

/// The byte order is asymmetric.
pub proof fn lemma_lex_lt_asymmetric(a: Seq<u8>, b: Seq<u8>)
    requires
        lex_lt(a, b),
    ensures
        !lex_lt(b, a),
{
    if lex_lt(b, a) {
        if a.len() < b.len() && a == b.take(a.len() as int) {
            if b.len() < a.len() {
            } else {
                let k = choose|k: int| is_first_difference(b, a, k) && b[k] < a[k];
                assert(a[k] == b.take(a.len() as int)[k]);
            }
        } else {
            let k1 = choose|k: int| is_first_difference(a, b, k) && a[k] < b[k];
            if b.len() < a.len() && b == a.take(b.len() as int) {
                assert(b[k1] == a.take(b.len() as int)[k1]);
            } else {
                let k2 = choose|k: int| is_first_difference(b, a, k) && b[k] < a[k];
                assert(is_first_difference(a, b, k2));
                lemma_first_difference_unique(a, b, k1, k2);
            }
        }
    }
}

/// The byte order is transitive on sequences of one length.
pub proof fn lemma_lex_lt_transitive(a: Seq<u8>, b: Seq<u8>, c: Seq<u8>)
    requires
        a.len() == b.len(),
        b.len() == c.len(),
        lex_lt(a, b),
        lex_lt(b, c),
    ensures
        lex_lt(a, c),
{
    let k1 = choose|k: int| is_first_difference(a, b, k) && a[k] < b[k];
    let k2 = choose|k: int| is_first_difference(b, c, k) && b[k] < c[k];
    let k = if k1 <= k2 { k1 } else { k2 };
    assert(is_first_difference(a, c, k) && a[k] < c[k]);
}

/// Two sequences of one length are equal or ordered one way.
pub proof fn lemma_lex_lt_total(a: Seq<u8>, b: Seq<u8>)
    requires
        a.len() == b.len(),
    ensures
        a == b || lex_lt(a, b) || lex_lt(b, a),
    decreases a.len(),
{
    if a.len() == 0 {
        assert(a =~= b);
    } else if a[0] != b[0] {
        assert(is_first_difference(a, b, 0));
        assert(is_first_difference(b, a, 0));
    } else {
        let a1 = a.skip(1);
        let b1 = b.skip(1);
        lemma_lex_lt_total(a1, b1);
        if a1 == b1 {
            assert forall|i: int| 0 <= i < a.len() implies a[i] == b[i] by {
                if i > 0 {
                    assert(a[i] == a1[i - 1]);
                    assert(b[i] == b1[i - 1]);
                }
            }
            assert(a =~= b);
        } else if lex_lt(a1, b1) {
            let k = choose|k: int| is_first_difference(a1, b1, k) && a1[k] < b1[k];
            assert forall|j: int| 0 <= j < k + 1 implies a[j] == b[j] by {
                if j > 0 {
                    assert(a1[j - 1] == b1[j - 1]);
                }
            }
            assert(is_first_difference(a, b, k + 1) && a[k + 1] < b[k + 1]);
        } else {
            let k = choose|k: int| is_first_difference(b1, a1, k) && b1[k] < a1[k];
            assert forall|j: int| 0 <= j < k + 1 implies b[j] == a[j] by {
                if j > 0 {
                    assert(b1[j - 1] == a1[j - 1]);
                }
            }
            assert(is_first_difference(b, a, k + 1) && b[k + 1] < a[k + 1]);
        }
    }
}

impl Hash {
    /// Wraps 32 raw bytes.
    pub fn new(bytes: [u8; 32]) -> (h: Hash)
        ensures
            h.bytes == bytes,
    {
        Hash { bytes }
    }

    /// The hash whose 32 bytes all equal `byte`.
    pub fn filled(byte: u8) -> (h: Hash)
        ensures
            h@ == Seq::new(32, |i: int| byte),
    {
        let h = Hash { bytes: [byte; 32] };
        assert(h@ =~= Seq::new(32, |i: int| byte));
        h
    }

    /// Reads a hash from a slice; `None` unless the slice holds exactly 32 bytes.
    pub fn from_slice(bytes: &[u8]) -> (r: Option<Hash>)
        ensures
            r.is_some() == (bytes@.len() == 32),
            r matches Some(h) ==> h@ == bytes@,
    {
        if bytes.len() != 32 {
            return None;
        }
        let mut arr = [0u8; 32];
        let mut i: usize = 0;
        while i < 32
            invariant
                i <= 32,
                bytes@.len() == 32,
                forall|j: int| 0 <= j < i ==> arr[j] == bytes[j],
            decreases 32 - i,
        {
            arr[i] = bytes[i];
            i += 1;
        }
        let h = Hash { bytes: arr };
        assert(h@ =~= bytes@);
        Some(h)
    }

    /// The 32 bytes as a slice.
    pub fn as_slice(&self) -> (s: &[u8])
        ensures
            s@ == self@,
    {
        self.bytes.as_slice()
    }

    /// The 32 bytes as a fresh vector.
    pub fn to_vec(&self) -> (v: Vec<u8>)
        ensures
            v@ == self@,
    {
        let mut v: Vec<u8> = Vec::new();
        let mut i: usize = 0;
        while i < 32
            invariant
                i <= 32,
                v@.len() == i,
                forall|j: int| 0 <= j < i ==> v@[j] == self.bytes[j],
            decreases 32 - i,
        {
            v.push(self.bytes[i]);
            i += 1;
        }
        assert(v@ =~= self@);
        v
    }

    /// The hash in lower-case hexadecimal, 64 digits.
    pub fn to_hex(&self) -> (text: String)
        ensures
            text@ == hex_string(self@),
    {
        hex_encode(self.as_slice())
    }

    /// Two hashes with the same bytes are the same value.
    pub proof fn lemma_view_injective(a: Hash, b: Hash)
        ensures
            (a@ == b@) == (a == b),
    {
        broadcast use vstd::array::group_array_axioms;

        if a@ == b@ {
            assert forall|i: int| 0 <= i < 32 implies a.bytes[i] == b.bytes[i] by {
                assert(a.bytes@[i] == b.bytes@[i]);
            }
            assert(a.bytes =~= b.bytes);
        }
    }

    /// Whether both hashes hold the same bytes.
    pub fn same(&self, other: &Hash) -> (r: bool)
        ensures
            r == (self@ == other@),
            r == (*self == *other),
    {
        proof {
            Self::lemma_view_injective(*self, *other);
        }
        *self == *other
    }

    /// Whether `self` comes strictly before `other` in byte order.
    pub fn precedes(&self, other: &Hash) -> (r: bool)
        ensures
            r == lex_lt(self@, other@),
    {
        let mut i: usize = 0;
        while i < 32
            invariant
                i <= 32,
                forall|j: int| 0 <= j < i ==> self.bytes[j] == other.bytes[j],
            decreases 32 - i,
        {
            if self.bytes[i] != other.bytes[i] {
                let r = self.bytes[i] < other.bytes[i];
                proof {
                    let k = i as int;
                    assert(is_first_difference(self@, other@, k));
                    if !r {
                        assert(is_first_difference(other@, self@, k) && other@[k] < self@[k]);
                        lemma_lex_lt_asymmetric(other@, self@);
                    }
                }
                return r;
            }
            i += 1;
        }
        proof {
            assert(self@ =~= other@);
            lemma_lex_lt_irreflexive(self@);
        }
        false
    }
}

/// The digit that [`hex_string`] writes for a value below 16.
pub open spec fn hex_digit(nibble: int) -> char {
    if nibble == 0 {
        '0'
    } else if nibble == 1 {
        '1'
    } else if nibble == 2 {
        '2'
    } else if nibble == 3 {
        '3'
    } else if nibble == 4 {
        '4'
    } else if nibble == 5 {
        '5'
    } else if nibble == 6 {
        '6'
    } else if nibble == 7 {
        '7'
    } else if nibble == 8 {
        '8'
    } else if nibble == 9 {
        '9'
    } else if nibble == 10 {
        'a'
    } else if nibble == 11 {
        'b'
    } else if nibble == 12 {
        'c'
    } else if nibble == 13 {
        'd'
    } else if nibble == 14 {
        'e'
    } else {
        'f'
    }
}

/// Lower-case hexadecimal text of `data`: two digits per byte, the high
/// half first.
pub open spec fn hex_string(data: Seq<u8>) -> Seq<char> {
    Seq::new(
        2 * data.len(),
        |i: int|
            if i % 2 == 0 {
                hex_digit(data[i / 2] as int / 16)
            } else {
                hex_digit(data[i / 2] as int % 16)
            },
    )
}

/// Calls `hex::encode`. Trusted: the result is the lower-case hexadecimal
/// text of the input, two digits per byte with the high half first, as the
/// crate's `BytesToHexChars` iterator produces it.
#[verifier::external_body]
pub(crate) fn hex_encode(data: &[u8]) -> (s: String)
    ensures
        s@ == hex_string(data@),
{
    hex::encode(data)
}

/// The SHA-256 digest of a byte sequence, as `sha2` computes it.
pub uninterp spec fn sha256(data: Seq<u8>) -> Seq<u8>;

/// Calls `sha2::Sha256::digest`. Trusted: the 32 bytes returned are a
/// function of the input bytes alone, named [`sha256`].
#[verifier::external_body]
fn sha256sum(data: &[u8]) -> (h: Hash)
    ensures
        h@ == sha256(data@),
{
    let digest = sha2::Sha256::digest(data);
    let mut bytes = [0u8; 32];
    bytes.copy_from_slice(&digest[..]);
    Hash { bytes }
}

/// The content hash of a block.
pub fn hash(data: &[u8]) -> (h: Hash)
    ensures
        h@ == sha256(data@),
{
    sha256sum(data)
}

/// The number that eight bytes spell in big-endian order.
pub open spec fn be_u64(s: Seq<u8>) -> int
    recommends
        s.len() == 8,
{
    s[0] * 0x100_0000_0000_0000 + s[1] * 0x1_0000_0000_0000 + s[2] * 0x100_0000_0000 + s[3]
        * 0x1_0000_0000 + s[4] * 0x100_0000 + s[5] * 0x1_0000 + s[6] * 0x100 + s[7]
}

/// The eight bytes that spell `x` in big-endian order: the remainders of
/// repeated division by 256, the last remainder first.
pub open spec fn be_bytes(x: u64) -> Seq<u8> {
    let d1 = x / 256;
    let d2 = d1 / 256;
    let d3 = d2 / 256;
    let d4 = d3 / 256;
    let d5 = d4 / 256;
    let d6 = d5 / 256;
    let d7 = d6 / 256;
    seq![
        (d7 % 256) as u8,
        (d6 % 256) as u8,
        (d5 % 256) as u8,
        (d4 % 256) as u8,
        (d3 % 256) as u8,
        (d2 % 256) as u8,
        (d1 % 256) as u8,
        (x % 256) as u8,
    ]
}

/// Decoding undoes encoding.
pub proof fn lemma_be_roundtrip(x: u64)
    ensures
        be_bytes(x).len() == 8,
        be_u64(be_bytes(x)) == x,
{
    let d1 = x / 256;
    let d2 = d1 / 256;
    let d3 = d2 / 256;
    let d4 = d3 / 256;
    let d5 = d4 / 256;
    let d6 = d5 / 256;
    let d7 = d6 / 256;
    assert(x == d1 * 256 + x % 256);
    assert(d1 == d2 * 256 + d1 % 256);
    assert(d2 == d3 * 256 + d2 % 256);
    assert(d3 == d4 * 256 + d3 % 256);
    assert(d4 == d5 * 256 + d4 % 256);
    assert(d5 == d6 * 256 + d5 % 256);
    assert(d6 == d7 * 256 + d6 % 256);
    assert(d7 < 256);
}

/// Encoding undoes decoding, so the encoding is the only eight bytes that
/// decode to its number.
pub proof fn lemma_be_bytes_of_value(s: Seq<u8>)
    requires
        s.len() == 8,
    ensures
        0 <= be_u64(s) <= u64::MAX,
        be_bytes(be_u64(s) as u64) == s,
{
    let x = be_u64(s) as u64;
    let e1 = s[0] * 0x1_0000_0000_0000 + s[1] * 0x100_0000_0000 + s[2] * 0x1_0000_0000 + s[3]
        * 0x100_0000 + s[4] * 0x1_0000 + s[5] * 0x100 + s[6];
    let e2 = s[0] * 0x100_0000_0000 + s[1] * 0x1_0000_0000 + s[2] * 0x100_0000 + s[3] * 0x1_0000
        + s[4] * 0x100 + s[5];
    let e3 = s[0] * 0x1_0000_0000 + s[1] * 0x100_0000 + s[2] * 0x1_0000 + s[3] * 0x100 + s[4];
    let e4 = s[0] * 0x100_0000 + s[1] * 0x1_0000 + s[2] * 0x100 + s[3];
    let e5 = s[0] * 0x1_0000 + s[1] * 0x100 + s[2];
    let e6 = s[0] * 0x100 + s[1];
    let e7 = s[0] as int;
    assert(x == e1 * 256 + s[7]);
    assert(x / 256 == e1 && x % 256 == s[7]);
    assert(e1 == e2 * 256 + s[6]);
    assert(e1 / 256 == e2 && e1 % 256 == s[6]);
    assert(e2 == e3 * 256 + s[5]);
    assert(e2 / 256 == e3 && e2 % 256 == s[5]);
    assert(e3 == e4 * 256 + s[4]);
    assert(e3 / 256 == e4 && e3 % 256 == s[4]);
    assert(e4 == e5 * 256 + s[3]);
    assert(e4 / 256 == e5 && e4 % 256 == s[3]);
    assert(e5 == e6 * 256 + s[2]);
    assert(e5 / 256 == e6 && e5 % 256 == s[2]);
    assert(e6 == e7 * 256 + s[1]);
    assert(e6 / 256 == e7 && e6 % 256 == s[1]);
    assert(e7 % 256 == s[0]);
    assert(be_bytes(x) =~= s);
}

/// Big-endian encodings compare in byte order as their numbers compare.
pub proof fn lemma_be_bytes_ordered(x: u64, y: u64)
    requires
        x < y,
    ensures
        lex_lt(be_bytes(x), be_bytes(y)),
{
    let a = be_bytes(x);
    let b = be_bytes(y);
    let x1 = x / 256;
    let x2 = x1 / 256;
    let x3 = x2 / 256;
    let x4 = x3 / 256;
    let x5 = x4 / 256;
    let x6 = x5 / 256;
    let x7 = x6 / 256;
    let y1 = y / 256;
    let y2 = y1 / 256;
    let y3 = y2 / 256;
    let y4 = y3 / 256;
    let y5 = y4 / 256;
    let y6 = y5 / 256;
    let y7 = y6 / 256;
    assert(x1 <= y1 && x2 <= y2 && x3 <= y3 && x4 <= y4 && x5 <= y5 && x6 <= y6 && x7 <= y7);
    assert(x7 < 256 && y7 < 256);
    let k: int = if x7 != y7 {
        0
    } else if x6 != y6 {
        1
    } else if x5 != y5 {
        2
    } else if x4 != y4 {
        3
    } else if x3 != y3 {
        4
    } else if x2 != y2 {
        5
    } else if x1 != y1 {
        6
    } else {
        7
    };
    assert(is_first_difference(a, b, k) && a[k] < b[k]);
}

/// Decodes a big-endian `u64` from exactly eight bytes.
pub fn u64_from_bytes(bytes: &[u8]) -> (x: u64)
    requires
        bytes@.len() == 8,
    ensures
        x == be_u64(bytes@),
{
    let mut x: u64 = 0;
    let mut i: usize = 0;
    while i < 8
        invariant
            i <= 8,
            bytes@.len() == 8,
            x == be_prefix(bytes@, i as int),
        decreases 8 - i,
    {
        proof {
            lemma_be_prefix_bound(bytes@, i as int);
        }
        x = x * 256 + bytes[i] as u64;
        i += 1;
    }
    proof {
        reveal_with_fuel(be_prefix, 9);
    }
    x
}

/// Encodes `x` as eight big-endian bytes.
pub fn u64_to_be_bytes(x: u64) -> (v: Vec<u8>)
    ensures
        v@ == be_bytes(x),
{
    let d1: u64 = x / 256;
    let d2: u64 = d1 / 256;
    let d3: u64 = d2 / 256;
    let d4: u64 = d3 / 256;
    let d5: u64 = d4 / 256;
    let d6: u64 = d5 / 256;
    let d7: u64 = d6 / 256;
    let mut v: Vec<u8> = Vec::new();
    v.push((d7 % 256) as u8);
    v.push((d6 % 256) as u8);
    v.push((d5 % 256) as u8);
    v.push((d4 % 256) as u8);
    v.push((d3 % 256) as u8);
    v.push((d2 % 256) as u8);
    v.push((d1 % 256) as u8);
    v.push((x % 256) as u8);
    assert(v@ =~= be_bytes(x));
    v
}

/// The number spelt by the first `n` bytes of `s`.
pub open spec fn be_prefix(s: Seq<u8>, n: int) -> int
    decreases n,
{
    if n <= 0 {
        0
    } else {
        be_prefix(s, n - 1) * 256 + s[n - 1]
    }
}

proof fn lemma_be_prefix_bound(s: Seq<u8>, n: int)
    requires
        0 <= n < 8,
    ensures
        0 <= be_prefix(s, n) <= 0xff_ffff_ffff_ffff,
{
    reveal_with_fuel(be_prefix, 9);
}

} // verus!
