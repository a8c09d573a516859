use vstd::prelude::*;
use vstd::string::StrSliceExecFns;
use crate::subst::str_eq;
use sha2::Digest;

verus! {

// A checksum string has the form `<algorithm>:<lowercase hex digest>`; it is
// split on its first colon, the digest of the data is computed with the named
// algorithm, and the two hex strings are compared character for character.

/// Why a checksum string was rejected.
#[derive(Debug, Clone, Copy, PartialEq, Eq, Structural)]
pub enum HashError {
    /// No `:` separates the algorithm tag from the digest.
    Format,
    /// The algorithm tag is not one of the supported set.
    Unsupported,
}

/// `j` is the index of the first colon of `s`.
pub open spec fn colon_at(s: Seq<char>, j: int) -> bool {
    &&& 0 <= j < s.len()
    &&& s[j] == ':'
    &&& forall|k: int| 0 <= k < j ==> s[k] != ':'
}

pub open spec fn has_colon(s: Seq<char>) -> bool {
    exists|j: int| colon_at(s, j)
}

pub open spec fn colon_idx(s: Seq<char>) -> int {
    choose|j: int| colon_at(s, j)
}

pub proof fn lemma_colon_unique(s: Seq<char>, j1: int, j2: int)
    requires
        colon_at(s, j1),
        colon_at(s, j2),
    ensures
        j1 == j2,
{
    if j1 < j2 {
        assert(s[j1] != ':');
    } else if j2 < j1 {
        assert(s[j2] != ':');
    }
}

/// The algorithm tag of a checksum string: what stands before the first colon.
pub open spec fn algo_of(s: Seq<char>) -> Seq<char> {
    s.take(colon_idx(s))
}

/// The expected digest of a checksum string: what stands after the first colon.
pub open spec fn expected_of(s: Seq<char>) -> Seq<char> {
    s.skip(colon_idx(s) + 1)
}

/// The SHA-256 digest of `data`: 32 bytes, a function of the bytes alone.
pub uninterp spec fn sha256_of(data: Seq<u8>) -> Seq<u8>;

/// The BLAKE3 digest of `data` in lowercase hex: a function of the bytes alone.
pub uninterp spec fn blake3_hex_of(data: Seq<u8>) -> Seq<char>;

/// The lowercase hex digit of a nibble.
pub open spec fn hex_digit(n: int) -> char {
    if n == 0 {
        '0'
    } else if n == 1 {
        '1'
    } else if n == 2 {
        '2'
    } else if n == 3 {
        '3'
    } else if n == 4 {
        '4'
    } else if n == 5 {
        '5'
    } else if n == 6 {
        '6'
    } else if n == 7 {
        '7'
    } else if n == 8 {
        '8'
    } else if n == 9 {
        '9'
    } else if n == 10 {
        'a'
    } else if n == 11 {
        'b'
    } else if n == 12 {
        'c'
    } else if n == 13 {
        'd'
    } else if n == 14 {
        'e'
    } else {
        'f'
    }
}

/// Lowercase hex encoding: two digits per byte, high nibble first.
pub open spec fn hex_lower_of(b: Seq<u8>) -> Seq<char>
    decreases b.len(),
{
    if b.len() == 0 {
        Seq::empty()
    } else {
        seq![hex_digit(b[0] as int / 16), hex_digit(b[0] as int % 16)] + hex_lower_of(b.skip(1))
    }
}

pub proof fn lemma_hex_len(b: Seq<u8>)
    ensures
        hex_lower_of(b).len() == 2 * b.len(),
    decreases b.len(),
{
    if b.len() > 0 {
        lemma_hex_len(b.skip(1));
    }
}

proof fn lemma_hex_digit_inj(n1: int, n2: int)
    requires
        0 <= n1 < 16,
        0 <= n2 < 16,
        hex_digit(n1) == hex_digit(n2),
    ensures
        n1 == n2,
{
}

/// Law: hex encoding names each byte string uniquely.
pub proof fn lemma_hex_injective(a: Seq<u8>, b: Seq<u8>)
    requires
        hex_lower_of(a) == hex_lower_of(b),
    ensures
        a == b,
    decreases a.len(),
{
    lemma_hex_len(a);
    lemma_hex_len(b);
    if a.len() == 0 {
        assert(a =~= b);
    } else {
        let ha = seq![hex_digit(a[0] as int / 16), hex_digit(a[0] as int % 16)];
        let hb = seq![hex_digit(b[0] as int / 16), hex_digit(b[0] as int % 16)];
        assert(hex_lower_of(a)[0] == ha[0] && hex_lower_of(a)[1] == ha[1]);
        assert(hex_lower_of(b)[0] == hb[0] && hex_lower_of(b)[1] == hb[1]);
        lemma_hex_digit_inj(a[0] as int / 16, b[0] as int / 16);
        lemma_hex_digit_inj(a[0] as int % 16, b[0] as int % 16);
        vstd::arithmetic::div_mod::lemma_fundamental_div_mod(a[0] as int, 16);
        vstd::arithmetic::div_mod::lemma_fundamental_div_mod(b[0] as int, 16);
        assert(a[0] == b[0]);
        assert(hex_lower_of(a.skip(1)) =~= hex_lower_of(a).skip(2));
        assert(hex_lower_of(b.skip(1)) =~= hex_lower_of(b).skip(2));
        lemma_hex_injective(a.skip(1), b.skip(1));
        assert forall|i: int| 0 <= i < a.len() implies a[i] == b[i] by {
            if i > 0 {
                assert(a[i] == a.skip(1)[i - 1]);
                assert(b[i] == b.skip(1)[i - 1]);
            }
        }
        assert(a =~= b);
    }
}

/// Relies on sha2's `Sha256::digest`: the 32-byte SHA-256 digest of the
/// input, a function of the bytes alone.
#[verifier::external_body]
fn sha256_digest(data: &[u8]) -> (r: Vec<u8>)
    ensures
        r@ == sha256_of(data@),
        r@.len() == 32,
{
    sha2::Sha256::digest(data).as_slice().to_vec()
}

/// Relies on base16ct's `lower::encode_string`: two lowercase hex digits per
/// input byte, high nibble first; it panics past `usize::MAX / 2` bytes.
#[verifier::external_body]
fn hex_lower(b: &[u8]) -> (r: String)
    requires
        b@.len() <= usize::MAX / 2,
    ensures
        r@ == hex_lower_of(b@),
{
    base16ct::lower::encode_string(b)
}

/// Relies on blake3's `hash` and `Hash::to_hex`: the 64 lowercase hex digits
/// of the 32-byte BLAKE3 digest, a function of the bytes alone.
#[verifier::external_body]
fn blake3_hex(data: &[u8]) -> (r: String)
    ensures
        r@ == blake3_hex_of(data@),
        r@.len() == 64,
{
    blake3::hash(data).to_hex().as_str().to_owned()
}

/// What checking `data` against a checksum string yields.
pub open spec fn spec_check_hash(data: Seq<u8>, hash: Seq<char>) -> Result<bool, HashError> {
    if !has_colon(hash) {
        Err(HashError::Format)
    } else if algo_of(hash) == "sha256"@ {
        Ok(expected_of(hash) == hex_lower_of(sha256_of(data)))
    } else if algo_of(hash) == "blake3"@ {
        Ok(expected_of(hash) == blake3_hex_of(data))
    } else {
        Err(HashError::Unsupported)
    }
}

/// Check `data` against a checksum string `<algorithm>:<hex digest>`: split
/// on the first colon, digest with the named algorithm, compare the
/// lowercase hex strings exactly.
pub fn check_hash(data: &[u8], hash: &str) -> (r: Result<bool, HashError>)
    ensures
        r == spec_check_hash(data@, hash@),
{
    let n = hash.unicode_len();
    let mut j: usize = 0;
    while j < n
        invariant
            n == hash@.len(),
            0 <= j <= n,
            forall|k: int| 0 <= k < j ==> hash@[k] != ':',
        ensures
            0 <= j <= n,
            forall|k: int| 0 <= k < j ==> hash@[k] != ':',
            j < n ==> hash@[j as int] == ':',
        decreases n - j,
    {
        if hash.get_char(j) == ':' {
            break ;
        }
        j += 1;
    }
    if j == n {
        proof {
            assert(!has_colon(hash@)) by {
                if has_colon(hash@) {
                    let c = choose|c: int| colon_at(hash@, c);
                    assert(hash@[c] != ':');
                }
            }
        }
        return Err(HashError::Format);
    }
    proof {
        assert(colon_at(hash@, j as int));
        lemma_colon_unique(hash@, colon_idx(hash@), j as int);
    }
    let algo = hash.substring_char(0, j);
    let expected = hash.substring_char(j + 1, n);
    proof {
        assert(algo@ =~= algo_of(hash@));
        assert(expected@ =~= expected_of(hash@));
    }
    if str_eq(algo, "sha256") {
        let d = sha256_digest(data);
        let computed = hex_lower(d.as_slice());
        Ok(str_eq(expected, computed.as_str()))
    } else if str_eq(algo, "blake3") {
        let computed = blake3_hex(data);
        Ok(str_eq(expected, computed.as_str()))
    } else {
        Err(HashError::Unsupported)
    }
}

/// Law: a checksum built from the data's own SHA-256 digest verifies.
pub proof fn lemma_sha256_roundtrip(data: Seq<u8>, hash: Seq<char>)
    requires
        hash == "sha256:"@ + hex_lower_of(sha256_of(data)),
    ensures
        spec_check_hash(data, hash) == Ok::<bool, HashError>(true),
{
    reveal_strlit("sha256:");
    reveal_strlit("sha256");
    assert(colon_at(hash, 6));
    lemma_colon_unique(hash, colon_idx(hash), 6);
    assert(algo_of(hash) =~= "sha256"@);
    assert(expected_of(hash) =~= hex_lower_of(sha256_of(data)));
}

/// Law: a checksum built from the data's own BLAKE3 digest verifies.
pub proof fn lemma_blake3_roundtrip(data: Seq<u8>, hash: Seq<char>)
    requires
        hash == "blake3:"@ + blake3_hex_of(data),
    ensures
        spec_check_hash(data, hash) == Ok::<bool, HashError>(true),
{
    reveal_strlit("blake3:");
    reveal_strlit("blake3");
    reveal_strlit("sha256");
    assert(colon_at(hash, 6));
    lemma_colon_unique(hash, colon_idx(hash), 6);
    assert(algo_of(hash) =~= "blake3"@);
    assert(algo_of(hash) != "sha256"@) by {
        assert(algo_of(hash)[0] == 'b' && "sha256"@[0] == 's');
    }
    assert(expected_of(hash) =~= blake3_hex_of(data));
}

/// Law: a SHA-256 checksum of one byte string rejects data whose digest
/// differs. That distinct data have distinct digests is the hash's collision
/// resistance, taken here as a premise.
pub proof fn lemma_sha256_mismatch(data: Seq<u8>, other: Seq<u8>, hash: Seq<char>)
    requires
        hash == "sha256:"@ + hex_lower_of(sha256_of(other)),
        sha256_of(data) != sha256_of(other),
    ensures
        spec_check_hash(data, hash) == Ok::<bool, HashError>(false),
{
    reveal_strlit("sha256:");
    reveal_strlit("sha256");
    assert(colon_at(hash, 6));
    lemma_colon_unique(hash, colon_idx(hash), 6);
    assert(algo_of(hash) =~= "sha256"@);
    assert(expected_of(hash) =~= hex_lower_of(sha256_of(other)));
    if hex_lower_of(sha256_of(data)) == hex_lower_of(sha256_of(other)) {
        lemma_hex_injective(sha256_of(data), sha256_of(other));
    }
}

} // verus!
