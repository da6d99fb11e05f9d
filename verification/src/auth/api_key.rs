//! API key validation against a set of SHA-256 hashes (hex encoded).

use sha2::Digest;
use vstd::hash_set::StringHashSet;
use vstd::prelude::*;

verus! {

broadcast use vstd::string::group_string_axioms;

/// What SHA-256 yields for a byte string.
pub uninterp spec fn sha256_spec(data: Seq<u8>) -> Seq<u8>;

/// The lowercase hexadecimal digit for a value below sixteen.
pub open spec fn hex_digit(v: int) -> char {
    if v < 10 {
        (('0' as int) + v) as char
    } else {
        (('a' as int) + (v - 10)) as char
    }
}

/// Lowercase hexadecimal text of a byte string, high nibble first.
pub open spec fn hex_lower(bytes: Seq<u8>) -> Seq<char>
    decreases bytes.len(),
{
    if bytes.len() == 0 {
        Seq::empty()
    } else {
        seq![hex_digit(bytes[0] as int / 16), hex_digit(bytes[0] as int % 16)] + hex_lower(
            bytes.drop_first(),
        )
    }
}

/// The stored form of an API key: the hex text of the SHA-256 of its UTF-8 bytes.
pub open spec fn key_hash(key: Seq<char>) -> Seq<char> {
    hex_lower(sha256_spec(vstd::utf8::encode_utf8(key)))
}

/// The hashes of a list of keys.
pub open spec fn hashed_keys(keys: Seq<Seq<char>>) -> Set<Seq<char>> {
    Set::new(|h: Seq<char>| exists|i: int| 0 <= i < keys.len() && h == key_hash(#[trigger] keys[i]))
}

/// Whether a key is accepted by a validator with these hashes and this auth setting.
pub open spec fn accepts(hashes: Set<Seq<char>>, require_auth: bool, key: Seq<char>) -> bool {
    !require_auth || hashes.contains(key_hash(key))
}

/// `sha2::Sha256::digest`: the 32-byte SHA-256 digest of `data`.
#[verifier::external_body]
fn sha256_digest(data: &[u8]) -> (res: Vec<u8>)
    ensures
        res@ == sha256_spec(data@),
        res@.len() == 32,
{
    sha2::Sha256::digest(data).to_vec()
}

/// `hex::encode`: lowercase hexadecimal text, two digits per byte, high nibble first.
#[verifier::external_body]
fn hex_encode(data: &[u8]) -> (res: String)
    ensures
        res@ == hex_lower(data@),
{
    hex::encode(data)
}

/// API key validator holding the hashes of the accepted keys.
pub struct ApiKeyValidator {
    valid_hashes: StringHashSet,
    require_auth: bool,
}

impl ApiKeyValidator {
    /// The set of accepted key hashes.
    pub closed spec fn hashes(&self) -> Set<Seq<char>> {
        self.valid_hashes@
    }

    /// Whether keys are checked at all.
    pub closed spec fn auth_required(&self) -> bool {
        self.require_auth
    }

    /// Whether this validator accepts `key`.
    pub open spec fn spec_accepts(&self, key: Seq<char>) -> bool {
        accepts(self.hashes(), self.auth_required(), key)
    }

    /// Hash an API key: hex text of its SHA-256 digest.
    pub fn hash_key(key: &str) -> (res: String)
        ensures
            res@ == key_hash(key@),
    {
        let bytes = key.as_bytes();
        let digest = sha256_digest(bytes);
        hex_encode(digest.as_slice())
    }

    /// Create a validator from a list of plaintext API keys.
    pub fn new(api_keys: &[String], require_auth: bool) -> (res: Self)
        ensures
            res.hashes() == hashed_keys(api_keys@.map_values(|k: String| k@)),
            res.auth_required() == require_auth,
    {
        let ghost keys = api_keys@.map_values(|k: String| k@);
        let mut valid_hashes = StringHashSet::new();
        let mut i: usize = 0;
        while i < api_keys.len()
            invariant
                i <= api_keys.len(),
                keys == api_keys@.map_values(|k: String| k@),
                valid_hashes@ == hashed_keys(keys.take(i as int)),
            decreases api_keys.len() - i,
        {
            let h = Self::hash_key(api_keys[i].as_str());
            valid_hashes.insert(h);
            proof {
                assert(keys.take(i + 1) == keys.take(i as int).push(keys[i as int]));
                assert(valid_hashes@ =~= hashed_keys(keys.take(i + 1))) by {
                    let prev = keys.take(i as int);
                    let next = keys.take(i + 1);
                    assert forall|x: Seq<char>| valid_hashes@.contains(x) implies hashed_keys(
                        next,
                    ).contains(x) by {
                        if x == key_hash(keys[i as int]) {
                            assert(next[i as int] == keys[i as int]);
                        } else {
                            let j = choose|j: int| 0 <= j < prev.len() && x == key_hash(prev[j]);
                            assert(next[j] == prev[j]);
                        }
                    }
                    assert forall|x: Seq<char>| hashed_keys(next).contains(x) implies valid_hashes@.contains(
                        x,
                    ) by {
                        let j = choose|j: int| 0 <= j < next.len() && x == key_hash(next[j]);
                        if j < i {
                            assert(prev[j] == next[j]);
                        }
                    }
                }
            }
            i = i + 1;
        }
        assert(keys.take(api_keys.len() as int) == keys);
        ApiKeyValidator { valid_hashes, require_auth }
    }

    /// Create a validator that accepts every connection.
    pub fn allow_all() -> (res: Self)
        ensures
            res.hashes() == Set::<Seq<char>>::empty(),
            !res.auth_required(),
    {
        ApiKeyValidator { valid_hashes: StringHashSet::new(), require_auth: false }
    }

    /// Validate an API key: accepted when auth is off or its hash is known.
    pub fn validate(&self, api_key: &str) -> (res: bool)
        ensures
            res == self.spec_accepts(api_key@),
    {
        if !self.require_auth {
            return true;
        }
        let hash = Self::hash_key(api_key);
        self.valid_hashes.contains(hash.as_str())
    }

    /// Validate an optional API key; a missing key passes only when auth is off.
    pub fn validate_optional(&self, api_key: Option<&str>) -> (res: bool)
        ensures
            res == match api_key {
                Some(k) => self.spec_accepts(k@),
                None => !self.auth_required(),
            },
    {
        if !self.require_auth {
            return true;
        }
        match api_key {
            Some(key) => self.validate(key),
            None => false,
        }
    }

    /// The number of distinct key hashes.
    pub fn key_count(&self) -> (res: usize)
        ensures
            res == self.hashes().len(),
    {
        self.valid_hashes.len()
    }

    /// Whether authentication is required.
    pub fn is_auth_required(&self) -> (res: bool)
        ensures
            res == self.auth_required(),
    {
        self.require_auth
    }
}

/// Every key handed to the validator at construction is accepted by it.
pub proof fn lemma_configured_key_accepted(keys: Seq<Seq<char>>, require_auth: bool, i: int)
    requires
        0 <= i < keys.len(),
    ensures
        accepts(hashed_keys(keys), require_auth, keys[i]),
{
    assert(hashed_keys(keys).contains(key_hash(keys[i])));
}

/// With authentication off, every key is accepted, whatever the stored hashes.
pub proof fn lemma_no_auth_accepts_all(hashes: Set<Seq<char>>, key: Seq<char>)
    ensures
        accepts(hashes, false, key),
{
}

/// A key whose hash is not among the configured ones is refused when auth is on.
pub proof fn lemma_unknown_key_refused(keys: Seq<Seq<char>>, key: Seq<char>)
    requires
        forall|i: int| 0 <= i < keys.len() ==> key_hash(#[trigger] keys[i]) != key_hash(key),
    ensures
        !accepts(hashed_keys(keys), true, key),
{
}

/// When no two different configured keys share a hash, the validator holds
/// one hash per distinct key: its key count is the number of distinct keys.
pub proof fn lemma_key_count_distinct_keys(keys: Seq<Seq<char>>)
    requires
        forall|i: int, j: int|
            0 <= i < keys.len() && 0 <= j < keys.len() && #[trigger] key_hash(keys[i])
                == #[trigger] key_hash(keys[j]) ==> keys[i] == keys[j],
    ensures
        hashed_keys(keys).finite(),
        hashed_keys(keys).len() == keys.to_set().len(),
{
    let ks = keys.to_set();
    let f = |k: Seq<char>| key_hash(k);
    vstd::seq_lib::seq_to_set_is_finite(keys);
    assert forall|h: Seq<char>| #[trigger] ks.map(f).contains(h) <==> hashed_keys(keys).contains(h) by {
        if ks.map(f).contains(h) {
            let k = choose|k: Seq<char>| ks.contains(k) && f(k) == h;
            assert(keys.contains(k));
            let i = choose|i: int| 0 <= i < keys.len() && keys[i] == k;
            assert(h == key_hash(keys[i]));
        }
        if hashed_keys(keys).contains(h) {
            let i = choose|i: int| 0 <= i < keys.len() && h == key_hash(#[trigger] keys[i]);
            assert(keys.contains(keys[i]));
            assert(ks.contains(keys[i]));
            assert(f(keys[i]) == h);
        }
    }
    assert(ks.map(f) =~= hashed_keys(keys));
    assert forall|a: Seq<char>, b: Seq<char>|
        ks.contains(a) && ks.contains(b) && #[trigger] f(a) == #[trigger] f(b) implies a == b by {
        assert(keys.contains(a));
        assert(keys.contains(b));
        let i = choose|i: int| 0 <= i < keys.len() && keys[i] == a;
        let j = choose|j: int| 0 <= j < keys.len() && keys[j] == b;
        assert(key_hash(keys[i]) == key_hash(keys[j]));
    }
    vstd::set_lib::lemma_map_size(ks, hashed_keys(keys), f);
}

} // verus!
