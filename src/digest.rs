//! Message hashes and hash chains. Every record and snapshot carries the
//! SHA-256 of its canonical message and the hash of its predecessor; the first
//! one chains to the hash of the transcript label.
use vstd::prelude::*;
use vstd::string::{StrSliceExecFns, StringExecFns};
use crypto::digest::Digest;
use crypto::sha2::Sha256;

verus! {

/// The lower-case hex SHA-256 digest of the UTF-8 encoding of a string.
pub uninterp spec fn sha256_hex(s: Seq<char>) -> Seq<char>;

/// A lower-case hex digit.
pub open spec fn is_lower_hex(c: char) -> bool {
    ('0' <= c && c <= '9') || ('a' <= c && c <= 'f')
}

/// Relies on rust-crypto's `Sha256` (`input_str`, then `result_str`): the
/// lower-case hex digest of the string's UTF-8 bytes, which depends on the
/// string alone; `result_str` writes the 32 digest bytes as 64 digits of
/// `0123456789abcdef` (rustc-serialize's `to_hex`).
#[verifier::external_body]
pub fn sha256(s: &str) -> (r: String)
    ensures
        r@ == sha256_hex(s@),
        r@.len() == 64,
        forall|i: int| 0 <= i < r@.len() ==> is_lower_hex(#[trigger] r@[i]),
{
    let mut hasher = Sha256::new();
    hasher.input_str(s);
    hasher.result_str()
}

/// The zero-width space that older logs put in front of a previous hash.
pub open spec fn zwsp() -> char {
    '\u{200b}'
}

/// The position of the first zero-width space in `s`, or -1.
pub open spec fn first_zwsp(s: Seq<char>) -> int
    decreases s.len(),
{
    if s.len() == 0 {
        -1
    } else if s[0] == zwsp() {
        0
    } else if first_zwsp(s.drop_first()) >= 0 {
        first_zwsp(s.drop_first()) + 1
    } else {
        -1
    }
}

/// `s` without its first zero-width space, if it has one.
pub open spec fn strip_zwsp(s: Seq<char>) -> Seq<char> {
    let i = first_zwsp(s);
    if i >= 0 {
        s.subrange(0, i) + s.subrange(i + 1, s.len() as int)
    } else {
        s
    }
}

/// Scanning `s` up to `i` without meeting a zero-width space.
pub proof fn lemma_first_zwsp(s: Seq<char>, i: int)
    requires
        0 <= i <= s.len(),
        forall|j: int| 0 <= j < i ==> s[j] != zwsp(),
    ensures
        i < s.len() && s[i] == zwsp() ==> first_zwsp(s) == i,
        i == s.len() ==> first_zwsp(s) == -1,
    decreases i,
{
    if i > 0 {
        let t = s.drop_first();
        assert forall|j: int| 0 <= j < i - 1 implies t[j] != zwsp() by {
            assert(t[j] == s[j + 1]);
        }
        lemma_first_zwsp(t, i - 1);
    } else if s.len() > 0 {
    }
}

/// Removes the first zero-width space of a previous-hash field.
pub fn strip_zero_width_space(s: &str) -> (r: String)
    ensures
        r@ == strip_zwsp(s@),
{
    let n = s.unicode_len();
    let mut i: usize = 0;
    while i < n
        invariant
            n == s@.len(),
            i <= n,
            forall|j: int| 0 <= j < i ==> s@[j] != zwsp(),
        decreases n - i,
    {
        if s.get_char(i) == '\u{200b}' {
            proof {
                lemma_first_zwsp(s@, i as int);
            }
            let head = String::from_str(s.substring_char(0, i));
            return head.concat(s.substring_char(i + 1, n));
        }
        i = i + 1;
    }
    proof {
        lemma_first_zwsp(s@, i as int);
    }
    String::from_str(s)
}

/// A hashed and signed log entry.
pub trait Verifiable {
    /// The hex hash that the entry claims for its message.
    spec fn hash_view(&self) -> Seq<char>;

    /// The base64 signature of the hash, or empty where signing is off.
    spec fn sig_view(&self) -> Seq<char>;

    /// The canonical serialization of the entry's public message.
    spec fn msg_view(&self) -> Seq<char>;

    /// The hash of the previous entry, as the message records it.
    spec fn prev_hash_view(&self) -> Seq<char>;

    fn hash(&self) -> (r: &str)
        ensures
            r@ == self.hash_view(),
    ;

    fn sig(&self) -> (r: &str)
        ensures
            r@ == self.sig_view(),
    ;

    fn msg(&self) -> (r: String)
        ensures
            r@ == self.msg_view(),
    ;

    fn prev_hash(&self) -> (r: &str)
        ensures
            r@ == self.prev_hash_view(),
    ;
}

/// The entry's hash is the SHA-256 of its message.
pub open spec fn msg_hash_ok<V: Verifiable>(v: V) -> bool {
    v.hash_view() == sha256_hex(v.msg_view())
}

/// Entry `i` (for `i >= 1`) names the hash of entry `i - 1`'s message.
pub open spec fn chain_link_ok<V: Verifiable>(vs: Seq<V>, i: int) -> bool {
    sha256_hex(vs[i - 1].msg_view()) == strip_zwsp(vs[i].prev_hash_view())
}

/// Entry `i` names the hash of its predecessor, the first one the hash of the
/// genesis text.
pub open spec fn genesis_link_ok<V: Verifiable>(genesis: Seq<char>, vs: Seq<V>, i: int) -> bool {
    if i == 0 {
        sha256_hex(genesis) == strip_zwsp(vs[0].prev_hash_view())
    } else {
        chain_link_ok(vs, i)
    }
}

/// Whether the entry's hash is the SHA-256 of its message.
pub fn verify_msg_hash<V: Verifiable>(verifiable: &V) -> (r: bool)
    ensures
        r == msg_hash_ok(*verifiable),
{
    let digest = sha256(verifiable.msg().as_str());
    let claimed = verifiable.hash();
    let ok = String::from_str(claimed) == digest;
    ok
}

/// Checks every entry's message hash; `Err(i)` names the first entry whose
/// hash does not match.
pub fn verify_msg_hashes<V: Verifiable>(verifiables: &[V]) -> (r: Result<(), usize>)
    ensures
        r is Ok <==> forall|i: int| 0 <= i < verifiables@.len() ==> msg_hash_ok(
            #[trigger] verifiables@[i],
        ),
        r matches Err(i) ==> i < verifiables@.len() && !msg_hash_ok(verifiables@[i as int])
            && forall|j: int| 0 <= j < i ==> msg_hash_ok(#[trigger] verifiables@[j]),
{
    let mut i: usize = 0;
    while i < verifiables.len()
        invariant
            i <= verifiables@.len(),
            forall|j: int| 0 <= j < i ==> msg_hash_ok(#[trigger] verifiables@[j]),
        decreases verifiables.len() - i,
    {
        if !verify_msg_hash(&verifiables[i]) {
            return Err(i);
        }
        i = i + 1;
    }
    Ok(())
}

/// Checks that each entry after the first names the hash of its
/// predecessor's message; `Err(i)` names the first entry that does not.
pub fn verify_hash_chain<V: Verifiable>(verifiables: &[V]) -> (r: Result<(), usize>)
    ensures
        r is Ok <==> forall|i: int| 1 <= i < verifiables@.len() ==> #[trigger] chain_link_ok(
            verifiables@,
            i,
        ),
        r matches Err(i) ==> 1 <= i < verifiables@.len() && !chain_link_ok(verifiables@, i as int)
            && forall|j: int| 1 <= j < i ==> #[trigger] chain_link_ok(verifiables@, j),
{
    let mut i: usize = 1;
    while i < verifiables.len()
        invariant
            1 <= i,
            i <= verifiables@.len() || verifiables@.len() == 0,
            forall|j: int| 1 <= j < i ==> #[trigger] chain_link_ok(verifiables@, j),
        decreases verifiables.len() - i,
    {
        let plain = verifiables[i - 1].msg();
        let digest = sha256(plain.as_str());
        let linked = strip_zero_width_space(verifiables[i].prev_hash());
        if digest != linked {
            proof {
                assert(!chain_link_ok(verifiables@, i as int));
            }
            return Err(i);
        }
        i = i + 1;
    }
    Ok(())
}

/// Checks the whole chain from the genesis text: the first entry names the
/// hash of `genesis_text`, each later one the hash of its predecessor's
/// message; `Err(i)` names the first entry that does not.
pub fn verify_hash_chain_since_genesis<V: Verifiable>(genesis_text: &str, verifiables: &[V]) -> (r:
    Result<(), usize>)
    ensures
        r is Ok <==> forall|i: int| 0 <= i < verifiables@.len() ==> #[trigger] genesis_link_ok(
            genesis_text@,
            verifiables@,
            i,
        ),
        r matches Err(i) ==> i < verifiables@.len() && !genesis_link_ok(
            genesis_text@,
            verifiables@,
            i as int,
        ) && forall|j: int| 0 <= j < i ==> #[trigger] genesis_link_ok(genesis_text@, verifiables@, j),
{
    let mut i: usize = 0;
    while i < verifiables.len()
        invariant
            i <= verifiables@.len(),
            forall|j: int| 0 <= j < i ==> #[trigger] genesis_link_ok(genesis_text@, verifiables@, j),
        decreases verifiables.len() - i,
    {
        let digest = if i == 0 {
            sha256(genesis_text)
        } else {
            let plain = verifiables[i - 1].msg();
            sha256(plain.as_str())
        };
        let linked = strip_zero_width_space(verifiables[i].prev_hash());
        if digest != linked {
            proof {
                assert(!genesis_link_ok(genesis_text@, verifiables@, i as int));
            }
            return Err(i);
        }
        i = i + 1;
    }
    Ok(())
}

} // verus!
