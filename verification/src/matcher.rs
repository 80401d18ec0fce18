use vstd::prelude::*;
use vstd::string::StringSliceAdditionalSpecFns;
use vstd::utf8::{char_is_scalar, encode_scalar, encode_utf8};
use crate::hashes::{
    bcrypt_record_ok, bcrypt_record_valid, bcrypt_verify_bytes, bcrypt_verify_of,
    is_hex_digest_chars, is_lower_hex_char, md5_hex_bytes, md5_hex_of, sha1_hex_bytes,
    sha1_hex_of,
};

verus! {

/// How a candidate is tested against the target: by a fast unsalted digest
/// (compared to a hex digest target) or by slow salted password-hash
/// verification (against a stored bcrypt record).
#[derive(Clone, Copy, Debug, PartialEq, Eq, Structural)]
pub enum VerifyStrategy {
    FastSha1,
    FastMd5,
    SlowBcrypt,
}

/// Whether `candidate` is a plaintext that the target names, under the
/// given strategy. Pure in its arguments: no hidden state.
pub open spec fn digest_matches(
    strategy: VerifyStrategy,
    target: Seq<char>,
    candidate: Seq<u8>,
) -> bool {
    match strategy {
        VerifyStrategy::FastSha1 => sha1_hex_of(candidate) == target,
        VerifyStrategy::FastMd5 => md5_hex_of(candidate) == target,
        VerifyStrategy::SlowBcrypt => bcrypt_verify_of(candidate, target),
    }
}

/// The ASCII bytes of the digits `0`..`9` and `a`..`f`.
pub open spec fn is_lower_hex_byte(b: u8) -> bool {
    (48 <= b && b <= 57) || (97 <= b && b <= 102)
}

/// A well-formed fast-digest target: exactly `n` lowercase hex digits.
pub open spec fn is_hex_digest_bytes(t: Seq<u8>, n: nat) -> bool {
    t.len() == n && forall|i: int| 0 <= i < t.len() ==> is_lower_hex_byte(#[trigger] t[i])
}

/// A well-formed target for a strategy: the hex digest of the right width
/// for a fast digest, a parseable stored record for slow verification.
pub open spec fn target_wf(strategy: VerifyStrategy, target: Seq<char>) -> bool {
    match strategy {
        VerifyStrategy::FastSha1 => is_hex_digest_chars(target, 40),
        VerifyStrategy::FastMd5 => is_hex_digest_chars(target, 32),
        VerifyStrategy::SlowBcrypt => bcrypt_record_ok(target),
    }
}

/// Splitting off the first character of an `n`-digit hex string.
proof fn lemma_hex_chars_uncons(t: Seq<char>, n: nat)
    requires
        t.len() > 0,
        n > 0,
    ensures
        is_hex_digest_chars(t, n) == (is_lower_hex_char(t[0]) && is_hex_digest_chars(
            t.drop_first(),
            (n - 1) as nat,
        )),
{
    let rest = t.drop_first();
    if is_hex_digest_chars(t, n) {
        assert forall|i: int| 0 <= i < rest.len() implies is_lower_hex_char(#[trigger] rest[i]) by {
            assert(rest[i] == t[i + 1]);
        }
    }
    if is_lower_hex_char(t[0]) && is_hex_digest_chars(rest, (n - 1) as nat) {
        assert forall|i: int| 0 <= i < t.len() implies is_lower_hex_char(#[trigger] t[i]) by {
            if i > 0 {
                assert(t[i] == rest[i - 1]);
            }
        }
    }
}

/// Splitting off the first byte of an `n`-digit hex byte string.
proof fn lemma_hex_bytes_uncons(b: Seq<u8>, n: nat)
    requires
        b.len() > 0,
        n > 0,
    ensures
        is_hex_digest_bytes(b, n) == (is_lower_hex_byte(b[0]) && is_hex_digest_bytes(
            b.drop_first(),
            (n - 1) as nat,
        )),
{
    let rest = b.drop_first();
    if is_hex_digest_bytes(b, n) {
        assert forall|i: int| 0 <= i < rest.len() implies is_lower_hex_byte(#[trigger] rest[i]) by {
            assert(rest[i] == b[i + 1]);
        }
    }
    if is_lower_hex_byte(b[0]) && is_hex_digest_bytes(rest, (n - 1) as nat) {
        assert forall|i: int| 0 <= i < b.len() implies is_lower_hex_byte(#[trigger] b[i]) by {
            if i > 0 {
                assert(b[i] == rest[i - 1]);
            }
        }
    }
}

/// Reading "exactly `n` lowercase hex digits" off a string's characters and
/// off its UTF-8 bytes agree: a hex digit is a single ASCII byte kept as
/// is, and a character above ASCII starts with a byte outside the hex
/// range.
proof fn lemma_hex_chars_bytes(t: Seq<char>, n: nat)
    ensures
        is_hex_digest_chars(t, n) == is_hex_digest_bytes(encode_utf8(t), n),
    decreases t.len(),
{
    if t.len() == 0 {
        assert(encode_utf8(t) =~= Seq::<u8>::empty());
    } else {
        let c = t[0] as u32;
        let rest = t.drop_first();
        let head = encode_scalar(c);
        let bytes = encode_utf8(t);
        let tail = encode_utf8(rest);
        assert(bytes == head + tail);
        char_is_scalar(t[0]);
        if c <= 0x7F {
            assert(head =~= seq![((c & 0x7F) as u8)]);
            assert(c & 0x7F == c) by (bit_vector)
                requires
                    c <= 0x7F,
            ;
            assert(bytes[0] == (c as u8));
            assert(bytes.len() == 1 + tail.len());
            assert(bytes.drop_first() =~= tail);
            assert(is_lower_hex_byte(bytes[0]) == is_lower_hex_char(t[0]));
            if n == 0 {
                assert(!is_hex_digest_chars(t, n));
                assert(!is_hex_digest_bytes(bytes, n));
            } else {
                lemma_hex_chars_bytes(rest, (n - 1) as nat);
                lemma_hex_chars_uncons(t, n);
                lemma_hex_bytes_uncons(bytes, n);
            }
        } else {
            assert(!is_lower_hex_char(t[0]));
            assert(head.len() >= 1);
            assert(bytes[0] == head[0]);
            if vstd::utf8::has_width_2_encoding(c) {
                let x = ((c >> 6) & 0x1F) as u8;
                assert(head[0] == 0xC0 | x);
                assert(0xC0 | x >= 0xC0u8) by (bit_vector);
            } else if vstd::utf8::has_width_3_encoding(c) {
                let x = ((c >> 12) & 0x0F) as u8;
                assert(head[0] == 0xE0 | x);
                assert(0xE0 | x >= 0xE0u8) by (bit_vector);
            } else {
                let x = ((c >> 18) & 0x7) as u8;
                assert(head[0] == 0xF0 | x);
                assert(0xF0 | x >= 0xF0u8) by (bit_vector);
            }
            assert(!is_lower_hex_byte(bytes[0]));
            assert(bytes.len() >= 1);
            assert(!is_hex_digest_chars(t, n));
            assert(!is_hex_digest_bytes(bytes, n));
        }
    }
}

fn is_hex_digest_exec(t: &str, n: usize) -> (r: bool)
    ensures
        r == is_hex_digest_bytes(t.spec_bytes(), n as nat),
{
    let b = t.as_bytes();
    if b.len() != n {
        return false;
    }
    let mut i: usize = 0;
    while i < n
        invariant
            b@ == t.spec_bytes(),
            b@.len() == n,
            i <= n,
            forall|k: int| 0 <= k < i ==> is_lower_hex_byte(#[trigger] b@[k]),
        decreases n - i,
    {
        let c = b[i];
        if !((48 <= c && c <= 57) || (97 <= c && c <= 102)) {
            return false;
        }
        i = i + 1;
    }
    true
}

/// The pluggable match predicate: a strategy and the fixed target it
/// compares against. Immutable once built; safe to share across workers.
pub struct Verifier {
    strategy: VerifyStrategy,
    target: String,
}

impl Verifier {
    pub closed spec fn strategy(&self) -> VerifyStrategy {
        self.strategy
    }

    /// The target, as the character string it was configured with.
    pub closed spec fn target(&self) -> Seq<char> {
        self.target@
    }

    pub open spec fn wf(&self) -> bool {
        target_wf(self.strategy(), self.target())
    }

    /// Builds a verifier, rejecting a malformed target up front: a fatal
    /// configuration error, never discovered per candidate.
    pub fn new(strategy: VerifyStrategy, target: String) -> (r: Option<Verifier>)
        ensures
            match r {
                Some(v) => v.wf() && v.strategy() == strategy && v.target() == target@,
                None => !target_wf(strategy, target@),
            },
    {
        let ok = match strategy {
            VerifyStrategy::FastSha1 => {
                let r = is_hex_digest_exec(target.as_str(), 40);
                proof {
                    lemma_hex_chars_bytes(target@, 40);
                }
                r
            }
            VerifyStrategy::FastMd5 => {
                let r = is_hex_digest_exec(target.as_str(), 32);
                proof {
                    lemma_hex_chars_bytes(target@, 32);
                }
                r
            }
            VerifyStrategy::SlowBcrypt => bcrypt_record_valid(target.as_str()),
        };
        if ok {
            Some(Verifier { strategy, target })
        } else {
            None
        }
    }

    /// Tests one candidate, given as bytes. The result is a function of the
    /// candidate and the fixed target alone, so repeated calls agree and
    /// concurrent workers need no coordination.
    pub fn matches_bytes(&self, candidate: &[u8]) -> (r: bool)
        ensures
            r == digest_matches(self.strategy(), self.target(), candidate@),
    {
        match self.strategy {
            VerifyStrategy::FastSha1 => {
                let h = sha1_hex_bytes(candidate);
                h == self.target
            }
            VerifyStrategy::FastMd5 => {
                let h = md5_hex_bytes(candidate);
                h == self.target
            }
            VerifyStrategy::SlowBcrypt => bcrypt_verify_bytes(candidate, self.target.as_str()),
        }
    }

    /// Tests one candidate string.
    pub fn matches(&self, candidate: &str) -> (r: bool)
        ensures
            r == digest_matches(self.strategy(), self.target(), candidate.spec_bytes()),
    {
        self.matches_bytes(candidate.as_bytes())
    }
}

} // verus!
