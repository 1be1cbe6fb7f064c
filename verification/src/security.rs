//! Security primitives: string normalization, the semantic hash, and replay
//! protection.
//!
//! The semantic hash is `SHA256(normalize(intent) || "||" ||
//! normalize(context.content))` in lowercase hexadecimal, where `normalize`
//! lowercases, trims, and collapses interior whitespace runs to a single
//! space.  Hashing itself is done by the `sha2` crate behind a trusted
//! wrapper; normalization and hex encoding are verified here.

use vstd::prelude::*;

use sha2::Digest;

use crate::error::{SinpError, SinpResult};
use crate::hex;
use crate::message::Context;
use crate::time::{format_rfc3339_millis, now_millis, valid_timestamp};

verus! {

/// Default replay window in milliseconds.
pub const DEFAULT_REPLAY_WINDOW_MS: i64 = 5000;

/// What `str::to_lowercase` returns: a function of the characters alone.
pub uninterp spec fn lower_of(s: Seq<char>) -> Seq<char>;

/// Relies on `str::to_lowercase`: the result depends on the characters
/// alone.
#[verifier::external_body]
pub(crate) fn lowercase(s: &str) -> (r: String)
    ensures
        r@ == lower_of(s@),
{
    s.to_lowercase()
}

/// Whether `char::is_whitespace` holds of a character.
pub uninterp spec fn is_ws(c: char) -> bool;

/// Relies on `char::is_whitespace`: a pure predicate on the character; the
/// ASCII whitespace characters are space, tab, line feed, vertical tab,
/// form feed and carriage return, and no other ASCII character has the
/// property.
#[verifier::external_body]
fn char_is_whitespace(c: char) -> (r: bool)
    ensures
        r == is_ws(c),
        c == ' ' ==> r,
        c == '\t' ==> r,
        c == '\n' ==> r,
        c == '\r' ==> r,
{
    c.is_whitespace()
}

/// One pass of whitespace collapsing over `s` from position `i`, having
/// already produced `acc`; `pend` records that a space is owed before the
/// next word.
pub open spec fn norm_from(s: Seq<char>, i: int, acc: Seq<char>, pend: bool) -> Seq<char>
    decreases s.len() - i,
{
    if i < 0 || i >= s.len() {
        acc
    } else {
        let c = s[i];
        if is_ws(c) {
            norm_from(s, i + 1, acc, acc.len() > 0)
        } else {
            let acc2 = if pend {
                acc.push(' ').push(c)
            } else {
                acc.push(c)
            };
            norm_from(s, i + 1, acc2, false)
        }
    }
}

/// Whitespace collapsing: words of `s` joined by single spaces.
pub open spec fn norm_chars(s: Seq<char>) -> Seq<char> {
    norm_from(s, 0, Seq::empty(), false)
}

/// Normalization: lowercase, trim, and collapse interior whitespace runs to
/// a single space.
pub open spec fn spec_normalize(s: Seq<char>) -> Seq<char> {
    norm_chars(lower_of(s))
}

/// Normalize a string for hashing: lowercase, trim, collapse whitespace.
pub fn normalize(s: &str) -> (r: String)
    ensures
        r@ == spec_normalize(s@),
{
    let low = lowercase(s);
    let low_str = low.as_str();
    let n = low_str.unicode_len();
    let mut out = String::new();
    let mut pend: bool = false;
    let mut i: usize = 0;
    proof {
        reveal_strlit(" ");
    }
    while i < n
        invariant
            0 <= i <= n,
            n == low@.len(),
            low_str@ == low@,
            " "@ == seq![' '],
            pend ==> out@.len() > 0,
            norm_from(low@, i as int, out@, pend) == norm_chars(low@),
        decreases n - i,
    {
        let c = low_str.get_char(i);
        if char_is_whitespace(c) {
            if !out.as_str().is_empty() {
                pend = true;
            }
        } else {
            if pend {
                let ghost before_sep = out@;
                out.append(" ");
                proof {
                    assert(out@ =~= before_sep.push(' '));
                }
            }
            let ghost before_char = out@;
            let piece = low_str.substring_char(i, i + 1);
            out.append(piece);
            proof {
                assert(piece@ =~= seq![low@[i as int]]);
                assert(out@ =~= before_char.push(low@[i as int]));
            }
            pend = false;
        }
        i += 1;
    }
    out
}

/// What `sha2::Sha256` returns for a byte sequence: a function of the bytes
/// alone.
pub uninterp spec fn sha256_of(data: Seq<u8>) -> Seq<u8>;

/// Relies on `sha2::Sha256`: a 32-byte digest that depends on the input
/// bytes alone.
#[verifier::external_body]
fn sha256(data: &Vec<u8>) -> (r: Vec<u8>)
    ensures
        r@ == sha256_of(data@),
        r@.len() == 32,
{
    let mut hasher = sha2::Sha256::new();
    hasher.update(data.as_slice());
    let digest = hasher.finalize();
    digest.as_slice().to_vec()
}

/// The semantic hash of an intent and a context content: the SHA-256 digest
/// of `normalize(intent) || "||" || normalize(content)`, UTF-8 encoded, in
/// lowercase hexadecimal.
pub open spec fn spec_semantic_hash(intent: Seq<char>, content: Seq<char>) -> Seq<char> {
    hex::hex_of(
        sha256_of(
            vstd::utf8::encode_utf8(spec_normalize(intent) + "||"@ + spec_normalize(content)),
        ),
    )
}

/// Compute the semantic hash for caching: invariant to whitespace and case
/// noise in the intent and the context content.
pub fn semantic_hash(intent: &str, context: &Context) -> (r: String)
    ensures
        r@ == spec_semantic_hash(intent@, context.content@),
        r@.len() == 64,
{
    let mut input = normalize(intent);
    input.append("||");
    let norm_content = normalize(context.content.as_str());
    input.append(norm_content.as_str());
    let bytes = input.as_str().as_bytes_vec();
    let digest = sha256(&bytes);
    hex::encode(&digest)
}

/// Equal normalized inputs give equal semantic hashes, whatever the case or
/// whitespace noise.
pub proof fn lemma_semantic_hash_extensional(
    intent1: Seq<char>,
    content1: Seq<char>,
    intent2: Seq<char>,
    content2: Seq<char>,
)
    requires
        spec_normalize(intent1) == spec_normalize(intent2),
        spec_normalize(content1) == spec_normalize(content2),
    ensures
        spec_semantic_hash(intent1, content1) == spec_semantic_hash(intent2, content2),
{
}

/// Validate that the context's recorded semantic hash matches the one
/// computed from the intent and the context content.
pub fn validate_semantic_hash(intent: &str, context: &Context) -> (r: bool)
    ensures
        r == (spec_semantic_hash(intent@, context.content@) == context.semantic_hash@),
{
    let computed = semantic_hash(intent, context);
    crate::strutil::str_eq(computed.as_str(), context.semantic_hash.as_str())
}

/// Whether a message timestamp lies within the replay window around `now`:
/// the absolute clock difference is at most `window_ms`.
pub open spec fn within_replay_window(now_ms: i64, message_ms: i64, window_ms: i64) -> bool {
    let diff = now_ms - message_ms;
    -(window_ms as int) <= diff <= window_ms as int
}

/// Check a message timestamp against the replay window around `now_ms`.
/// A message exactly at the window edge is accepted; one millisecond
/// further out is rejected.
pub fn check_replay_at(now_ms: i64, message_ms: i64, window_ms: i64) -> (r: SinpResult<()>)
    requires
        window_ms >= 0,
    ensures
        r is Ok <==> within_replay_window(now_ms, message_ms, window_ms),
        r matches Err(e) ==> e matches SinpError::ReplayDetected { timestamp },
        (r is Err && valid_timestamp(message_ms)) ==> (r matches Err(e) && e matches
            SinpError::ReplayDetected { timestamp } && timestamp@ == crate::time::rfc3339_of(
            message_ms,
        )),
{
    let diff: i128 = now_ms as i128 - message_ms as i128;
    let abs_diff: i128 = if diff < 0 {
        -diff
    } else {
        diff
    };
    if abs_diff > window_ms as i128 {
        let stamp: String = if 0 <= message_ms && message_ms < crate::time::TS_LIMIT {
            format_rfc3339_millis(message_ms)
        } else {
            String::from_str("out-of-range timestamp")
        };
        Err(SinpError::ReplayDetected { timestamp: stamp })
    } else {
        Ok(())
    }
}

/// Check a message timestamp against the replay window around the current
/// wall clock; `None` selects the default window.  The outcome depends on
/// the clock; whatever it reads, a rejection is always a replay error.
pub fn check_replay(message_ms: i64, window_ms: Option<i64>) -> (r: SinpResult<()>)
    ensures
        r matches Err(e) ==> e matches SinpError::ReplayDetected { timestamp },
{
    let window = match window_ms {
        Some(w) => if w >= 0 {
            w
        } else {
            0
        },
        None => DEFAULT_REPLAY_WINDOW_MS,
    };
    let now = now_millis();
    check_replay_at(now, message_ms, window)
}


/// What `ed25519_dalek`'s signing returns: the 64-byte signature, a
/// function of the key and message alone.
pub uninterp spec fn ed25519_sig(key: Seq<u8>, msg: Seq<u8>) -> Seq<u8>;

/// What `ed25519_dalek` derives as the public key of a secret key.
pub uninterp spec fn ed25519_vk(key: Seq<u8>) -> Seq<u8>;

/// Whether `ed25519_dalek`'s verification accepts a (key, message,
/// signature) triple.
pub uninterp spec fn ed25519_ok(vk: Seq<u8>, msg: Seq<u8>, sig: Seq<u8>) -> bool;

/// What `base64`'s standard engine returns for a byte sequence.
pub uninterp spec fn b64_of(data: Seq<u8>) -> Seq<char>;

/// Relies on `ed25519_dalek::SigningKey::sign`: a 64-byte signature that
/// depends on the key and message bytes alone.
#[verifier::external_body]
pub fn ed25519_sign(key: &Vec<u8>, msg: &Vec<u8>) -> (r: Vec<u8>)
    requires
        key@.len() == 32,
    ensures
        r@ == ed25519_sig(key@, msg@),
        r@.len() == 64,
{
    let kb: [u8; 32] = key.as_slice().try_into().expect("key length checked");
    let sk = ed25519_dalek::SigningKey::from_bytes(&kb);
    let sig = ed25519_dalek::Signer::sign(&sk, msg.as_slice());
    sig.to_bytes().to_vec()
}

/// Relies on `ed25519_dalek::SigningKey::verifying_key`: the 32-byte public
/// key of a secret key, a function of the key bytes alone.
#[verifier::external_body]
pub fn ed25519_verifying_key(key: &Vec<u8>) -> (r: Vec<u8>)
    requires
        key@.len() == 32,
    ensures
        r@ == ed25519_vk(key@),
        r@.len() == 32,
{
    let kb: [u8; 32] = key.as_slice().try_into().expect("key length checked");
    let sk = ed25519_dalek::SigningKey::from_bytes(&kb);
    sk.verifying_key().to_bytes().to_vec()
}

/// Relies on `ed25519_dalek::VerifyingKey::verify`: acceptance depends on
/// the key, message and signature bytes alone, and a signature produced by
/// signing the message under the matching secret key is accepted.  Invalid
/// key or signature encodings are rejected.
#[verifier::external_body]
pub fn ed25519_verify(vk: &Vec<u8>, msg: &Vec<u8>, sig: &Vec<u8>) -> (r: bool)
    requires
        vk@.len() == 32,
    ensures
        r == ed25519_ok(vk@, msg@, sig@),
        forall|sk: Seq<u8>|
            sk.len() == 32 && vk@ == ed25519_vk(sk) && sig@ == ed25519_sig(sk, msg@) ==> r,
{
    let kb: [u8; 32] = match vk.as_slice().try_into() {
        Ok(kb) => kb,
        Err(_) => return false,
    };
    let vkey = match ed25519_dalek::VerifyingKey::from_bytes(&kb) {
        Ok(vkey) => vkey,
        Err(_) => return false,
    };
    let signature = match ed25519_dalek::Signature::from_slice(sig.as_slice()) {
        Ok(signature) => signature,
        Err(_) => return false,
    };
    ed25519_dalek::Verifier::verify(&vkey, msg.as_slice(), &signature).is_ok()
}

/// Relies on `base64`'s standard engine: the encoding depends on the bytes
/// alone.
#[verifier::external_body]
pub fn base64_encode(data: &Vec<u8>) -> (r: String)
    ensures
        r@ == b64_of(data@),
{
    base64::Engine::encode(&base64::engine::general_purpose::STANDARD, data.as_slice())
}

/// Relies on `base64`'s standard engine, which requires canonical padding
/// and rejects set trailing bits: decoding succeeds exactly on the
/// encodings the engine itself produces, and inverts them.
#[verifier::external_body]
pub fn base64_decode(s: &str) -> (r: Option<Vec<u8>>)
    ensures
        r is None ==> forall|b: Seq<u8>| s@ != b64_of(b),
        r matches Some(d) ==> s@ == b64_of(d@),
        r matches Some(d) ==> forall|b: Seq<u8>| s@ == b64_of(b) ==> d@ == b,
{
    base64::Engine::decode(&base64::engine::general_purpose::STANDARD, s).ok()
}

/// The bytes a request signature is computed over: the UTF-8 encoding of
/// the canonical serialization of the request with the signature field
/// removed.
pub open spec fn spec_signing_bytes(req: crate::message::RequestV) -> Seq<u8> {
    vstd::utf8::encode_utf8(crate::jsonser::ser_json(crate::msgcodec::req_jsonv(req, false)))
}

/// The signature text of a request under a secret key: the Ed25519
/// signature over the canonical signing bytes, in standard base64.
pub open spec fn spec_signature_of(req: crate::message::RequestV, sk: Seq<u8>) -> Seq<char> {
    b64_of(ed25519_sig(sk, spec_signing_bytes(req)))
}

/// Sign a request: canonicalize it with the signature field removed, sign
/// the bytes with Ed25519, and return the signature in standard base64.
pub fn sign_message(request: &crate::message::Request, signing_key: &Vec<u8>) -> (r: SinpResult<
    String,
>)
    requires
        signing_key@.len() == 32,
        crate::msgcodec::serializable_request(request@),
    ensures
        r matches Ok(sig) && sig@ == spec_signature_of(request@, signing_key@),
{
    let text = crate::msgcodec::request_signing_text(request);
    let bytes = text.as_str().as_bytes_vec();
    let sig = ed25519_sign(signing_key, &bytes);
    Ok(base64_encode(&sig))
}

/// Verify a request's signature: recompute the canonical bytes with the
/// signature field removed and check the Ed25519 signature.  A request
/// signed with the secret key matching `verifying_key` is accepted.  A
/// missing or undecodable signature reports a crypto error; a decoded
/// signature the scheme rejects reports `signature_invalid`; acceptance
/// holds exactly when the decoded signature bytes pass the scheme.
pub fn verify_signature(request: &crate::message::Request, verifying_key: &Vec<u8>) -> (r:
    SinpResult<()>)
    requires
        verifying_key@.len() == 32,
        crate::msgcodec::serializable_request(request@),
    ensures
        request.signature is None ==> (r matches Err(e) && e matches SinpError::Crypto(_)),
        (request@.signature matches Some(sig) && (exists|sk: Seq<u8>|
            sk.len() == 32 && verifying_key@ == ed25519_vk(sk) && sig == spec_signature_of(
                request@,
                sk,
            ))) ==> r is Ok,
        forall|d: Seq<u8>|
            (request@.signature matches Some(sig) && sig == #[trigger] b64_of(d)) ==> (r is Ok
                <==> ed25519_ok(verifying_key@, spec_signing_bytes(request@), d)),
        forall|d: Seq<u8>|
            (request@.signature matches Some(sig) && sig == #[trigger] b64_of(d) && !ed25519_ok(
                verifying_key@,
                spec_signing_bytes(request@),
                d,
            )) ==> r == Err::<(), SinpError>(SinpError::SignatureInvalid),
        (request@.signature matches Some(sig) && (forall|d: Seq<u8>| sig != b64_of(d))) ==> (r
            matches Err(e) && e matches SinpError::Crypto(_)),
        r is Ok ==> (request@.signature matches Some(sig) && exists|d: Seq<u8>|
            sig == b64_of(d) && ed25519_ok(verifying_key@, spec_signing_bytes(request@), d)),
{
    let signature_b64 = match &request.signature {
        Some(s) => s,
        None => {
            return Err(SinpError::Crypto(String::from_str("No signature present")));
        },
    };
    let sig_bytes = match base64_decode(signature_b64.as_str()) {
        Some(b) => b,
        None => {
            return Err(SinpError::Crypto(String::from_str("Invalid base64")));
        },
    };
    let text = crate::msgcodec::request_signing_text(request);
    let msg = text.as_str().as_bytes_vec();
    if ed25519_verify(verifying_key, &msg, &sig_bytes) {
        Ok(())
    } else {
        Err(SinpError::SignatureInvalid)
    }
}

} // verus!
