//! Shared types and signing for the RunixOS update protocol, used by the
//! on-device client and by the update server. The server never holds the
//! signing key: manifests are signed offline, and the server only selects and
//! serves the signed manifest that the client should get. The client verifies
//! the signature before it looks at anything in the manifest.
//!
//! JSON itself is read and written by the caller, who hands the functions for
//! it in.

use crate::encoding::{base64_decode, base64_encode, base64_text, law_base64_is_injective};
use crate::signing::{ed25519_public, ed25519_signature, ed25519_verifies};
pub use crate::signing::{public_key, sign_bytes, verify_bytes};
use crate::text;
use serde_json::Error as JsonError;
use std::cmp::Ordering;
use vstd::std_specs::cmp::PartialOrdSpec;
use vstd::std_specs::convert::FromSpec;
use vstd::prelude::*;
use vstd::string::*;
use vstd::utf8::*;

verus! {

/// Wire-format version, bumped on incompatible protocol changes.
pub const SCHEMA: u32 = 1;

// ---- errors ----

/// `serde_json::Error`: why a text is not the expected JSON, carried through.
#[verifier::external_type_specification]
#[verifier::external_body]
pub struct ExJsonError(JsonError);

#[derive(Debug)]
pub enum Error {
    Json(JsonError),
    BadSignature,
    BadVersion,
}

impl From<JsonError> for Error {
    fn from(e: JsonError) -> Self {
        Error::Json(e)
    }
}

impl vstd::std_specs::convert::FromSpecImpl<JsonError> for Error {
    open spec fn obeys_from_spec() -> bool {
        true
    }

    open spec fn from_spec(e: JsonError) -> Error {
        Error::Json(e)
    }
}

/// Calls `to_string` on a `serde_json::Error`. The text is the crate's own, so
/// nothing is claimed of it.
#[verifier::external_body]
fn json_error_text(e: &JsonError) -> (r: String) {
    e.to_string()
}

/// Whether `t` is a text that the JSON crate gives for an error.
pub closed spec fn is_json_text(e: JsonError, t: Seq<char>) -> bool {
    exists|s: String| #[trigger] call_ensures(json_error_text, (&e,), s) && s@ == t
}

/// Whether `t` is what is said of a JSON error: the JSON crate's text, behind
/// `json: `.
pub open spec fn is_json_message(e: JsonError, t: Seq<char>) -> bool {
    exists|inner: Seq<char>| #[trigger] is_json_text(e, inner) && t == "json: "@ + inner
}

impl Error {
    /// What the error says to a reader. The text of a JSON error is that of the
    /// JSON crate, behind `json: `.
    pub fn message(&self) -> (r: String)
        ensures
            match *self {
                Error::Json(e) => is_json_message(e, r@),
                Error::BadSignature => r@ == "bad or missing signature"@,
                Error::BadVersion => r@ == "bad version string"@,
            },
            *self matches Error::Json(e) ==> exists|inner: Seq<char>| #[trigger]
                is_json_text(e, inner) && r@ == "json: "@ + inner,
    {
        match self {
            Error::Json(e) => {
                let mut out = "json: ".to_string();
                let inner = json_error_text(e);
                out.append(inner.as_str());
                assert(is_json_text(*e, inner@));
                out
            },
            Error::BadSignature => "bad or missing signature".to_string(),
            Error::BadVersion => "bad version string".to_string(),
        }
    }
}

// ---- versions ----

/// A system or package version. Ordering is major, then minor, then patch.
#[derive(Clone, Copy, Debug, PartialEq, Eq, Ord, Structural)]
pub struct Version {
    pub major: u32,
    pub minor: u32,
    pub patch: u32,
}

/// The version that `s` writes as `MAJOR.MINOR.PATCH`.
pub open spec fn version_in(s: Seq<char>) -> Option<Version> {
    let parts = text::split_by(s, text::is_char('.'));
    if parts.len() == 3 {
        match (text::u32_in(parts[0]), text::u32_in(parts[1]), text::u32_in(parts[2])) {
            (Some(major), Some(minor), Some(patch)) => Some(Version { major, minor, patch }),
            _ => None,
        }
    } else {
        None
    }
}

impl Version {
    pub fn new(major: u32, minor: u32, patch: u32) -> (r: Self)
        ensures
            r == (Version { major, minor, patch }),
    {
        Version { major, minor, patch }
    }

    /// The version as text, `MAJOR.MINOR.PATCH`.
    pub open spec fn text(self) -> Seq<char> {
        text::dotted_text(self.major, self.minor, self.patch)
    }

    /// The version as text, `MAJOR.MINOR.PATCH`.
    pub fn to_text(&self) -> (r: String)
        ensures
            r@ == self.text(),
            r@ == text::decimal_text(self.major as nat) + seq!['.'] + text::decimal_text(
                self.minor as nat,
            ) + seq!['.'] + text::decimal_text(self.patch as nat),
    {
        let mut out = String::new();
        text::push_dotted(&mut out, self.major, self.minor, self.patch);
        assert(out@ =~= self.text());
        out
    }

    /// Whether this version comes before `other`: major first, then minor, then
    /// patch.
    pub open spec fn precedes(self, other: Self) -> bool {
        ||| self.major < other.major
        ||| self.major == other.major && self.minor < other.minor
        ||| self.major == other.major && self.minor == other.minor && self.patch < other.patch
    }

    /// Reads `MAJOR.MINOR.PATCH`: exactly three numbers with dots between them.
    pub fn parse(s: &str) -> (r: Result<Self, Error>)
        ensures
            match version_in(s@) {
                Some(v) => r == Ok::<Self, Error>(v),
                None => r == Err::<Self, Error>(Error::BadVersion),
            },
    {
        let parts = text::split_on(s, '.');
        let ghost split = text::split_by(s@, text::is_char('.'));
        assert(split == text::texts(parts@));
        assert(split.len() == parts@.len());
        if parts.len() != 3 {
            return Err(Error::BadVersion);
        }
        assert(split[0] == parts@[0]@ && split[1] == parts@[1]@ && split[2] == parts@[2]@);
        let major = text::parse_u32(parts[0].as_str());
        let minor = text::parse_u32(parts[1].as_str());
        let patch = text::parse_u32(parts[2].as_str());
        match (major, minor, patch) {
            (Some(major), Some(minor), Some(patch)) => Ok(Version { major, minor, patch }),
            _ => Err(Error::BadVersion),
        }
    }
}

impl PartialOrd for Version {
    fn partial_cmp(&self, other: &Self) -> (r: Option<Ordering>) {
        if self.major != other.major {
            if self.major < other.major {
                Some(Ordering::Less)
            } else {
                Some(Ordering::Greater)
            }
        } else if self.minor != other.minor {
            if self.minor < other.minor {
                Some(Ordering::Less)
            } else {
                Some(Ordering::Greater)
            }
        } else if self.patch < other.patch {
            Some(Ordering::Less)
        } else if self.patch == other.patch {
            Some(Ordering::Equal)
        } else {
            Some(Ordering::Greater)
        }
    }
}

impl vstd::std_specs::cmp::PartialOrdSpecImpl for Version {
    open spec fn obeys_partial_cmp_spec() -> bool {
        true
    }

    open spec fn partial_cmp_spec(&self, other: &Self) -> Option<Ordering> {
        if self.precedes(*other) {
            Some(Ordering::Less)
        } else if *self == *other {
            Some(Ordering::Equal)
        } else {
            Some(Ordering::Greater)
        }
    }
}

impl std::str::FromStr for Version {
    type Err = Error;

    /// Reads `MAJOR.MINOR.PATCH`, as [`Version::parse`] does.
    fn from_str(s: &str) -> (r: Result<Self, Error>)
        ensures
            match version_in(s@) {
                Some(v) => r == Ok::<Self, Error>(v),
                None => r == Err::<Self, Error>(Error::BadVersion),
            },
    {
        Version::parse(s)
    }
}

/// A version's text reads back as the version.
pub proof fn law_version_round_trip(v: Version)
    ensures
        version_in(v.text()) == Some(v),
{
    text::lemma_split_dotted(v.major, v.minor, v.patch);
    text::law_decimal_round_trip(v.major);
    text::law_decimal_round_trip(v.minor);
    text::law_decimal_round_trip(v.patch);
}

/// Versions are ordered by their numbers: by the major number, where those are
/// equal by the minor one, and where those are equal too by the patch number.
pub proof fn law_order_is_by_numbers(a: Version, b: Version)
    ensures
        a.major < b.major ==> a.precedes(b) && !b.precedes(a),
        a.major == b.major && a.minor < b.minor ==> a.precedes(b) && !b.precedes(a),
        a.major == b.major && a.minor == b.minor ==> (a.precedes(b) <==> a.patch < b.patch),
{
}

/// What a comparison of versions answers goes by their numbers, as integers.
pub proof fn law_comparison_is_by_numbers(a: Version, b: Version)
    ensures
        a.partial_cmp_spec(&b) == (if a.major < b.major {
            Some(Ordering::Less)
        } else if a.major > b.major {
            Some(Ordering::Greater)
        } else if a.minor < b.minor {
            Some(Ordering::Less)
        } else if a.minor > b.minor {
            Some(Ordering::Greater)
        } else if a.patch < b.patch {
            Some(Ordering::Less)
        } else if a.patch > b.patch {
            Some(Ordering::Greater)
        } else {
            Some(Ordering::Equal)
        }),
{
}

/// A version is read from exactly three numbers with dots between them, and is
/// made of them.
pub proof fn law_version_is_three_numbers(x: Seq<char>, y: Seq<char>, z: Seq<char>, v: Version)
    requires
        !x.contains('.'),
        !y.contains('.'),
        !z.contains('.'),
    ensures
        version_in(x + seq!['.'] + y + seq!['.'] + z) == Some(v) <==> text::u32_in(x) == Some(
            v.major,
        ) && text::u32_in(y) == Some(v.minor) && text::u32_in(z) == Some(v.patch),
        version_in(x) is None,
        version_in(x + seq!['.'] + y) is None,
{
    text::lemma_split_none(x, '.');
    text::lemma_split_none(y, '.');
    text::lemma_split_none(z, '.');
    text::lemma_split_first(x, y, '.');
    text::lemma_split_first(y, z, '.');
    text::lemma_split_first(x, y + seq!['.'] + z, '.');
    assert(x + seq!['.'] + (y + seq!['.'] + z) =~= x + seq!['.'] + y + seq!['.'] + z);
    assert(seq![x] + (seq![y] + seq![z]) =~= seq![x, y, z]);
    assert(seq![x] + seq![y] =~= seq![x, y]);
}

/// A text with more than two dots is no version.
pub proof fn law_fourth_part_is_no_version(
    x: Seq<char>,
    y: Seq<char>,
    z: Seq<char>,
    rest: Seq<char>,
)
    requires
        !x.contains('.'),
        !y.contains('.'),
        !z.contains('.'),
    ensures
        version_in(x + seq!['.'] + y + seq!['.'] + z + seq!['.'] + rest) is None,
{
    let t = z + seq!['.'] + rest;
    let u = y + seq!['.'] + t;
    text::lemma_split_first(z, rest, '.');
    text::lemma_split_first(y, t, '.');
    text::lemma_split_first(x, u, '.');
    text::law_split_joins_again(rest, '.');
    assert(x + seq!['.'] + u =~= x + seq!['.'] + y + seq!['.'] + z + seq!['.'] + rest);
}

/// The text of a version is its three numbers in decimal, with dots between them.
pub proof fn law_version_text(v: Version)
    ensures
        v.text() == text::decimal_text(v.major as nat) + seq!['.'] + text::decimal_text(
            v.minor as nat,
        ) + seq!['.'] + text::decimal_text(v.patch as nat),
{
}

/// Of any two versions, one comes before the other or they are the same, and
/// only one of the three holds.
pub proof fn law_versions_are_comparable(a: Version, b: Version)
    ensures
        a.precedes(b) || a == b || b.precedes(a),
        a.precedes(b) ==> a != b && !b.precedes(a),
{
}

/// A version that comes before a second one comes before all that follow it.
pub proof fn law_order_is_transitive(a: Version, b: Version, c: Version)
    requires
        a.precedes(b),
        b.precedes(c),
    ensures
        a.precedes(c),
{
}

// ---- manifests ----

/// A vendor / optional package the client should fetch (lives in /Construct,
/// independently signed, never part of the sealed /Core image).
#[derive(Clone, Debug)]
pub struct PackageEntry {
    pub name: String,
    pub channel: String,
    pub version: Version,
    /// Reference to the content-addressed chunk index in the store (R2).
    pub index: String,
    /// sha256 of the reassembled package, hex.
    pub sha256: String,
    pub size: u64,
}

/// Describes one target system release. This is the payload that gets signed.
#[derive(Clone, Debug)]
pub struct Manifest {
    pub schema: u32,
    pub channel: String,
    pub arch: String,
    /// Target system version this manifest installs.
    pub version: Version,
    /// Oldest installed version this update can be applied from. A client older
    /// than this needs a full image instead of a delta.
    pub min_source: Version,
    /// Reference to the content-addressed chunk index for the /Core image (R2).
    pub image_index: String,
    /// What the reassembled /Core image must hash to (dm-verity root hash, hex).
    pub verity_root_hash: String,
    pub size: u64,
    /// Vendor / optional packages for this device's subscribed channels.
    pub packages: Vec<PackageEntry>,
}

/// A manifest plus a detached signature over its exact serialized bytes.
#[derive(Clone, Debug)]
pub struct SignedManifest {
    /// Identifies which signing key was used (for key rotation).
    pub key_id: String,
    /// The exact JSON bytes that were signed. Kept verbatim so verification is
    /// unambiguous (no canonicalization needed).
    pub manifest_json: String,
    /// Base64 of the 64-byte Ed25519 signature over `manifest_json`.
    pub signature_b64: String,
}

impl SignedManifest {
    /// The bytes that the signature is over.
    pub open spec fn message(self) -> Seq<u8> {
        encode_utf8(self.manifest_json@)
    }

    /// Whether `sig` is the signature in the envelope.
    pub open spec fn carries(self, sig: Seq<u8>) -> bool {
        sig.len() == 64 && self.signature_b64@ == base64_text(sig)
    }

    /// Whether the envelope carries a signature that `public` accepts for the
    /// manifest's bytes.
    pub open spec fn is_authentic(self, public: Seq<u8>) -> bool {
        exists|sig: Seq<u8>| #[trigger]
            self.carries(sig) && ed25519_verifies(public, self.message(), sig)
    }

    /// Puts a manifest's JSON and a signature over it into an envelope.
    pub fn from_signature(manifest_json: String, sig: &[u8; 64], key_id: &str) -> (r: Self)
        ensures
            r.key_id@ == key_id@,
            r.manifest_json@ == manifest_json@,
            r.carries(sig@),
            r.signature_b64@ == base64_text(sig@),
    {
        SignedManifest {
            key_id: key_id.to_string(),
            manifest_json,
            signature_b64: base64_encode(sig),
        }
    }

    /// Signs a manifest's JSON, byte for byte.
    pub fn seal(manifest_json: String, secret: &[u8; 32], key_id: &str) -> (r: Self)
        ensures
            r.key_id@ == key_id@,
            r.manifest_json@ == manifest_json@,
            r.carries(ed25519_signature(secret@, r.message())),
            r.is_authentic(ed25519_public(secret@)),
            r.signature_b64@ == base64_text(
                ed25519_signature(secret@, encode_utf8(manifest_json@)),
            ),
    {
        let sig = sign_bytes(secret, manifest_json.as_str().as_bytes());
        let r = Self::from_signature(manifest_json, &sig, key_id);
        assert(r.carries(sig@) && ed25519_verifies(ed25519_public(secret@), r.message(), sig@));
        r
    }

    /// The signature in the envelope.
    pub fn signature(&self) -> (r: Result<[u8; 64], Error>)
        ensures
            match r {
                Ok(sig) => self.carries(sig@),
                Err(e) => e == Error::BadSignature && forall|sig: Seq<u8>|
                    !#[trigger] self.carries(sig),
            },
            match r {
                Ok(sig) => self.signature_b64@ == base64_text(sig@),
                Err(_) => forall|sig: Seq<u8>|
                    sig.len() == 64 ==> self.signature_b64@ != #[trigger] base64_text(sig),
            },
    {
        let bytes = match base64_decode(self.signature_b64.as_str()) {
            Ok(bytes) => bytes,
            Err(_) => {
                return Err(Error::BadSignature);
            },
        };
        if bytes.len() != 64 {
            proof {
                assert forall|sig: Seq<u8>| !#[trigger] self.carries(sig) by {
                    if self.carries(sig) {
                        law_base64_is_injective(sig, bytes@);
                    }
                }
                assert forall|sig: Seq<u8>| sig.len() == 64 implies self.signature_b64@
                    != #[trigger] base64_text(sig) by {
                    assert(!self.carries(sig));
                }
            }
            return Err(Error::BadSignature);
        }
        let mut sig = [0u8;64];
        let mut i: usize = 0;
        while i < 64
            invariant
                i <= 64,
                bytes@.len() == 64,
                forall|j: int| 0 <= j < i ==> sig@[j] == bytes@[j],
            decreases 64 - i,
        {
            sig[i] = bytes[i];
            i = i + 1;
        }
        assert(sig@ =~= bytes@);
        Ok(sig)
    }

    /// What a check of the signature lets through: the manifest's JSON where the
    /// signature was valid, and nothing otherwise.
    pub fn release(&self, valid: bool) -> (r: Result<&str, Error>)
        ensures
            match r {
                Ok(json) => valid && json@ == self.manifest_json@,
                Err(e) => !valid && e == Error::BadSignature,
            },
    {
        if valid {
            Ok(self.manifest_json.as_str())
        } else {
            Err(Error::BadSignature)
        }
    }

    /// The manifest's JSON, if the envelope is authentic.
    pub fn verified_json(&self, public: &[u8; 32]) -> (r: Result<&str, Error>)
        ensures
            match r {
                Ok(json) => self.is_authentic(public@) && json@ == self.manifest_json@,
                Err(e) => !self.is_authentic(public@) && e == Error::BadSignature,
            },
            r is Ok <==> exists|sig: Seq<u8>|
                sig.len() == 64 && self.signature_b64@ == #[trigger] base64_text(sig)
                    && ed25519_verifies(public@, encode_utf8(self.manifest_json@), sig),
    {
        let sig = match self.signature() {
            Ok(sig) => sig,
            Err(e) => {
                return Err(e);
            },
        };
        let valid = verify_bytes(public, self.manifest_json.as_str().as_bytes(), &sig);
        proof {
            if self.is_authentic(public@) {
                let other = choose|other: Seq<u8>| #[trigger]
                    self.carries(other) && ed25519_verifies(public@, self.message(), other);
                law_one_signature(*self, sig@, other);
            }
        }
        proof {
            if valid {
                assert(self.signature_b64@ == base64_text(sig@));
            } else if exists|other: Seq<u8>|
                other.len() == 64 && self.signature_b64@ == #[trigger] base64_text(other)
                    && ed25519_verifies(public@, encode_utf8(self.manifest_json@), other) {
                let other = choose|other: Seq<u8>|
                    other.len() == 64 && self.signature_b64@ == #[trigger] base64_text(other)
                        && ed25519_verifies(public@, encode_utf8(self.manifest_json@), other);
                law_base64_is_injective(sig@, other);
            }
        }
        self.release(valid)
    }

    /// Verify the signature against the given public key and return the parsed
    /// manifest. This is the only path the client uses to trust a manifest; the
    /// JSON is not read before the signature was found valid.
    pub fn verify<F: FnOnce(&str) -> Result<Manifest, JsonError>>(
        &self,
        public: &[u8; 32],
        parse: F,
    ) -> (r: Result<Manifest, Error>)
        requires
            forall|json: &str| json@ == self.manifest_json@ ==> call_requires(parse, (json,)),
        ensures
            is_verification(*self, public@, parse, r),
            !(r matches Err(Error::BadSignature)) <==> exists|sig: Seq<u8>|
                sig.len() == 64 && self.signature_b64@ == #[trigger] base64_text(sig)
                    && ed25519_verifies(public@, encode_utf8(self.manifest_json@), sig),
            match r {
                Ok(m) => exists|t: &str|
                    t@ == self.manifest_json@ && #[trigger] call_ensures(parse, (t,), Ok(m)),
                Err(Error::Json(e)) => exists|t: &str|
                    t@ == self.manifest_json@ && #[trigger] call_ensures(parse, (t,), Err(e)),
                Err(e) => e == Error::BadSignature,
            },
    {
        match self.verified_json(public) {
            Ok(json) => read_json(json, parse),
            Err(e) => Err(e),
        }
    }

    /// Read the manifest WITHOUT verifying. Only for the server's own selection
    /// logic over its trusted release store. Never use on the client.
    pub fn parse_unverified<F: FnOnce(&str) -> Result<Manifest, JsonError>>(
        &self,
        parse: F,
    ) -> (r: Result<Manifest, Error>)
        requires
            forall|json: &str| json@ == self.manifest_json@ ==> call_requires(parse, (json,)),
        ensures
            is_parse(parse, self.manifest_json@, r),
            match r {
                Ok(m) => exists|t: &str|
                    t@ == self.manifest_json@ && #[trigger] call_ensures(parse, (t,), Ok(m)),
                Err(Error::Json(e)) => exists|t: &str|
                    t@ == self.manifest_json@ && #[trigger] call_ensures(parse, (t,), Err(e)),
                Err(_) => false,
            },
    {
        read_json(self.manifest_json.as_str(), parse)
    }
}

/// Whether `r` is what comes of handing `json` to `parse`.
pub open spec fn is_parse<F: FnOnce(&str) -> Result<Manifest, JsonError>>(
    parse: F,
    json: Seq<char>,
    r: Result<Manifest, Error>,
) -> bool {
    exists|t: &str, m: Result<Manifest, JsonError>|
        t@ == json && #[trigger] call_ensures(parse, (t,), m) && match m {
            Ok(m) => r == Ok::<Manifest, Error>(m),
            Err(e) => r == Err::<Manifest, Error>(Error::Json(e)),
        }
}

/// Whether `r` is what comes of verifying `signed` against `public`: the parsed
/// manifest where the envelope is authentic, and `BadSignature` otherwise.
pub open spec fn is_verification<F: FnOnce(&str) -> Result<Manifest, JsonError>>(
    signed: SignedManifest,
    public: Seq<u8>,
    parse: F,
    r: Result<Manifest, Error>,
) -> bool {
    if signed.is_authentic(public) {
        is_parse(parse, signed.manifest_json@, r)
    } else {
        r == Err::<Manifest, Error>(Error::BadSignature)
    }
}

/// Reads a manifest with `parse`.
fn read_json<F: FnOnce(&str) -> Result<Manifest, JsonError>>(json: &str, parse: F) -> (r:
    Result<Manifest, Error>)
    requires
        call_requires(parse, (json,)),
    ensures
        is_parse(parse, json@, r),
        match r {
            Ok(m) => call_ensures(parse, (json,), Ok(m)),
            Err(Error::Json(e)) => call_ensures(parse, (json,), Err(e)),
            Err(_) => false,
        },
{
    match parse(json) {
        Ok(m) => Ok(m),
        Err(e) => Err(Error::from(e)),
    }
}

/// Whether `r` is what comes of signing the JSON that `to_json` makes of `m`.
pub open spec fn is_signing<F: FnOnce(&Manifest) -> Result<String, JsonError>>(
    m: Manifest,
    to_json: F,
    secret: Seq<u8>,
    key_id: Seq<char>,
    r: Result<SignedManifest, Error>,
) -> bool {
    exists|json: Result<String, JsonError>| #[trigger]
        call_ensures(to_json, (&m,), json) && match (json, r) {
            (Ok(json), Ok(signed)) => {
                &&& signed.key_id@ == key_id
                &&& signed.manifest_json@ == json@
                &&& signed.carries(ed25519_signature(secret, signed.message()))
                &&& signed.is_authentic(ed25519_public(secret))
            },
            (Err(e), Err(f)) => f == Error::Json(e),
            _ => false,
        }
}

impl Manifest {
    /// Sign this manifest with a 32-byte Ed25519 secret key, producing the
    /// transportable signed envelope. Done offline by the release pipeline.
    pub fn sign<F: FnOnce(&Manifest) -> Result<String, JsonError>>(
        &self,
        secret: &[u8; 32],
        key_id: &str,
        to_json: F,
    ) -> (r: Result<SignedManifest, Error>)
        requires
            call_requires(to_json, (self,)),
        ensures
            is_signing(*self, to_json, secret@, key_id@, r),
            match r {
                Ok(signed) => signed.key_id@ == key_id@ && exists|json: String| #[trigger]
                    call_ensures(to_json, (self,), Ok(json)) && signed.manifest_json@ == json@
                        && signed.signature_b64@ == base64_text(
                        ed25519_signature(secret@, encode_utf8(json@)),
                    ),
                Err(e) => e is Json && call_ensures(to_json, (self,), Err(e->Json_0)),
            },
    {
        match to_json(self) {
            Ok(json) => Ok(SignedManifest::seal(json, secret, key_id)),
            Err(e) => Err(Error::from(e)),
        }
    }
}

/// Whether `parse` gives `m` back from every JSON that `to_json` can make of it.
pub open spec fn json_round_trips<
    F: FnOnce(&Manifest) -> Result<String, JsonError>,
    G: FnOnce(&str) -> Result<Manifest, JsonError>,
>(m: Manifest, to_json: F, parse: G) -> bool {
    forall|json: String, t: &str, back: Result<Manifest, JsonError>|
        #![trigger call_ensures(to_json, (&m,), Ok(json)), call_ensures(parse, (t,), back)]
        call_ensures(to_json, (&m,), Ok(json)) && t@ == json@ && call_ensures(parse, (t,), back)
            ==> back == Ok::<Manifest, JsonError>(m)
}

/// Verifying a signed manifest against the public key of the secret that signed
/// it succeeds and gives the manifest back, and so does reading it unverified.
/// The envelope names the key as it was given.
pub proof fn law_sign_then_verify<
    F: FnOnce(&Manifest) -> Result<String, JsonError>,
    G: FnOnce(&str) -> Result<Manifest, JsonError>,
>(
    m: Manifest,
    to_json: F,
    parse: G,
    secret: Seq<u8>,
    key_id: Seq<char>,
    signed: SignedManifest,
    r: Result<Manifest, Error>,
    unverified: Result<Manifest, Error>,
)
    requires
        json_round_trips(m, to_json, parse),
        is_signing(m, to_json, secret, key_id, Ok(signed)),
        is_verification(signed, ed25519_public(secret), parse, r),
        is_parse(parse, signed.manifest_json@, unverified),
    ensures
        r == Ok::<Manifest, Error>(m),
        unverified == Ok::<Manifest, Error>(m),
        signed.key_id@ == key_id,
{
}

/// A manifest that a verification gives out was signed: the envelope carries a
/// signature over the JSON's bytes that the public key accepts.
pub proof fn law_only_authentic_manifests_pass<G: FnOnce(&str) -> Result<Manifest, JsonError>>(
    signed: SignedManifest,
    public: Seq<u8>,
    parse: G,
    m: Manifest,
)
    requires
        is_verification(signed, public, parse, Ok(m)),
    ensures
        exists|sig: Seq<u8>| #[trigger]
            signed.carries(sig) && ed25519_verifies(public, encode_utf8(signed.manifest_json@), sig),
        exists|sig: Seq<u8>|
            sig.len() == 64 && signed.signature_b64@ == #[trigger] base64_text(sig)
                && ed25519_verifies(public, encode_utf8(signed.manifest_json@), sig),
        exists|t: &str| t@ == signed.manifest_json@ && #[trigger] call_ensures(parse, (t,), Ok(m)),
{
    let sig = choose|sig: Seq<u8>| #[trigger]
        signed.carries(sig) && ed25519_verifies(public, encode_utf8(signed.manifest_json@), sig);
    assert(signed.signature_b64@ == base64_text(sig));
}

/// A signature is what an envelope carries exactly if it is 64 bytes long and the
/// envelope holds its base64; the envelope is authentic exactly if the public key
/// accepts one for all the bytes of the JSON.
pub proof fn law_what_is_authentic(signed: SignedManifest, public: Seq<u8>, sig: Seq<u8>)
    requires
        sig.len() == 64,
        signed.signature_b64@ == base64_text(sig),
    ensures
        signed.is_authentic(public) <==> ed25519_verifies(
            public,
            encode_utf8(signed.manifest_json@),
            sig,
        ),
{
    assert(signed.carries(sig));
    if signed.is_authentic(public) {
        let other = choose|other: Seq<u8>| #[trigger]
            signed.carries(other) && ed25519_verifies(public, signed.message(), other);
        law_one_signature(signed, sig, other);
    }
}

/// An envelope without the base64 of 64 bytes is not authentic.
pub proof fn law_without_signature_nothing_is_authentic(signed: SignedManifest, public: Seq<u8>)
    requires
        forall|sig: Seq<u8>| sig.len() == 64 ==> signed.signature_b64@ != #[trigger] base64_text(
            sig,
        ),
    ensures
        !signed.is_authentic(public),
{
    if signed.is_authentic(public) {
        let sig = choose|sig: Seq<u8>| #[trigger]
            signed.carries(sig) && ed25519_verifies(public, signed.message(), sig);
        assert(signed.signature_b64@ == base64_text(sig));
    }
}

/// An envelope carries at most one signature.
pub proof fn law_one_signature(signed: SignedManifest, a: Seq<u8>, b: Seq<u8>)
    requires
        signed.carries(a),
        signed.carries(b),
    ensures
        a == b,
{
    law_base64_is_injective(a, b);
}

/// Two envelopes whose signatures are over the same bytes hold the same JSON.
pub proof fn law_message_is_unambiguous(a: SignedManifest, b: SignedManifest)
    requires
        a.message() == b.message(),
    ensures
        a.manifest_json@ == b.manifest_json@,
{
    encode_utf8_decode_utf8(a.manifest_json@);
    encode_utf8_decode_utf8(b.manifest_json@);
}

// ---- check ----

/// What the client tells the server about itself.
#[derive(Clone, Debug)]
pub struct CheckRequest {
    pub schema: u32,
    pub arch: String,
    pub current: Version,
    /// Base system channel, e.g. "stable".
    pub channel: String,
    /// Subscribed vendor / optional channels.
    pub subscribed: Vec<String>,
}

/// The server's answer.
#[derive(Clone, Debug)]
pub enum CheckResponse {
    UpToDate,
    Update(SignedManifest),
}

/// Comparisons of versions answer what the order says.
pub proof fn law_comparison_obeys_the_order()
    ensures
        Version::obeys_partial_cmp_spec(),
{
}

/// A JSON error becomes the error of that kind.
pub proof fn law_json_errors_are_carried(e: JsonError)
    ensures
        <Error as FromSpec<JsonError>>::obeys_from_spec(),
        <Error as FromSpec<JsonError>>::from_spec(e) == Error::Json(e),
{
}

/// What is said of a JSON error is a text of the JSON crate behind `json: `.
pub proof fn law_json_message(e: JsonError, inner: Seq<char>)
    requires
        is_json_text(e, inner),
    ensures
        is_json_message(e, "json: "@ + inner),
        forall|t: Seq<char>| #[trigger]
            is_json_message(e, t) ==> "json: "@.is_prefix_of(t),
{
    assert forall|t: Seq<char>| #[trigger] is_json_message(e, t) implies "json: "@.is_prefix_of(
        t,
    ) by {
        let said = choose|said: Seq<char>| #[trigger] is_json_text(e, said) && t == "json: "@ + said;
        assert("json: "@ =~= t.subrange(0, "json: "@.len() as int));
    }
}

} // verus!
