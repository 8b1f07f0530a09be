//! The on-device update client, without its network and its files.
//!
//! - `check`: report the device's state, verify the manifest that comes back
//!   against the baked-in public key, and lay out the update plan.
//! - `apply`: reassemble a target image from a content-addressed chunk store,
//!   reusing the chunks of the current slot and fetching only the missing ones,
//!   and let the image through only if it has the expected hash.

use crate::chunk::{
    agrees_with, can_answer, is_reassembly, joined, law_honest_store_gives_image_back,
    law_joined_is_flattened, law_what_an_index_describes, no_collision, reassemble, seed_chunks,
    ChunkIndex, Reply, Store, SyncStats,
};
use crate::digest::{content_hash, hash_hex, law_content_hash_is_the_digest, sha256_of};
use crate::encoding::{base64_text, hex_bytes, hex_decode, hex_text, law_hex_round_trip, law_hex_text};
use crate::protocol::{
    is_parse, is_verification, CheckRequest, CheckResponse, Manifest, SignedManifest, Version,
    SCHEMA,
};
use crate::signing::ed25519_verifies;
use crate::{chunk, protocol, text};
use hex::FromHexError;
use serde_json::Error as JsonError;
use vstd::prelude::*;
use vstd::string::*;
use vstd::utf8::*;

verus! {

// ---- addresses ----

/// Whether `s` is the address of something on the network.
pub fn is_url(s: &str) -> (r: bool)
    ensures
        r == ("http://"@.is_prefix_of(s@) || "https://"@.is_prefix_of(s@)),
{
    text::starts_with(s, "http://") || text::starts_with(s, "https://")
}

/// `base` without trailing slashes, a slash, and `name`.
pub open spec fn url_under(base: Seq<char>, name: Seq<char>) -> Seq<char> {
    text::trim_end_by(base, text::is_char('/')) + "/"@ + name
}

/// `base` without trailing slashes, a slash, and `name`.
fn join_url(base: &str, name: &str) -> (r: String)
    ensures
        r@ == url_under(base@, name@),
{
    let mut out = text::trim_end_char(base, '/').to_string();
    out.append("/");
    out.append(name);
    out
}

/// Where an update server takes check requests.
pub fn check_url(server: &str) -> (r: String)
    ensures
        r@ == url_under(server@, "check"@),
{
    join_url(server, "check")
}

/// Where a chunk store on the network keeps the chunk with this hash.
pub fn chunk_url(base: &str, hash: &str) -> (r: String)
    ensures
        r@ == url_under(base@, hash@),
{
    join_url(base, hash)
}

/// However many slashes a base ends in, one slash stands between it and the name.
pub proof fn law_one_slash_joins(base: Seq<char>, slashes: nat, name: Seq<char>)
    requires
        base.len() > 0 ==> base.last() != '/',
    ensures
        url_under(base + text::repeated('/', slashes), name) == base + seq!['/'] + name,
{
    text::law_trim_end(base, '/', slashes);
    reveal_strlit("/");
    assert("/"@ =~= seq!['/']);
}

// ---- check ----

/// Why a text is not a public key.
#[derive(Debug)]
pub enum KeyError {
    NotHex(FromHexError),
    WrongLength,
}

impl KeyError {
    /// What the error says to a reader.
    pub fn message(&self) -> (r: &'static str)
        ensures
            r@ == (match *self {
                KeyError::NotHex(_) => "public key is not valid hex"@,
                KeyError::WrongLength => "public key must be 32 bytes"@,
            }),
    {
        match self {
            KeyError::NotHex(_) => "public key is not valid hex",
            KeyError::WrongLength => "public key must be 32 bytes",
        }
    }
}

/// Reads a public key: 32 bytes in hexadecimal, with white space around them.
pub fn parse_public_key(s: &str) -> (r: Result<[u8; 32], KeyError>)
    ensures
        match (r, hex_bytes(text::trimmed(s@))) {
            (Ok(key), Some(b)) => key@ == b,
            (Err(KeyError::WrongLength), Some(b)) => b.len() != 32,
            (Err(KeyError::NotHex(_)), None) => true,
            _ => false,
        },
{
    let bytes = match hex_decode(text::trim(s)) {
        Ok(bytes) => bytes,
        Err(e) => {
            return Err(KeyError::NotHex(e));
        },
    };
    if bytes.len() != 32 {
        return Err(KeyError::WrongLength);
    }
    let mut key = [0u8;32];
    let mut i: usize = 0;
    while i < 32
        invariant
            i <= 32,
            bytes@.len() == 32,
            forall|j: int| 0 <= j < i ==> key@[j] == bytes@[j],
        decreases 32 - i,
    {
        key[i] = bytes[i];
        i = i + 1;
    }
    assert(key@ =~= bytes@);
    Ok(key)
}

/// Why a check did not come to an end.
#[derive(Debug)]
pub enum CheckError {
    Key(KeyError),
    BadCurrent,
    Unverified(protocol::Error),
    NotNewer { offered: Version, current: Version },
}

impl CheckError {
    /// What the error says to a reader. What is said of an unverified manifest
    /// ends with the message of the error that stopped it.
    pub fn message(&self) -> (r: String)
        ensures
            match *self {
                CheckError::Key(KeyError::NotHex(_)) => r@ == "public key is not valid hex"@,
                CheckError::Key(KeyError::WrongLength) => r@ == "public key must be 32 bytes"@,
                CheckError::BadCurrent => r@ == "bad --current version"@,
                CheckError::Unverified(e) => {
                    let head = "manifest signature verification failed: "@;
                    match e {
                        protocol::Error::Json(e) => exists|inner: Seq<char>| #[trigger]
                            protocol::is_json_message(e, inner) && r@ == head + inner,
                        protocol::Error::BadSignature => r@ == head + "bad or missing signature"@,
                        protocol::Error::BadVersion => r@ == head + "bad version string"@,
                    }
                },
                CheckError::NotNewer { offered, current } => r@ == "server offered version "@
                    + offered.text() + " which is not newer than "@ + current.text(),
            },
    {
        match self {
            CheckError::Key(e) => e.message().to_string(),
            CheckError::BadCurrent => "bad --current version".to_string(),
            CheckError::Unverified(e) => {
                let mut out = "manifest signature verification failed: ".to_string();
                let inner = e.message();
                out.append(inner.as_str());
                out
            },
            CheckError::NotNewer { offered, current } => {
                let mut out = "server offered version ".to_string();
                out.append(offered.to_text().as_str());
                out.append(" which is not newer than ");
                out.append(current.to_text().as_str());
                out
            },
        }
    }
}

/// What the client needs for a check: the public key, and the request that tells
/// the server about the device. The key is read first.
pub fn prepare_check(
    key_text: &str,
    arch: String,
    current: &str,
    channel: String,
    subscribed: Vec<String>,
) -> (r: Result<([u8; 32], CheckRequest), CheckError>)
    ensures
        match (hex_bytes(text::trimmed(key_text@)), protocol::version_in(current@)) {
            (None, _) => r matches Err(CheckError::Key(KeyError::NotHex(_))),
            (Some(key), version) => if key.len() != 32 {
                r matches Err(CheckError::Key(KeyError::WrongLength))
            } else {
                match version {
                    Some(version) => {
                        &&& r matches Ok((public, request))
                        &&& public@ == key
                        &&& request == (CheckRequest {
                            schema: SCHEMA,
                            arch,
                            current: version,
                            channel,
                            subscribed,
                        })
                    },
                    None => r matches Err(CheckError::BadCurrent),
                }
            },
        },
{
    let public = match parse_public_key(key_text) {
        Ok(public) => public,
        Err(e) => {
            return Err(CheckError::Key(e));
        },
    };
    let current = match Version::parse(current) {
        Ok(current) => current,
        Err(_) => {
            return Err(CheckError::BadCurrent);
        },
    };
    Ok((public, CheckRequest { schema: SCHEMA, arch, current, channel, subscribed }))
}

/// The update plan, for a reader.
pub open spec fn plan_text(current: Version, key_id: Seq<char>, m: Manifest) -> Seq<char> {
    "Update available: "@ + current.text() + " -> "@ + m.version.text() + "\n  signed by:   "@
        + key_id + " (signature verified)\n  channel:     "@ + m.channel@ + " / "@ + m.arch@
        + "\n  image index: "@ + m.image_index@ + "\n  verity hash: "@ + m.verity_root_hash@
        + "\n  size:        "@ + text::decimal_text(m.size as nat)
        + " bytes\n\nNext: rum apply --index <"@ + m.image_index@
        + "> --store <store> --seed <current-slot> \\\n      --out <inactive-slot> --expect "@
        + m.verity_root_hash@
}

/// Lays out the update plan of a verified manifest. A release that is not newer
/// than the current one is refused.
pub fn print_plan(current: &Version, key_id: &str, m: &Manifest) -> (r: Result<String, CheckError>)
    ensures
        if current.precedes(m.version) {
            r matches Ok(plan) && plan@ == plan_text(*current, key_id@, *m)
        } else {
            r == Err::<String, CheckError>(
                CheckError::NotNewer { offered: m.version, current: *current },
            )
        },
        r is Ok <==> (current.major < m.version.major || (current.major == m.version.major && (current.minor
            < m.version.minor || (current.minor == m.version.minor && current.patch
            < m.version.patch)))),
        r matches Ok(plan) ==> plan@ == "Update available: "@ + current.text() + " -> "@
            + m.version.text() + "\n  signed by:   "@ + key_id@
            + " (signature verified)\n  channel:     "@ + m.channel@ + " / "@ + m.arch@
            + "\n  image index: "@ + m.image_index@ + "\n  verity hash: "@ + m.verity_root_hash@
            + "\n  size:        "@ + text::decimal_text(m.size as nat)
            + " bytes\n\nNext: rum apply --index <"@ + m.image_index@
            + "> --store <store> --seed <current-slot> \\\n      --out <inactive-slot> --expect "@
            + m.verity_root_hash@,
{
    if m.version <= *current {
        return Err(CheckError::NotNewer { offered: m.version, current: *current });
    }
    let mut out = "Update available: ".to_string();
    out.append(current.to_text().as_str());
    out.append(" -> ");
    out.append(m.version.to_text().as_str());
    out.append("\n  signed by:   ");
    out.append(key_id);
    out.append(" (signature verified)\n  channel:     ");
    out.append(m.channel.as_str());
    out.append(" / ");
    out.append(m.arch.as_str());
    out.append("\n  image index: ");
    out.append(m.image_index.as_str());
    out.append("\n  verity hash: ");
    out.append(m.verity_root_hash.as_str());
    out.append("\n  size:        ");
    text::push_decimal(&mut out, m.size);
    out.append(" bytes\n\nNext: rum apply --index <");
    out.append(m.image_index.as_str());
    out.append("> --store <store> --seed <current-slot> \\\n      --out <inactive-slot> --expect ");
    out.append(m.verity_root_hash.as_str());
    Ok(out)
}

/// Whether `r` is what comes of the verification `v` of an offered manifest: the
/// plan of a newer release, and an error otherwise.
pub open spec fn is_offer(
    v: Result<Manifest, protocol::Error>,
    current: Version,
    key_id: Seq<char>,
    r: Result<String, CheckError>,
) -> bool {
    match v {
        Ok(m) => if current.precedes(m.version) {
            r matches Ok(plan) && plan@ == plan_text(current, key_id, m)
        } else {
            r == Err::<String, CheckError>(CheckError::NotNewer { offered: m.version, current })
        },
        Err(e) => r == Err::<String, CheckError>(CheckError::Unverified(e)),
    }
}

/// Whether `r` is what the client makes of the server's answer.
pub open spec fn is_answer<F: FnOnce(&str) -> Result<Manifest, JsonError>>(
    response: CheckResponse,
    current: Version,
    public: Seq<u8>,
    parse: F,
    r: Result<String, CheckError>,
) -> bool {
    match response {
        CheckResponse::UpToDate => r matches Ok(said) && said@ == "Up to date (system "@
            + current.text() + ")."@,
        CheckResponse::Update(signed) => exists|v: Result<Manifest, protocol::Error>| #[trigger]
            is_verification(signed, public, parse, v) && is_offer(v, current, signed.key_id@, r),
    }
}

/// What the client makes of the verification of an offered manifest.
pub fn conclude_check(v: Result<Manifest, protocol::Error>, current: &Version, key_id: &str) -> (r:
    Result<String, CheckError>)
    ensures
        is_offer(v, *current, key_id@, r),
        match v {
            Ok(m) => r is Ok <==> (current.major < m.version.major || (current.major == m.version.major && (current.minor
            < m.version.minor || (current.minor == m.version.minor && current.patch
            < m.version.patch)))),
            Err(e) => r == Err::<String, CheckError>(CheckError::Unverified(e)),
        },
{
    match v {
        Ok(m) => print_plan(current, key_id, &m),
        Err(e) => Err(CheckError::Unverified(e)),
    }
}

/// What the client makes of the server's answer: it says that the system is up
/// to date, or lays out the plan of a release that is signed and newer.
pub fn check<F: FnOnce(&str) -> Result<Manifest, JsonError>>(
    response: &CheckResponse,
    current: &Version,
    public: &[u8; 32],
    parse: F,
) -> (r: Result<String, CheckError>)
    requires
        forall|json: &str| call_requires(parse, (json,)),
    ensures
        is_answer(*response, *current, public@, parse, r),
        response is UpToDate ==> (r matches Ok(said) && said@ == "Up to date (system "@
            + current.text() + ")."@),
        response matches CheckResponse::Update(signed) ==> ((r matches Err(
            CheckError::Unverified(protocol::Error::BadSignature),
        )) <==> !(exists|sig: Seq<u8>|
            sig.len() == 64 && signed.signature_b64@ == #[trigger] base64_text(sig)
                && ed25519_verifies(public@, encode_utf8(signed.manifest_json@), sig))),
        response matches CheckResponse::Update(signed) ==> (r is Ok ==> (exists|sig: Seq<u8>|
            sig.len() == 64 && signed.signature_b64@ == #[trigger] base64_text(sig)
                && ed25519_verifies(public@, encode_utf8(signed.manifest_json@), sig)) && (exists|
            t: &str,
            m: Manifest,
        |
            t@ == signed.manifest_json@ && #[trigger] call_ensures(parse, (t,), Ok(m)) && (current.major < m.version.major || (current.major == m.version.major && (current.minor
            < m.version.minor || (current.minor == m.version.minor && current.patch
            < m.version.patch)))))),
{
    match response {
        CheckResponse::UpToDate => {
            let mut out = "Up to date (system ".to_string();
            out.append(current.to_text().as_str());
            out.append(").");
            Ok(out)
        },
        CheckResponse::Update(signed) => {
            let v = signed.verify(public, parse);
            conclude_check(v, current, signed.key_id.as_str())
        },
    }
}

/// A plan comes only of a manifest that is signed, and of a newer release.
pub proof fn law_offers_are_signed_and_newer<F: FnOnce(&str) -> Result<Manifest, JsonError>>(
    signed: SignedManifest,
    current: Version,
    public: Seq<u8>,
    parse: F,
    plan: String,
)
    requires
        is_answer(CheckResponse::Update(signed), current, public, parse, Ok(plan)),
    ensures
        signed.is_authentic(public),
        exists|m: Manifest| #[trigger]
            is_parse(parse, signed.manifest_json@, Ok(m)) && current.precedes(m.version) && plan@
                == plan_text(current, signed.key_id@, m),
{
    let r = Ok::<String, CheckError>(plan);
    let v = choose|v: Result<Manifest, protocol::Error>| #[trigger]
        is_verification(signed, public, parse, v) && is_offer(v, current, signed.key_id@, r);
    assert(is_parse(parse, signed.manifest_json@, Ok(v->Ok_0)));
}

/// What the client makes of an answer: a system that is up to date is said to be
/// so; a manifest that is not signed is refused as such; of one that is, its parse
/// decides: the plan of a newer release, a refusal of any other, or the error.
pub proof fn law_answers<F: FnOnce(&str) -> Result<Manifest, JsonError>>(
    response: CheckResponse,
    current: Version,
    public: Seq<u8>,
    parse: F,
    r: Result<String, CheckError>,
)
    requires
        is_answer(response, current, public, parse, r),
    ensures
        response is UpToDate ==> (r matches Ok(said) && said@ == "Up to date (system "@
            + current.text() + ")."@),
        response matches CheckResponse::Update(signed) ==> if signed.is_authentic(public) {
            exists|t: &str, m: Result<Manifest, JsonError>|
                t@ == signed.manifest_json@ && #[trigger] call_ensures(parse, (t,), m) && match m {
                    Ok(m) => if current.major < m.version.major || (current.major
                        == m.version.major && (current.minor < m.version.minor || (current.minor
                        == m.version.minor && current.patch < m.version.patch))) {
                        r matches Ok(plan) && plan@ == plan_text(current, signed.key_id@, m)
                    } else {
                        r == Err::<String, CheckError>(
                            CheckError::NotNewer { offered: m.version, current },
                        )
                    },
                    Err(e) => r == Err::<String, CheckError>(
                        CheckError::Unverified(protocol::Error::Json(e)),
                    ),
                }
        } else {
            r == Err::<String, CheckError>(CheckError::Unverified(protocol::Error::BadSignature))
        },
{
    if let CheckResponse::Update(signed) = response {
        let v = choose|v: Result<Manifest, protocol::Error>| #[trigger]
            is_verification(signed, public, parse, v) && is_offer(v, current, signed.key_id@, r);
        if signed.is_authentic(public) {
            assert(is_parse(parse, signed.manifest_json@, v));
        }
    }
}

/// What comes of an offer goes by the numbers of the versions: the plan is laid
/// out exactly if the offered release is the later one.
pub proof fn law_offer_goes_by_numbers(
    m: Manifest,
    current: Version,
    key_id: Seq<char>,
    r: Result<String, CheckError>,
)
    requires
        is_offer(Ok(m), current, key_id, r),
    ensures
        r is Ok <==> (current.major < m.version.major || (current.major == m.version.major && (current.minor
            < m.version.minor || (current.minor == m.version.minor && current.patch
            < m.version.patch)))),
        r matches Ok(plan) ==> plan@ == plan_text(current, key_id, m),
        r is Err ==> r->Err_0 == (CheckError::NotNewer { offered: m.version, current }),
{
}

/// A public key that is written in hexadecimal, with white space around it or
/// not, reads back as the key.
pub proof fn law_public_key_round_trip(w: Seq<char>, key: Seq<u8>, v: Seq<char>)
    requires
        key.len() == 32,
        forall|i: int| 0 <= i < w.len() ==> text::is_white(#[trigger] w[i]),
        forall|i: int| 0 <= i < v.len() ==> text::is_white(#[trigger] v[i]),
    ensures
        hex_bytes(text::trimmed(w + hex_text(key) + v)) == Some(key),
{
    let t = hex_text(key);
    law_hex_text(key, 0);
    law_hex_text(key, 31);
    assert('0' <= t[0] <= '9' || 'a' <= t[0] <= 'f');
    assert('0' <= t[63] <= '9' || 'a' <= t[63] <= 'f');
    assert(t.last() == t[63]);
    text::law_trimmed(w, t, v);
    law_hex_round_trip(key);
}

// ---- apply ----

/// Why an image was not applied.
#[derive(Debug)]
pub enum ApplyError {
    Reassembly(chunk::Error),
    HashMismatch { got: String, expected: String },
}

impl ApplyError {
    /// What the error says to a reader.
    pub fn message(&self) -> (r: String)
        ensures
            match *self {
                ApplyError::Reassembly(e) => {
                    let head = "reassembly failed: "@;
                    match e@ {
                        chunk::ErrorView::Io(e) => exists|inner: Seq<char>| #[trigger]
                            chunk::is_io_message(e, inner) && r@ == head + inner,
                        chunk::ErrorView::NotFound(h) => r@ == head
                            + ("chunk not found in store: "@ + h),
                        chunk::ErrorView::HashMismatch(h) => r@ == head
                            + ("chunk hash mismatch: "@ + h),
                        chunk::ErrorView::LenMismatch(h) => r@ == head
                            + ("chunk length mismatch: "@ + h),
                    }
                },
                ApplyError::HashMismatch { got, expected } => r@ == "image hash mismatch: got "@
                    + got@ + ", expected "@ + expected@ + " (refusing to write)"@,
            },
    {
        match self {
            ApplyError::Reassembly(e) => {
                let mut out = "reassembly failed: ".to_string();
                let inner = e.message();
                out.append(inner.as_str());
                out
            },
            ApplyError::HashMismatch { got, expected } => {
                let mut out = "image hash mismatch: got ".to_string();
                out.append(got.as_str());
                out.append(", expected ");
                out.append(expected.as_str());
                out.append(" (refusing to write)");
                out
            },
        }
    }
}

/// What is said before an image is applied.
pub fn describe_apply(index: &ChunkIndex, seed: Option<&str>) -> (r: String)
    ensures
        r@ == "Applying: "@ + text::decimal_text(index.chunks@.len()) + " chunks ("@
            + text::decimal_text(chunk::hashes_of(index.chunks@).to_set().len()) + " unique), "@
            + text::decimal_text(index.total_len as nat) + " bytes, seed: "@ + (match seed {
            Some(name) => name@,
            None => "none"@,
        }),
{
    let mut out = "Applying: ".to_string();
    text::push_decimal(&mut out, index.chunks.len() as u64);
    out.append(" chunks (");
    text::push_decimal(&mut out, index.unique() as u64);
    out.append(" unique), ");
    text::push_decimal(&mut out, index.total_len);
    out.append(" bytes, seed: ");
    match seed {
        Some(name) => out.append(name),
        None => out.append("none"),
    }
    out
}

/// What is said after an image was written to `out`.
pub fn describe_applied(target: &str, stats: &SyncStats) -> (r: String)
    ensures
        r@ == "Verified and wrote "@ + target@ + "\n  reused "@ + text::decimal_text(
            stats.reused as nat,
        ) + " chunks, fetched "@ + text::decimal_text(stats.fetched as nat) + " ("@
            + text::decimal_text(stats.bytes_fetched as nat) + " bytes) - hash OK"@,
{
    let mut out = "Verified and wrote ".to_string();
    out.append(target);
    out.append("\n  reused ");
    text::push_decimal(&mut out, stats.reused as u64);
    out.append(" chunks, fetched ");
    text::push_decimal(&mut out, stats.fetched as u64);
    out.append(" (");
    text::push_decimal(&mut out, stats.bytes_fetched);
    out.append(" bytes) - hash OK");
    out
}

/// An image with its statistics, or why there is none.
pub type Applied = Result<(Vec<u8>, SyncStats), ApplyError>;

/// Whether `r` is what comes of a reassembled image whose hash is `got`: the
/// image where the hash is the expected one, and a refusal otherwise.
pub open spec fn is_accepted(
    image: (Vec<u8>, SyncStats),
    got: Seq<char>,
    expect: Seq<char>,
    r: Applied,
) -> bool {
    if got == expect {
        r == Ok::<(Vec<u8>, SyncStats), ApplyError>(image)
    } else {
        r matches Err(ApplyError::HashMismatch { got: g, expected: e }) && g@ == got && e@ == expect
    }
}

/// Lets a reassembled image through if its hash is the expected one.
pub fn accept_image(image: (Vec<u8>, SyncStats), got: String, expect: &str) -> (r: Applied)
    ensures
        is_accepted(image, got@, expect@, r),
        r is Ok <==> got@ == expect@,
        r matches Ok(out) ==> out == image,
        r matches Err(e) ==> e is HashMismatch && e->got@ == got@ && e->expected@ == expect@,
{
    if text::same_text(got.as_str(), expect) {
        Ok(image)
    } else {
        Err(ApplyError::HashMismatch { got, expected: expect.to_string() })
    }
}

/// Whether `r` is what comes of the reassembly `a` when the image must have the
/// hash `expect`.
pub open spec fn is_applied(
    a: Result<(Vec<u8>, SyncStats), chunk::Error>,
    expect: Seq<char>,
    r: Applied,
) -> bool {
    match a {
        Ok(image) => is_accepted(image, content_hash(image.0@), expect, r),
        Err(e) => r == Err::<(Vec<u8>, SyncStats), ApplyError>(ApplyError::Reassembly(e)),
    }
}

/// Whether `r` is what comes of applying `index` when the store answers with
/// `replies` where it is asked.
pub open spec fn is_application<S: Store + ?Sized>(
    index: ChunkIndex,
    store: &S,
    seed: Option<&[u8]>,
    replies: Seq<Reply>,
    expect: Seq<char>,
    r: Applied,
) -> bool {
    exists|a: Result<(Vec<u8>, SyncStats), chunk::Error>| #[trigger]
        is_reassembly(index, store, seed_chunks(seed), replies, a) && is_applied(a, expect, r)
}

/// Reassembles a target image from a chunk store, reusing the chunks of the seed,
/// and lets it through only if its sha256 (hex) is `expect`. In production this
/// is the signed verity hash.
pub fn apply<S: Store + ?Sized>(
    index: &ChunkIndex,
    store: &S,
    seed: Option<&[u8]>,
    expect: &str,
) -> (r: Applied)
    ensures
        exists|replies: Seq<Reply>| #[trigger]
            is_application(*index, store, seed, replies, expect@, r),
        r matches Ok((out, stats)) ==> {
            &&& hex_text(sha256_of(out@)) == expect@
            &&& out@.len() == index.total_len
            &&& stats.reused + stats.fetched == index.chunks@.len()
            &&& exists|pieces: Seq<Seq<u8>>|
                {
                    &&& out@ == #[trigger] pieces.flatten()
                    &&& pieces.len() == index.chunks@.len()
                    &&& forall|i: int|
                        0 <= i < pieces.len() ==> (#[trigger] pieces[i]).len()
                            == index.chunks@[i].len && hex_text(sha256_of(pieces[i]))
                            == index.chunks@[i].hash@
                }
        },
        r matches Err(ApplyError::HashMismatch { got, expected }) ==> {
            &&& expected@ == expect@
            &&& got@ != expect@
            &&& exists|image: Seq<u8>| got@ == hex_text(#[trigger] sha256_of(image)) && image.len()
                == index.total_len
        },
{
    let a = reassemble(index, store, seed);
    let ghost made = a;
    let ghost replies = choose|replies: Seq<Reply>| #[trigger]
        is_reassembly(*index, store, seed_chunks(seed), replies, made);
    let r = match a {
        Ok(image) => {
            let got = hash_hex(image.0.as_slice());
            accept_image(image, got, expect)
        },
        Err(e) => Err(ApplyError::Reassembly(e)),
    };
    assert(is_applied(made, expect@, r));
    assert(is_application(*index, store, seed, replies, expect@, r));
    r
}

/// An image that is let through has the expected hash.
pub proof fn law_only_expected_image_is_applied<S: Store + ?Sized>(
    index: ChunkIndex,
    store: &S,
    seed: Option<&[u8]>,
    replies: Seq<Reply>,
    expect: Seq<char>,
    image: (Vec<u8>, SyncStats),
)
    requires
        is_application(index, store, seed, replies, expect, Ok(image)),
    ensures
        content_hash(image.0@) == expect,
        hex_text(sha256_of(image.0@)) == expect,
{
}

/// A reassembled image is let through exactly if the SHA-256 digest of all of it,
/// in hexadecimal, is the expected text. It is let through as it is.
pub proof fn law_image_passes_by_its_digest(
    image: (Vec<u8>, SyncStats),
    expect: Seq<char>,
    r: Applied,
)
    requires
        is_applied(Ok(image), expect, r),
    ensures
        r is Ok <==> hex_text(sha256_of(image.0@)) == expect,
        r matches Ok(out) ==> out == image,
        r matches Err(e) ==> e is HashMismatch && e->got@ == hex_text(sha256_of(image.0@))
            && e->expected@ == expect,
{
    law_content_hash_is_the_digest(image.0@);
}

/// Where the store answers each hash with the piece of that digest, the seed holds
/// no other piece under it, and the expected text is the digest of the whole, the
/// whole is let through.
pub proof fn law_right_image_is_let_through<S: Store + ?Sized>(
    index: ChunkIndex,
    store: &S,
    seed: Option<&[u8]>,
    pieces: Seq<Seq<u8>>,
    replies: Seq<Reply>,
    r: Applied,
)
    requires
        index.chunks@.len() == pieces.len(),
        index.total_len == pieces.flatten().len(),
        forall|i: int|
            0 <= i < pieces.len() ==> index.chunks@[i].hash@ == hex_text(
                sha256_of(#[trigger] pieces[i]),
            ) && index.chunks@[i].len == pieces[i].len(),
        forall|i: int, j: int|
            0 <= i < pieces.len() && 0 <= j < pieces.len() && sha256_of(#[trigger] pieces[i])
                == sha256_of(#[trigger] pieces[j]) ==> pieces[i] == pieces[j],
        forall|i: int|
            0 <= i < pieces.len() && seed_chunks(seed).contains_key(
                hex_text(sha256_of(#[trigger] pieces[i])),
            ) ==> seed_chunks(seed)[hex_text(sha256_of(pieces[i]))] == pieces[i],
        forall|i: int, reply: Reply|
            0 <= i < pieces.len() && #[trigger] can_answer(
                store,
                hex_text(sha256_of(pieces[i])),
                reply,
            ) ==> (reply matches Ok(b) && b@ == pieces[i]),
        is_application(index, store, seed, replies, hex_text(sha256_of(pieces.flatten())), r),
    ensures
        r matches Ok((out, _)) && out@ == pieces.flatten(),
{
    law_what_an_index_describes(index, pieces);
    law_joined_is_flattened(pieces);
    law_content_hash_is_the_digest(joined(pieces));
    assert(no_collision(pieces)) by {
        assert forall|i: int, j: int|
            0 <= i < pieces.len() && 0 <= j < pieces.len() && content_hash(#[trigger] pieces[i])
                == content_hash(#[trigger] pieces[j]) implies pieces[i] == pieces[j] by {
            law_content_hash_is_the_digest(pieces[i]);
            law_content_hash_is_the_digest(pieces[j]);
        }
    }
    assert forall|i: int, reply: Reply|
        0 <= i < pieces.len() && #[trigger] can_answer(
            store,
            content_hash(pieces[i]),
            reply,
        ) implies (reply matches Ok(b) && b@ == pieces[i]) by {
        law_content_hash_is_the_digest(pieces[i]);
        assert(can_answer(store, hex_text(sha256_of(pieces[i])), reply));
    }
    assert(agrees_with(seed_chunks(seed), pieces)) by {
        assert forall|i: int|
            0 <= i < pieces.len() && seed_chunks(seed).contains_key(
                content_hash(#[trigger] pieces[i]),
            ) implies seed_chunks(seed)[content_hash(pieces[i])] == pieces[i] by {
            law_content_hash_is_the_digest(pieces[i]);
        }
    }
    law_honest_store_gives_expected_image(index, store, seed, pieces, replies, r);
}

/// Where the store answers honestly and the expected hash is that of the image
/// that the index describes, that image is let through.
pub proof fn law_honest_store_gives_expected_image<S: Store + ?Sized>(
    index: ChunkIndex,
    store: &S,
    seed: Option<&[u8]>,
    pieces: Seq<Seq<u8>>,
    replies: Seq<Reply>,
    r: Applied,
)
    requires
        index.describes(pieces),
        no_collision(pieces),
        agrees_with(seed_chunks(seed), pieces),
        forall|i: int, reply: Reply|
            0 <= i < pieces.len() && #[trigger] can_answer(
                store,
                content_hash(pieces[i]),
                reply,
            ) ==> (reply matches Ok(b) && b@ == pieces[i]),
        is_application(index, store, seed, replies, content_hash(joined(pieces)), r),
    ensures
        r matches Ok((out, _)) && out@ == joined(pieces),
{
    let expect = content_hash(joined(pieces));
    let a = choose|a: Result<(Vec<u8>, SyncStats), chunk::Error>| #[trigger]
        is_reassembly(index, store, seed_chunks(seed), replies, a) && is_applied(a, expect, r);
    law_honest_store_gives_image_back(index, store, seed_chunks(seed), pieces, a);
}

} // verus!
