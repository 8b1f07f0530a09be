use runix_update::protocol::{
    public_key, sign_bytes, verify_bytes, CheckRequest, CheckResponse, Error, Manifest,
    PackageEntry, SignedManifest, Version, SCHEMA,
};
use serde::de::Error as DeError;
use serde_json::Value;

fn sample_manifest() -> Manifest {
    Manifest {
        schema: SCHEMA,
        channel: "stable".into(),
        arch: "x86_64".into(),
        version: Version::new(26, 3, 0),
        min_source: Version::new(26, 2, 0),
        image_index: "core/26.3.0.caibx".into(),
        verity_root_hash: "deadbeef".into(),
        size: 1024,
        packages: vec![],
    }
}

fn version_value(v: &Version) -> Value {
    let mut m = serde_json::Map::new();
    m.insert("major".into(), Value::from(v.major));
    m.insert("minor".into(), Value::from(v.minor));
    m.insert("patch".into(), Value::from(v.patch));
    Value::Object(m)
}

fn to_json(m: &Manifest) -> Result<String, serde_json::Error> {
    let mut o = serde_json::Map::new();
    o.insert("schema".into(), Value::from(m.schema));
    o.insert("channel".into(), Value::from(m.channel.as_str()));
    o.insert("arch".into(), Value::from(m.arch.as_str()));
    o.insert("version".into(), version_value(&m.version));
    o.insert("min_source".into(), version_value(&m.min_source));
    o.insert("image_index".into(), Value::from(m.image_index.as_str()));
    o.insert("verity_root_hash".into(), Value::from(m.verity_root_hash.as_str()));
    o.insert("size".into(), Value::from(m.size));
    o.insert("packages".into(), Value::Array(vec![]));
    serde_json::to_string(&Value::Object(o))
}

fn number(v: &Value, key: &str) -> Result<u64, serde_json::Error> {
    v[key].as_u64().ok_or_else(|| serde_json::Error::custom(format!("missing field {key}")))
}

fn string(v: &Value, key: &str) -> Result<String, serde_json::Error> {
    v[key]
        .as_str()
        .map(String::from)
        .ok_or_else(|| serde_json::Error::custom(format!("missing field {key}")))
}

fn version(v: &Value) -> Result<Version, serde_json::Error> {
    Ok(Version::new(
        number(v, "major")? as u32,
        number(v, "minor")? as u32,
        number(v, "patch")? as u32,
    ))
}

fn parse(json: &str) -> Result<Manifest, serde_json::Error> {
    let v: Value = serde_json::from_str(json)?;
    Ok(Manifest {
        schema: number(&v, "schema")? as u32,
        channel: string(&v, "channel")?,
        arch: string(&v, "arch")?,
        version: version(&v["version"])?,
        min_source: version(&v["min_source"])?,
        image_index: string(&v, "image_index")?,
        verity_root_hash: string(&v, "verity_root_hash")?,
        size: number(&v, "size")?,
        packages: vec![],
    })
}

fn unhex(s: &str) -> Vec<u8> {
    hex::decode(s).unwrap()
}

#[test]
fn sign_then_verify_roundtrips() {
    let secret = [7u8; 32];
    let public = public_key(&secret);
    let signed = sample_manifest().sign(&secret, "dev-1", to_json).unwrap();
    let got = signed.verify(&public, parse).unwrap();
    assert_eq!(got.version, Version::new(26, 3, 0));
}

#[test]
fn wrong_key_is_rejected() {
    let signed = sample_manifest().sign(&[7u8; 32], "dev-1", to_json).unwrap();
    let other_public = public_key(&[9u8; 32]);
    assert!(matches!(signed.verify(&other_public, parse), Err(Error::BadSignature)));
}

#[test]
fn tampered_manifest_is_rejected() {
    let secret = [7u8; 32];
    let public = public_key(&secret);
    let mut signed = sample_manifest().sign(&secret, "dev-1", to_json).unwrap();
    // Flip the version in the signed bytes; signature must no longer match.
    signed.manifest_json = signed.manifest_json.replace("26", "27");
    assert!(matches!(signed.verify(&public, parse), Err(Error::BadSignature)));
}

#[test]
fn signing_keeps_every_field() {
    let secret = [7u8; 32];
    let m = sample_manifest();
    let signed = m.sign(&secret, "dev-1", to_json).unwrap();
    assert_eq!(signed.key_id, "dev-1");
    let verified = signed.verify(&public_key(&secret), parse).unwrap();
    let unverified = signed.parse_unverified(parse).unwrap();
    for got in [verified, unverified] {
        assert_eq!(format!("{got:?}"), format!("{m:?}"));
    }
}

#[test]
fn version_ordering() {
    assert!(Version::new(26, 3, 0) > Version::new(26, 2, 9));
    assert!(Version::new(27, 0, 0) > Version::new(26, 9, 9));
    assert_eq!("26.3.1".parse::<Version>().unwrap(), Version::new(26, 3, 1));
    assert!("26.3".parse::<Version>().is_err());
}

#[test]
fn versions_are_read_strictly() {
    for s in ["", "1", "1.2", "1.2.3.4", "1..3", "a.b.c", "1.2.x", "1.2.-3", "1.2.4294967296", "1.2.3."] {
        assert!(matches!(Version::parse(s), Err(Error::BadVersion)), "{s:?}");
    }
    assert_eq!(Version::parse("+1.02.4294967295").unwrap(), Version::new(1, 2, 4294967295));
}

#[test]
fn version_text_reads_back() {
    for v in [Version::new(0, 0, 0), Version::new(26, 3, 10), Version::new(u32::MAX, 0, u32::MAX)] {
        assert_eq!(Version::parse(&v.to_text()).unwrap(), v);
    }
    assert_eq!(Version::new(26, 3, 10).to_text(), "26.3.10");
}

#[test]
fn partial_order_is_the_total_order() {
    let all = [
        Version::new(1, 0, 0),
        Version::new(1, 0, 5),
        Version::new(1, 2, 0),
        Version::new(1, 2, 9),
        Version::new(2, 0, 0),
    ];
    for (i, a) in all.iter().enumerate() {
        for (j, b) in all.iter().enumerate() {
            assert_eq!(a.partial_cmp(b), Some(i.cmp(&j)));
            assert_eq!(a.cmp(b), i.cmp(&j));
        }
    }
}

#[test]
fn signatures_are_those_of_ed25519() {
    let secret: [u8; 32] =
        unhex("9d61b19deffd5a60ba844af492ec2cc44449c5697b326919703bac031cae7f60").try_into().unwrap();
    let public = public_key(&secret);
    assert_eq!(
        public.to_vec(),
        unhex("d75a980182b10ab7d54bfed3c964073a0ee172f3daa62325af021a68f707511a")
    );
    let sig = sign_bytes(&secret, b"");
    assert_eq!(
        sig.to_vec(),
        unhex(
            "e5564300c360ac729086e2cc806e828a84877f1eb8e5d974d873e065224901555fb8821590a33bacc61e39701cf9b46bd25bf5f0595bbe24655141438e7a100b"
        )
    );
    assert!(verify_bytes(&public, b"", &sig));
    assert!(!verify_bytes(&public, b"x", &sig));
    let mut bad = sig;
    bad[0] ^= 1;
    assert!(!verify_bytes(&public, b"", &bad));
}

#[test]
fn bytes_that_are_no_key_verify_nothing() {
    let secret = [7u8; 32];
    let sig = sign_bytes(&secret, b"m");
    let mut none = [0u8; 32];
    none[0] = 2;
    assert!(!verify_bytes(&none, b"m", &sig));
}

#[test]
fn envelope_holds_the_signature_in_base64() {
    let signed = SignedManifest::from_signature("{}".to_string(), &[0xff; 64], "k");
    assert_eq!(signed.key_id, "k");
    assert_eq!(signed.manifest_json, "{}");
    assert_eq!(signed.signature_b64, format!("{}w==", "/".repeat(85)));
    assert_eq!(signed.signature().unwrap(), [0xff; 64]);
    let mut sig = [0u8; 64];
    sig[0..3].copy_from_slice(b"Man");
    let signed = SignedManifest::from_signature("{}".to_string(), &sig, "k");
    assert_eq!(signed.signature_b64, format!("TWFu{}==", "A".repeat(82)));
    assert_eq!(signed.signature().unwrap(), sig);
}

#[test]
fn only_canonical_base64_of_64_bytes_is_a_signature() {
    let with = |text: String| SignedManifest {
        key_id: "k".into(),
        manifest_json: "{}".into(),
        signature_b64: text,
    };
    let zeros = "A".repeat(86);
    assert_eq!(with(format!("{zeros}==")).signature().unwrap(), [0u8; 64]);
    for text in [
        String::new(),
        "AAAA".to_string(),
        zeros.clone(),
        format!("{zeros}="),
        format!("{zeros}==="),
        format!(" {zeros}=="),
        format!("{}B==", "A".repeat(85)),
        format!("{}-==", "A".repeat(85)),
        format!("{}=", "A".repeat(87)),
        "A".repeat(88),
        "\u{e9}".to_string(),
    ] {
        assert!(matches!(with(text.clone()).signature(), Err(Error::BadSignature)), "{text:?}");
    }
}

#[test]
fn seal_and_verified_json_roundtrip() {
    let secret = [3u8; 32];
    let json = "{\"text\": \"\u{e9}\u{20ac}\"}".to_string();
    let signed = SignedManifest::seal(json.clone(), &secret, "k");
    assert_eq!(signed.verified_json(&public_key(&secret)).unwrap(), json);
    assert!(matches!(signed.verified_json(&[1u8; 32]), Err(Error::BadSignature)));
    let other = SignedManifest { manifest_json: format!("{json} "), ..signed };
    assert!(matches!(other.verified_json(&public_key(&secret)), Err(Error::BadSignature)));
}

#[test]
fn release_follows_the_check() {
    let signed = SignedManifest::from_signature("{}".to_string(), &[0; 64], "k");
    assert_eq!(signed.release(true).unwrap(), "{}");
    assert!(matches!(signed.release(false), Err(Error::BadSignature)));
}

#[test]
fn json_is_not_read_before_the_signature_is_valid() {
    let signed = SignedManifest::seal("not json".to_string(), &[3u8; 32], "k");
    let refused = signed.verify(&public_key(&[4u8; 32]), |_| panic!("read"));
    assert!(matches!(refused, Err(Error::BadSignature)));
    let read = signed.verify(&public_key(&[3u8; 32]), parse);
    assert!(matches!(read, Err(Error::Json(_))));
}

#[test]
fn unverified_reading_ignores_the_signature() {
    let mut signed = sample_manifest().sign(&[7u8; 32], "dev-1", to_json).unwrap();
    signed.signature_b64 = "nonsense".into();
    assert_eq!(signed.parse_unverified(parse).unwrap().version, Version::new(26, 3, 0));
    signed.manifest_json = "{}".into();
    assert!(matches!(signed.parse_unverified(parse), Err(Error::Json(_))));
}

#[test]
fn signing_passes_json_errors_on() {
    let r = sample_manifest().sign(&[7u8; 32], "k", |_| Err(serde_json::Error::custom("no")));
    assert!(matches!(r, Err(Error::Json(_))));
}

#[test]
fn errors_have_text() {
    assert_eq!(Error::BadSignature.message(), "bad or missing signature");
    assert_eq!(Error::BadVersion.message(), "bad version string");
    let e = Error::from(serde_json::Error::custom("broken"));
    assert_eq!(e.message(), "json: broken");
}

#[test]
fn messages_are_plain_values() {
    let request = CheckRequest {
        schema: SCHEMA,
        arch: "x86_64".into(),
        current: Version::new(26, 2, 0),
        channel: "stable".into(),
        subscribed: vec!["vendor".into()],
    };
    assert_eq!(request.clone().subscribed, vec!["vendor".to_string()]);
    let entry = PackageEntry {
        name: "gpu".into(),
        channel: "vendor".into(),
        version: Version::new(1, 0, 0),
        index: "gpu.caibx".into(),
        sha256: "00".into(),
        size: 1,
    };
    assert_eq!(entry.clone().name, "gpu");
    assert!(matches!(CheckResponse::UpToDate.clone(), CheckResponse::UpToDate));
}

#[test]
fn signature_depends_on_every_byte_of_the_json() {
    let secret = [7u8; 32];
    let a = SignedManifest::seal("{}".to_string(), &secret, "k");
    let b = SignedManifest::seal("{ }".to_string(), &secret, "k");
    assert_ne!(a.signature_b64, b.signature_b64);
    let c = SignedManifest::seal("{}".to_string(), &secret, "other");
    assert_eq!(a.signature_b64, c.signature_b64);
}
