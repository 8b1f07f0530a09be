use runix_update::chunk::{chunk_at, hash_hex, ChunkMap, Error as ChunkError, Store, SyncStats};
use runix_update::protocol::{
    public_key, CheckResponse, Error, Manifest, SignedManifest, Version, SCHEMA,
};
use runix_update::rum::{
    accept_image, apply, check, check_url, chunk_url, conclude_check, describe_applied,
    describe_apply, is_url, parse_public_key, prepare_check, print_plan, ApplyError, CheckError,
    KeyError,
};
use serde::de::Error as DeError;

fn manifest(version: Version) -> Manifest {
    Manifest {
        schema: SCHEMA,
        channel: "stable".into(),
        arch: "x86_64".into(),
        version,
        min_source: Version::new(26, 2, 0),
        image_index: "core/26.3.0.caibx".into(),
        verity_root_hash: "deadbeef".into(),
        size: 1024,
        packages: vec![],
    }
}

const PLAN: &str = "Update available: 26.2.0 -> 26.3.0
  signed by:   dev-1 (signature verified)
  channel:     stable / x86_64
  image index: core/26.3.0.caibx
  verity hash: deadbeef
  size:        1024 bytes

Next: rum apply --index <core/26.3.0.caibx> --store <store> --seed <current-slot> \\
      --out <inactive-slot> --expect deadbeef";

#[test]
fn addresses_are_told_from_paths() {
    for s in ["http://x", "https://x", "http://"] {
        assert!(is_url(s), "{s}");
    }
    for s in ["", "/x", "ftp://x", "http:/x", "HTTP://x", " http://x", "https:"] {
        assert!(!is_url(s), "{s}");
    }
}

#[test]
fn addresses_are_joined_with_one_slash() {
    assert_eq!(check_url("http://h:8080"), "http://h:8080/check");
    assert_eq!(check_url("http://h:8080//"), "http://h:8080/check");
    assert_eq!(chunk_url("https://r2/chunks/", "abc"), "https://r2/chunks/abc");
    assert_eq!(chunk_url("", "abc"), "/abc");
}

#[test]
fn public_keys_are_hex() {
    let text = format!(" \n{}{}\t\n", "aB".repeat(16), "01".repeat(16));
    let mut expected = [0xabu8; 32];
    for b in expected[16..].iter_mut() {
        *b = 1;
    }
    assert_eq!(parse_public_key(&text).unwrap(), expected);
    for text in ["zz", "abc", "a b", "0x01", "\u{e9}"] {
        assert!(matches!(parse_public_key(text), Err(KeyError::NotHex(_))), "{text}");
    }
    for text in ["", "ab", &"ab".repeat(31), &"ab".repeat(33)] {
        assert!(matches!(parse_public_key(text), Err(KeyError::WrongLength)), "{text}");
    }
    assert_eq!(KeyError::WrongLength.message(), "public key must be 32 bytes");
    let e = parse_public_key("zz").unwrap_err();
    assert_eq!(e.message(), "public key is not valid hex");
    assert_eq!(CheckError::Key(e).message(), "public key is not valid hex");
}

#[test]
fn check_is_prepared() {
    let key = "07".repeat(32);
    let prepare = |key: &str, current: &str| {
        prepare_check(key, "x86_64".into(), current, "stable".into(), vec!["v".into()])
    };
    let (public, request) = prepare(&key, "26.2.0").unwrap();
    assert_eq!(public, [7u8; 32]);
    assert_eq!(request.schema, 1);
    assert_eq!(request.arch, "x86_64");
    assert_eq!(request.current, Version::new(26, 2, 0));
    assert_eq!(request.channel, "stable");
    assert_eq!(request.subscribed, vec!["v".to_string()]);
    assert!(matches!(prepare("x", "bad"), Err(CheckError::Key(KeyError::NotHex(_)))));
    assert!(matches!(prepare("07", "bad"), Err(CheckError::Key(KeyError::WrongLength))));
    let e = prepare(&key, "26.2").unwrap_err();
    assert!(matches!(e, CheckError::BadCurrent));
    assert_eq!(e.message(), "bad --current version");
}

#[test]
fn plan_is_laid_out() {
    let current = Version::new(26, 2, 0);
    assert_eq!(print_plan(&current, "dev-1", &manifest(Version::new(26, 3, 0))).unwrap(), PLAN);
}

#[test]
fn plan_needs_a_newer_release() {
    let current = Version::new(26, 3, 0);
    for offered in [Version::new(26, 3, 0), Version::new(26, 2, 9)] {
        let e = print_plan(&current, "dev-1", &manifest(offered)).unwrap_err();
        assert_eq!(
            e.message(),
            format!("server offered version {} which is not newer than 26.3.0", offered.to_text())
        );
    }
}

#[test]
fn answers_are_concluded() {
    let current = Version::new(26, 2, 0);
    let e = conclude_check(Err(Error::BadSignature), &current, "k").unwrap_err();
    assert_eq!(
        e.message(),
        "manifest signature verification failed: bad or missing signature"
    );
    let e = conclude_check(Err(Error::Json(serde_json::Error::custom("broken"))), &current, "k")
        .unwrap_err();
    assert_eq!(e.message(), "manifest signature verification failed: json: broken");
    let said = conclude_check(Ok(manifest(Version::new(26, 3, 0))), &current, "dev-1").unwrap();
    assert_eq!(said, PLAN);
}

#[test]
fn up_to_date_is_said() {
    let said = check(&CheckResponse::UpToDate, &Version::new(26, 2, 0), &[0u8; 32], |_| {
        panic!("read")
    });
    assert_eq!(said.unwrap(), "Up to date (system 26.2.0).");
}

#[test]
fn offers_are_verified() {
    let secret = [7u8; 32];
    let signed = SignedManifest::seal("json".to_string(), &secret, "dev-1");
    let response = CheckResponse::Update(signed);
    let current = Version::new(26, 2, 0);
    let newer = |json: &str| {
        assert_eq!(json, "json");
        Ok(manifest(Version::new(26, 3, 0)))
    };
    assert_eq!(check(&response, &current, &public_key(&secret), newer).unwrap(), PLAN);
    let e = check(&response, &current, &public_key(&[8u8; 32]), newer).unwrap_err();
    assert!(matches!(e, CheckError::Unverified(Error::BadSignature)));
    let e = check(&response, &Version::new(27, 0, 0), &public_key(&secret), newer).unwrap_err();
    assert!(matches!(e, CheckError::NotNewer { .. }));
}

struct MapStore(ChunkMap);

impl Store for MapStore {
    fn get(&self, hash: &str) -> Result<Vec<u8>, ChunkError> {
        self.0.get(hash).cloned().ok_or_else(|| ChunkError::NotFound(hash.into()))
    }
}

#[test]
fn expected_image_is_applied() {
    let (index, chunks) = chunk_at(b"abcabcxy", &vec![(0, 3), (3, 3), (6, 2)]);
    let store = MapStore(chunks);
    let (out, stats) = apply(&index, &store, None, &hash_hex(b"abcabcxy")).unwrap();
    assert_eq!(out, b"abcabcxy");
    assert_eq!((stats.reused, stats.fetched, stats.bytes_fetched), (1, 2, 5));
    let (out, stats) = apply(&index, &store, Some(b"abc"), &hash_hex(b"abcabcxy")).unwrap();
    assert_eq!(out, b"abcabcxy");
    assert_eq!((stats.reused, stats.fetched, stats.bytes_fetched), (2, 1, 2));
}

#[test]
fn other_images_are_refused() {
    let (index, chunks) = chunk_at(b"abc", &vec![(0, 3)]);
    let store = MapStore(chunks);
    let e = apply(&index, &store, None, "deadbeef").unwrap_err();
    assert_eq!(
        e.message(),
        format!(
            "image hash mismatch: got {}, expected deadbeef (refusing to write)",
            hash_hex(b"abc")
        )
    );
    let upper = hash_hex(b"abc").to_uppercase();
    assert!(matches!(apply(&index, &store, None, &upper), Err(ApplyError::HashMismatch { .. })));
}

#[test]
fn failed_reassembly_is_told() {
    let (index, _) = chunk_at(b"abc", &vec![(0, 3)]);
    let store = MapStore(ChunkMap::new());
    let e = apply(&index, &store, None, &hash_hex(b"abc")).unwrap_err();
    assert!(matches!(e, ApplyError::Reassembly(ChunkError::NotFound(_))));
    assert_eq!(
        e.message(),
        format!("reassembly failed: chunk not found in store: {}", hash_hex(b"abc"))
    );
    let io = std::io::Error::new(std::io::ErrorKind::Other, "boom");
    let e = ApplyError::Reassembly(ChunkError::from(io));
    assert_eq!(e.message(), "reassembly failed: io: boom");
}

#[test]
fn acceptance_goes_by_the_hash() {
    let image = || (vec![1u8, 2], SyncStats::default());
    assert_eq!(accept_image(image(), "h".into(), "h").unwrap().0, vec![1, 2]);
    assert!(accept_image(image(), "h".into(), "H").is_err());
}

#[test]
fn application_is_described() {
    let (index, _) = chunk_at(b"abcabcxy", &vec![(0, 3), (3, 3), (6, 2)]);
    assert_eq!(
        describe_apply(&index, None),
        "Applying: 3 chunks (2 unique), 8 bytes, seed: none"
    );
    assert_eq!(
        describe_apply(&index, Some("/dev/sda1")),
        "Applying: 3 chunks (2 unique), 8 bytes, seed: /dev/sda1"
    );
    let stats = SyncStats { reused: 1, fetched: 2, bytes_fetched: 5 };
    assert_eq!(
        describe_applied("\"/slot\"", &stats),
        "Verified and wrote \"/slot\"\n  reused 1 chunks, fetched 2 (5 bytes) - hash OK"
    );
}
