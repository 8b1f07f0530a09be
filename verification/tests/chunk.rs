use runix_update::chunk::{
    chunk, chunk_at, hash_hex, note_piece, reassemble, Assembly, ChunkIndex, ChunkMap, ChunkRef, Error,
    LocalStore, Store, SyncStats, MAX_SIZE, MIN_SIZE,
};
use std::cell::RefCell;
use std::collections::HashMap;

/// In-memory store from a chunk map, for tests. It notes what it is asked for.
struct MapStore(HashMap<String, Vec<u8>>, RefCell<Vec<String>>);

impl MapStore {
    fn new(chunks: &ChunkMap) -> Self {
        let mut map = HashMap::new();
        for hash in chunks.hashes() {
            map.insert(hash.clone(), chunks.get(hash).unwrap().clone());
        }
        MapStore(map, RefCell::new(vec![]))
    }
}

impl Store for MapStore {
    fn get(&self, hash: &str) -> Result<Vec<u8>, Error> {
        self.1.borrow_mut().push(hash.to_string());
        self.0.get(hash).cloned().ok_or_else(|| Error::NotFound(hash.into()))
    }
}

struct BrokenStore;

impl Store for BrokenStore {
    fn get(&self, _hash: &str) -> Result<Vec<u8>, Error> {
        Err(Error::from(std::io::Error::new(std::io::ErrorKind::Other, "boom")))
    }
}

fn pseudo(seed: u64, len: usize) -> Vec<u8> {
    // deterministic pseudo-random bytes (no rng dep)
    let mut x = seed.wrapping_mul(0x9E3779B97F4A7C15);
    (0..len)
        .map(|_| {
            x ^= x << 13;
            x ^= x >> 7;
            x ^= x << 17;
            (x >> 24) as u8
        })
        .collect()
}

#[test]
fn roundtrip() {
    let data = pseudo(1, 2_000_000);
    let (index, chunks) = chunk(&data);
    let (out, stats) = reassemble(&index, &MapStore::new(&chunks), None).unwrap();
    assert_eq!(out, data);
    assert_eq!(stats.reused, 0);
    assert_eq!(stats.fetched, index.unique());
}

#[test]
fn seeded_fetches_only_changed_chunks() {
    // v1, then v2 = v1 with a small middle edit. Reassembling v2 seeded by
    // v1 should download only a few chunks, reuse the rest.
    let mut v1 = pseudo(2, 2_000_000);
    let mut v2 = v1.clone();
    for b in v2[1_000_000..1_000_400].iter_mut() {
        *b = b.wrapping_add(1);
    }
    let _ = &mut v1;
    let (idx2, chunks2) = chunk(&v2);
    let (out, stats) = reassemble(&idx2, &MapStore::new(&chunks2), Some(&v1)).unwrap();
    assert_eq!(out, v2);
    // The vast majority of chunks are unchanged and come from the seed.
    assert!(stats.reused > stats.fetched * 5, "stats: {stats:?}");
    assert!(stats.fetched >= 1);
}

#[test]
fn corrupt_store_chunk_is_caught() {
    let data = pseudo(3, 500_000);
    let (index, chunks) = chunk(&data);
    let mut store = MapStore::new(&chunks);
    // Corrupt one chunk's bytes in the store (keep its key/hash).
    let key = index.chunks[1].hash.clone();
    store.0.get_mut(&key).unwrap()[0] ^= 0xFF;
    let err = reassemble(&index, &store, None).unwrap_err();
    assert!(matches!(err, Error::HashMismatch(_)));
}

#[test]
fn hash_is_sha256_in_hex() {
    assert_eq!(
        hash_hex(b"abc"),
        "ba7816bf8f01cfea414140de5dae2223b00361a396177a9cb410ff61f20015ad"
    );
    assert_eq!(
        hash_hex(b""),
        "e3b0c44298fc1c149afbf4c8996fb92427ae41e4649b934ca495991b7852b855"
    );
}

#[test]
fn chunks_tile_the_data_and_keep_the_limits() {
    for len in [0usize, 1, 100, 16_384, 70_000, 1_500_000] {
        let data = pseudo(5, len);
        let (index, chunks) = chunk(&data);
        assert_eq!(index.total_len, len as u64);
        let mut joined = vec![];
        for (i, c) in index.chunks.iter().enumerate() {
            let bytes = chunks.get(&c.hash).unwrap();
            assert_eq!(bytes.len() as u64, c.len);
            assert_eq!(hash_hex(bytes), c.hash);
            assert!(c.len > 0 && c.len <= MAX_SIZE as u64);
            assert!(i + 1 == index.chunks.len() || c.len >= MIN_SIZE as u64);
            joined.extend_from_slice(bytes);
        }
        assert_eq!(joined, data);
    }
}

#[test]
fn identical_chunks_are_kept_once() {
    let data = vec![0u8; 1_000_000];
    let (index, chunks) = chunk(&data);
    assert!(index.chunks.len() > 2);
    assert!(index.unique() <= 2);
    assert_eq!(chunks.hashes().len(), index.unique());
    let store = MapStore::new(&chunks);
    let (out, stats) = reassemble(&index, &store, None).unwrap();
    assert_eq!(out, data);
    assert_eq!(stats.fetched, index.unique());
    let bytes: usize = chunks.hashes().iter().map(|h| chunks.get(h).unwrap().len()).sum();
    assert_eq!(stats.bytes_fetched, bytes as u64);
    assert_eq!(stats.reused + stats.fetched, index.chunks.len());
    assert_eq!(store.1.borrow().len(), stats.fetched);
}

#[test]
fn cuts_can_be_given() {
    let data = b"abcabcxy";
    let (index, chunks) = chunk_at(data, &vec![(0, 3), (3, 3), (6, 2)]);
    assert_eq!(index.total_len, 8);
    assert_eq!(
        index.chunks,
        vec![
            ChunkRef { hash: hash_hex(b"abc"), len: 3 },
            ChunkRef { hash: hash_hex(b"abc"), len: 3 },
            ChunkRef { hash: hash_hex(b"xy"), len: 2 },
        ]
    );
    assert_eq!(index.unique(), 2);
    assert_eq!(chunks.hashes(), &vec![hash_hex(b"abc"), hash_hex(b"xy")]);
    assert_eq!(chunks.get(&hash_hex(b"xy")).unwrap(), &b"xy".to_vec());
    assert!(chunks.get("other").is_none());
}

#[test]
fn own_seed_needs_no_store() {
    let data = pseudo(6, 600_000);
    let (index, _) = chunk(&data);
    let (out, stats) = reassemble(&index, &BrokenStore, Some(&data)).unwrap();
    assert_eq!(out, data);
    assert_eq!(stats.reused, index.chunks.len());
    assert_eq!((stats.fetched, stats.bytes_fetched), (0, 0));
}

#[test]
fn store_is_asked_only_for_missing_chunks() {
    let seed = pseudo(7, 300_000);
    let mut data = seed.clone();
    data.extend_from_slice(&pseudo(8, 300_000));
    let (index, chunks) = chunk(&data);
    let (_, seeded) = chunk(&seed);
    let store = MapStore::new(&chunks);
    let (out, stats) = reassemble(&index, &store, Some(&seed)).unwrap();
    assert_eq!(out, data);
    for hash in store.1.borrow().iter() {
        assert!(seeded.get(hash).is_none());
    }
    assert_eq!(store.1.borrow().len(), stats.fetched);
    let bytes: u64 = store.1.borrow().iter().map(|h| store.0[h].len() as u64).sum();
    assert_eq!(bytes, stats.bytes_fetched);
}

#[test]
fn missing_chunk_is_reported() {
    let index = ChunkIndex {
        total_len: 3,
        chunks: vec![ChunkRef { hash: hash_hex(b"abc"), len: 3 }],
    };
    let store = MapStore(HashMap::new(), RefCell::new(vec![]));
    let err = reassemble(&index, &store, None).unwrap_err();
    assert_eq!(err.message(), format!("chunk not found in store: {}", hash_hex(b"abc")));
}

#[test]
fn store_errors_are_passed_on() {
    let index = ChunkIndex {
        total_len: 3,
        chunks: vec![ChunkRef { hash: hash_hex(b"abc"), len: 3 }],
    };
    let err = reassemble(&index, &BrokenStore, None).unwrap_err();
    assert!(matches!(err, Error::Io(_)));
    assert_eq!(err.message(), "io: boom");
}

#[test]
fn wrong_lengths_are_caught() {
    let (_, chunks) = chunk_at(b"abc", &vec![(0, 3)]);
    let store = MapStore::new(&chunks);
    let mut index = ChunkIndex {
        total_len: 3,
        chunks: vec![ChunkRef { hash: hash_hex(b"abc"), len: 2 }],
    };
    let err = reassemble(&index, &store, None).unwrap_err();
    assert_eq!(err.message(), format!("chunk length mismatch: {}", hash_hex(b"abc")));
    index.chunks[0].len = 3;
    index.total_len = 4;
    let err = reassemble(&index, &store, None).unwrap_err();
    assert_eq!(err.message(), "chunk length mismatch: total");
    index.total_len = 3;
    assert_eq!(reassemble(&index, &store, None).unwrap().0, b"abc");
    // The seed is checked for its length too.
    index.chunks[0].len = 2;
    let err = reassemble(&index, &store, Some(b"abc")).unwrap_err();
    assert!(matches!(err, Error::LenMismatch(_)));
}

#[test]
fn hash_mismatch_names_the_chunk() {
    assert_eq!(Error::HashMismatch("h".to_string()).message(), "chunk hash mismatch: h");
}

#[test]
fn empty_image_needs_nothing() {
    let (index, chunks) = chunk(&[]);
    assert_eq!(index, ChunkIndex { total_len: 0, chunks: vec![] });
    assert!(chunks.hashes().is_empty());
    let (out, _) = reassemble(&index, &BrokenStore, None).unwrap();
    assert!(out.is_empty());
}

#[test]
fn reassembly_goes_step_by_step() {
    let c = ChunkRef { hash: hash_hex(b"abc"), len: 3 };
    let mut a = Assembly::new(None);
    assert!(!a.has(&c.hash));
    a.supply(&c, Ok(b"abc".to_vec())).unwrap();
    assert!(a.has(&c.hash));
    a.reuse(&c).unwrap();
    let (out, stats) = a.finish(6).unwrap();
    assert_eq!(out, b"abcabc");
    assert_eq!((stats.reused, stats.fetched, stats.bytes_fetched), (1, 1, 3));
}

#[test]
fn placing_goes_by_the_given_hash() {
    let c = ChunkRef { hash: "h".to_string(), len: 3 };
    let mut a = Assembly::new(None);
    let e = a.place(&c, b"abc".to_vec(), "x".to_string()).unwrap_err();
    assert!(matches!(e, Error::HashMismatch(h) if h == "h"));
    let e = a.place(&c, b"ab".to_vec(), "h".to_string()).unwrap_err();
    assert!(matches!(e, Error::LenMismatch(h) if h == "h"));
    assert!(!a.has("h"));
    a.place(&c, b"abc".to_vec(), "h".to_string()).unwrap();
    assert!(a.has("h"));
    assert_eq!(a.finish(3).unwrap().0, b"abc");
}

#[test]
fn first_piece_with_a_hash_is_kept() {
    let mut chunks = vec![];
    let mut store = ChunkMap::new();
    note_piece(&mut chunks, &mut store, b"abc", "h".to_string());
    note_piece(&mut chunks, &mut store, b"xy", "h".to_string());
    note_piece(&mut chunks, &mut store, b"z", "g".to_string());
    let lens: Vec<(&str, u64)> = chunks.iter().map(|c| (c.hash.as_str(), c.len)).collect();
    assert_eq!(lens, vec![("h", 3), ("h", 2), ("g", 1)]);
    assert_eq!(store.get("h").unwrap(), &b"abc".to_vec());
    assert_eq!(store.hashes(), &vec!["h".to_string(), "g".to_string()]);
    store.insert("h".to_string(), b"new".to_vec());
    assert_eq!(store.get("h").unwrap(), &b"new".to_vec());
    assert_eq!(store.hashes().len(), 2);
}

#[test]
fn stores_work_behind_a_trait_object() {
    let (index, chunks) = chunk_at(b"abc", &vec![(0, 3)]);
    let store: Box<dyn Store> = Box::new(MapStore::new(&chunks));
    assert_eq!(reassemble(&index, store.as_ref(), None).unwrap().0, b"abc");
}

#[test]
fn local_store_keeps_its_directory() {
    let store = LocalStore::new(std::path::PathBuf::from("/chunks"));
    assert_eq!(store.dir, std::path::PathBuf::from("/chunks"));
}

#[test]
fn stats_begin_at_zero() {
    let s = SyncStats::default();
    assert_eq!((s.reused, s.fetched, s.bytes_fetched), (0, 0, 0));
}

#[test]
fn chunking_is_determined_by_the_data() {
    let data = pseudo(9, 400_000);
    let (a, x) = chunk(&data);
    let (b, y) = chunk(&data);
    assert_eq!(a, b);
    assert_eq!(x.hashes(), y.hashes());
}
