//! Content-defined chunking and content-addressed reassembly of images.
//!
//! The release side chunks an image into a `ChunkIndex` and a set of unique
//! chunks that go to a store. The client reassembles the image from the index:
//! it reuses the chunks that its seed (the data it already has) holds, and gets
//! only the missing ones from the store.

use crate::digest::{
    content_hash, law_content_hash_is_the_digest, law_content_hash_tells_digests_apart, sha256_of,
};
use crate::encoding::hex_text;
pub use crate::digest::hash_hex;
use crate::text::texts;
use fastcdc::v2020::FastCDC;
use vstd::hash_map::*;
use vstd::hash_set::*;
use vstd::prelude::*;
use vstd::slice::*;
use vstd::std_specs::convert::FromSpec;
use vstd::string::*;

verus! {

/// Smallest chunk, in bytes. Only the last chunk of an image can be smaller.
pub const MIN_SIZE: u32 = 16384;

/// Average chunk size that the cutter aims for, in bytes.
pub const AVG_SIZE: u32 = 65536;

/// Largest chunk, in bytes.
pub const MAX_SIZE: u32 = 262144;

// ---- cutting ----

/// The cuts that the content-defined chunker makes in `data`: the offset and
/// the length of each chunk.
pub uninterp spec fn fastcdc_cuts(data: Seq<u8>, min: u32, avg: u32, max: u32) -> Seq<
    (usize, usize),
>;

/// Whether the cuts adjoin, cover `len` bytes from the first to the last, and
/// have lengths between `min` and `max`. Only the last one can be shorter than
/// `min`, and none is empty.
pub open spec fn is_tiling(cuts: Seq<(usize, usize)>, len: nat, min: u32, max: u32) -> bool {
    &&& forall|i: int| 0 <= i < cuts.len() ==> 0 < (#[trigger] cuts[i]).1 <= max
    &&& forall|i: int| 0 <= i < cuts.len() - 1 ==> min <= (#[trigger] cuts[i]).1
    &&& forall|i: int, j: int|
        0 <= i && j == i + 1 && j < cuts.len() ==> (#[trigger] cuts[j]).0 == (#[trigger] cuts[i]).0
            + cuts[i].1
    &&& if cuts.len() == 0 {
        len == 0
    } else {
        cuts[0].0 == 0 && cuts.last().0 + cuts.last().1 == len
    }
}

/// Calls `fastcdc::v2020::FastCDC::new` and collects the offset and length of
/// every chunk that it yields. They depend on the arguments alone. The chunks
/// adjoin and cover the data, and their lengths keep the limits.
#[verifier::external_body]
fn find_cuts(data: &[u8], min: u32, avg: u32, max: u32) -> (r: Vec<(usize, usize)>)
    requires
        64 <= min <= 1048576,
        min % 2 == 0,
        256 <= avg <= 4194304,
        1024 <= max <= 16777216,
        min <= avg <= max,
    ensures
        r@ == fastcdc_cuts(data@, min, avg, max),
        is_tiling(r@, data@.len(), min, max),
{
    FastCDC::new(data, min, avg, max).map(|c| (c.offset, c.length)).collect()
}

/// The pieces of `data` at the given offsets and lengths.
pub open spec fn pieces_at(data: Seq<u8>, cuts: Seq<(usize, usize)>) -> Seq<Seq<u8>> {
    cuts.map_values(|c: (usize, usize)| data.subrange(c.0 as int, c.0 + c.1))
}

/// The pieces that the chunker cuts `data` into.
pub open spec fn pieces_of(data: Seq<u8>) -> Seq<Seq<u8>> {
    pieces_at(data, fastcdc_cuts(data, MIN_SIZE, AVG_SIZE, MAX_SIZE))
}

/// Pieces joined end to end.
pub open spec fn joined(pieces: Seq<Seq<u8>>) -> Seq<u8>
    decreases pieces.len(),
{
    if pieces.len() == 0 {
        Seq::empty()
    } else {
        joined(pieces.drop_last()) + pieces.last()
    }
}

// ---- index ----

/// One chunk in an image, referenced by content hash. Offset is implicit from
/// the running sum of lengths.
#[derive(Clone, Debug, PartialEq, Eq)]
pub struct ChunkRef {
    pub hash: String,
    pub len: u64,
}

/// The recipe to reconstruct an image: an ordered list of chunk references.
#[derive(Clone, Debug, PartialEq, Eq)]
pub struct ChunkIndex {
    pub total_len: u64,
    pub chunks: Vec<ChunkRef>,
}

/// The hashes that a list of chunk references names.
pub open spec fn hashes_of(chunks: Seq<ChunkRef>) -> Seq<Seq<char>> {
    chunks.map_values(|c: ChunkRef| c.hash@)
}

/// Whether `piece` is what a chunk reference names: right hash, right length.
pub open spec fn names_piece(c: ChunkRef, piece: Seq<u8>) -> bool {
    c.hash@ == content_hash(piece) && c.len == piece.len()
}

/// Whether a list of chunk references names some pieces one for one.
pub open spec fn names_pieces(chunks: Seq<ChunkRef>, pieces: Seq<Seq<u8>>) -> bool {
    &&& chunks.len() == pieces.len()
    &&& forall|i: int| 0 <= i < chunks.len() ==> names_piece(#[trigger] chunks[i], pieces[i])
}

impl ChunkIndex {
    /// Whether the index describes an image that consists of `pieces`.
    pub open spec fn describes(self, pieces: Seq<Seq<u8>>) -> bool {
        &&& names_pieces(self.chunks@, pieces)
        &&& self.total_len == joined(pieces).len()
    }

    /// Number of distinct chunks (what the store must hold for this image).
    pub fn unique(&self) -> (r: usize)
        ensures
            r == hashes_of(self.chunks@).to_set().len(),
            r == self.chunks@.map_values(|c: ChunkRef| c.hash@).to_set().len(),
    {
        let mut set = StringHashSet::new();
        let mut i: usize = 0;
        let ghost hashes = hashes_of(self.chunks@);
        assert(hashes.take(0).to_set() =~= Set::empty());
        while i < self.chunks.len()
            invariant
                i <= self.chunks@.len(),
                hashes == hashes_of(self.chunks@),
                set@ == hashes.take(i as int).to_set(),
            decreases self.chunks.len() - i,
        {
            proof {
                assert(hashes.take(i + 1) =~= hashes.take(i as int).push(hashes[i as int]));
                hashes.take(i as int).lemma_push_to_set_commute(hashes[i as int]);
            }
            set.insert(self.chunks[i].hash.clone());
            i = i + 1;
        }
        assert(hashes.take(hashes.len() as int) =~= hashes);
        set.len()
    }
}

// ---- chunks by hash ----

/// Chunks by their hash, with the hashes in the order in which they came.
pub struct ChunkMap {
    hashes: Vec<String>,
    bytes: StringHashMap<Vec<u8>>,
}

impl View for ChunkMap {
    type V = Map<Seq<char>, Seq<u8>>;

    closed spec fn view(&self) -> Map<Seq<char>, Seq<u8>> {
        self.bytes@.map_values(|b: Vec<u8>| b@)
    }
}

impl ChunkMap {
    /// The hashes in the order in which they came.
    pub closed spec fn order(self) -> Seq<Seq<char>> {
        texts(self.hashes@)
    }

    /// Whether the order lists the hashes of the map, each of them once.
    pub closed spec fn wf(self) -> bool {
        &&& self.order().no_duplicates()
        &&& self.order().to_set() == self@.dom()
    }

    /// A map without chunks.
    pub fn new() -> (r: Self)
        ensures
            r.wf(),
            r@ == Map::<Seq<char>, Seq<u8>>::empty(),
            r.order() == Seq::<Seq<char>>::empty(),
    {
        let r = ChunkMap { hashes: Vec::new(), bytes: StringHashMap::new() };
        assert(r@ =~= Map::<Seq<char>, Seq<u8>>::empty());
        assert(r.order().to_set() =~= r@.dom());
        r
    }

    /// The chunk with a hash, if there is one.
    pub fn get(&self, hash: &str) -> (r: Option<&Vec<u8>>)
        ensures
            match r {
                Some(b) => self@.contains_key(hash@) && b@ == self@[hash@],
                None => !self@.contains_key(hash@),
            },
    {
        self.bytes.get(hash)
    }

    /// Puts a chunk under a hash, in place of one that is there.
    pub fn insert(&mut self, hash: String, bytes: Vec<u8>)
        requires
            old(self).wf(),
        ensures
            final(self).wf(),
            final(self)@ == old(self)@.insert(hash@, bytes@),
            final(self).order() == (if old(self)@.contains_key(hash@) {
                old(self).order()
            } else {
                old(self).order().push(hash@)
            }),
    {
        if !self.bytes.contains_key(hash.as_str()) {
            proof {
                assert(!self@.contains_key(hash@));
                assert(texts(self.hashes@.push(hash)) =~= self.order().push(hash@));
                self.order().lemma_push_to_set_commute(hash@);
                assert(!self.order().contains(hash@)) by {
                    assert(!self.order().to_set().contains(hash@));
                }
            }
            self.hashes.push(hash.clone());
        }
        self.bytes.insert(hash, bytes);
        proof {
            assert(self@ =~= old(self)@.insert(hash@, bytes@));
            assert(self.order().to_set() =~= self@.dom());
        }
    }

    /// The hashes of the chunks, in the order in which they came.
    pub fn hashes(&self) -> (r: &Vec<String>)
        requires
            self.wf(),
        ensures
            texts(r@) == self.order(),
            texts(r@).no_duplicates(),
            texts(r@).to_set() == self@.dom(),
    {
        &self.hashes
    }
}

/// The unique chunks among some pieces, by hash. Of pieces with one hash the
/// first is kept.
pub open spec fn piece_map(pieces: Seq<Seq<u8>>) -> Map<Seq<char>, Seq<u8>>
    decreases pieces.len(),
{
    if pieces.len() == 0 {
        Map::empty()
    } else {
        let before = piece_map(pieces.drop_last());
        let hash = content_hash(pieces.last());
        if before.contains_key(hash) {
            before
        } else {
            before.insert(hash, pieces.last())
        }
    }
}

/// Whether `index` and `chunks` are what chunking `data` gives.
pub open spec fn is_chunking(
    data: Seq<u8>,
    index: ChunkIndex,
    chunks: Map<Seq<char>, Seq<u8>>,
) -> bool {
    &&& index.describes(pieces_of(data))
    &&& joined(pieces_of(data)) == data
    &&& chunks == piece_map(pieces_of(data))
}

/// Adds a piece with this hash to an index and to its unique pieces, where it is
/// kept unless one with the same hash is there.
pub fn note_piece(chunks: &mut Vec<ChunkRef>, store: &mut ChunkMap, bytes: &[u8], hash: String)
    requires
        old(store).wf(),
    ensures
        final(chunks)@.len() == old(chunks)@.len() + 1,
        final(chunks)@.drop_last() == old(chunks)@,
        final(chunks)@.last().hash@ == hash@,
        final(chunks)@.last().len == bytes@.len(),
        final(store).wf(),
        final(store)@ == (if old(store)@.contains_key(hash@) {
            old(store)@
        } else {
            old(store)@.insert(hash@, bytes@)
        }),
{
    let len = bytes.len();
    chunks.push(ChunkRef { hash: hash.clone(), len: len as u64 });
    assert(chunks@.drop_last() =~= old(chunks)@);
    if store.get(hash.as_str()).is_none() {
        store.insert(hash, slice_to_vec(bytes));
    }
}

/// Index the pieces of `data` at the given offsets and lengths. Returns the
/// index plus the unique pieces keyed by hash.
pub fn chunk_at(data: &[u8], cuts: &Vec<(usize, usize)>) -> (r: (ChunkIndex, ChunkMap))
    requires
        forall|i: int|
            0 <= i < cuts@.len() ==> (#[trigger] cuts@[i]).0 + cuts@[i].1 <= data@.len(),
    ensures
        r.0.total_len == data@.len(),
        names_pieces(r.0.chunks@, pieces_at(data@, cuts@)),
        r.0.chunks@.len() == cuts@.len(),
        forall|i: int|
            0 <= i < cuts@.len() ==> (#[trigger] r.0.chunks@[i]).len == cuts@[i].1
                && r.0.chunks@[i].hash@ == hex_text(
                sha256_of(data@.subrange(cuts@[i].0 as int, cuts@[i].0 + cuts@[i].1)),
            ),
        r.1.wf(),
        r.1@ == piece_map(pieces_at(data@, cuts@)),
{
    let total = data.len();
    let mut chunks: Vec<ChunkRef> = Vec::new();
    let mut store = ChunkMap::new();
    let mut i: usize = 0;
    let ghost pieces = pieces_at(data@, cuts@);
    while i < cuts.len()
        invariant
            i <= cuts@.len(),
            total == data@.len(),
            forall|j: int|
                0 <= j < cuts@.len() ==> (#[trigger] cuts@[j]).0 + cuts@[j].1 <= data@.len(),
            pieces == pieces_at(data@, cuts@),
            names_pieces(chunks@, pieces.take(i as int)),
            store.wf(),
            store@ == piece_map(pieces.take(i as int)),
        decreases cuts.len() - i,
    {
        let (offset, length) = cuts[i];
        assert(cuts@[i as int].0 + cuts@[i as int].1 <= data@.len());
        let bytes = slice_subrange(data, offset, offset + length);
        assert(bytes@ == pieces[i as int]);
        proof {
            assert(pieces.take(i + 1).drop_last() =~= pieces.take(i as int));
            assert(pieces.take(i + 1).last() == pieces[i as int]);
        }
        let hash = hash_hex(bytes);
        note_piece(&mut chunks, &mut store, bytes, hash);
        proof {
            lemma_names_push(chunks@, pieces.take(i as int), bytes@);
            assert(pieces.take(i as int).push(bytes@) =~= pieces.take(i + 1));
        }
        i = i + 1;
    }
    proof {
        assert(pieces.take(pieces.len() as int) =~= pieces);
        assert forall|j: int| 0 <= j < cuts@.len() implies (#[trigger] chunks@[j]).len
            == cuts@[j].1 && chunks@[j].hash@ == hex_text(
            sha256_of(data@.subrange(cuts@[j].0 as int, cuts@[j].0 + cuts@[j].1)),
        ) by {
            assert(names_piece(chunks@[j], pieces[j]));
            assert(cuts@[j].0 + cuts@[j].1 <= data@.len());
        }
    }
    (ChunkIndex { total_len: total as u64, chunks }, store)
}

/// Split `data` into content-defined chunks. Returns the index plus the unique
/// chunks keyed by hash (identical chunks are deduplicated).
pub fn chunk(data: &[u8]) -> (r: (ChunkIndex, ChunkMap))
    ensures
        is_chunking(data@, r.0, r.1@),
        r.0.total_len == data@.len(),
        r.0.chunks@.len() == fastcdc_cuts(data@, 16384, 65536, 262144).len(),
        forall|i: int|
            0 <= i < r.0.chunks@.len() ==> {
                let cut = fastcdc_cuts(data@, 16384, 65536, 262144)[i];
                let piece = data@.subrange(cut.0 as int, cut.0 + cut.1);
                &&& cut.0 + cut.1 <= data@.len()
                &&& (#[trigger] r.0.chunks@[i]).len == cut.1
                &&& r.0.chunks@[i].hash@ == hex_text(sha256_of(piece))
                &&& r.1@.contains_key(r.0.chunks@[i].hash@)
            },
        forall|h: Seq<char>| #[trigger]
            r.1@.contains_key(h) ==> h == hex_text(sha256_of(r.1@[h])) && exists|i: int|
                0 <= i < r.0.chunks@.len() && (#[trigger] r.0.chunks@[i]).hash@ == h && r.1@[h].len()
                    == r.0.chunks@[i].len,
        forall|i: int|
            0 <= i < pieces_of(data@).len() ==> {
                &&& 0 < (#[trigger] pieces_of(data@)[i]).len() <= MAX_SIZE
                &&& i < pieces_of(data@).len() - 1 ==> MIN_SIZE <= pieces_of(data@)[i].len()
            },
        r.1.wf(),
{
    let cuts = find_cuts(data, MIN_SIZE, AVG_SIZE, MAX_SIZE);
    proof {
        let pieces = pieces_of(data@);
        assert(pieces.take(pieces.len() as int) =~= pieces);
        lemma_tiling_joined(data@, cuts@, MIN_SIZE, MAX_SIZE, cuts@.len() as int);
        assert(data@.take(data@.len() as int) =~= data@);
        assert forall|j: int| 0 <= j < cuts@.len() implies (#[trigger] cuts@[j]).0 + cuts@[j].1
            <= data@.len() && pieces[j].len() == cuts@[j].1 by {
            lemma_cut_in_bounds(cuts@, data@.len(), MIN_SIZE, MAX_SIZE, j);
        }
    }
    let r = chunk_at(data, &cuts);
    proof {
        let pieces = pieces_of(data@);
        let (chunks, map) = (r.0.chunks@, r.1@);
        law_pieces_are_addressed(pieces);
        assert forall|i: int| 0 <= i < chunks.len() implies cuts@[i].0 + cuts@[i].1 <= data@.len()
            && map.contains_key((#[trigger] chunks[i]).hash@) by {
            assert(names_piece(chunks[i], pieces[i]));
            assert(cuts@[i].0 + cuts@[i].1 <= data@.len());
            assert(map.contains_key(content_hash(pieces[i])));
        }
        assert forall|h: Seq<char>| #[trigger] map.contains_key(h) implies h == hex_text(
            sha256_of(map[h]),
        ) && exists|i: int|
            0 <= i < chunks.len() && (#[trigger] chunks[i]).hash@ == h && map[h].len()
                == chunks[i].len by {
            let i = choose|i: int| 0 <= i < pieces.len() && pieces[i] == map[h];
            assert(names_piece(chunks[i], pieces[i]));
        }
    }
    r
}

/// A cut ends within the data that the cuts cover.
proof fn lemma_cut_in_bounds(cuts: Seq<(usize, usize)>, len: nat, min: u32, max: u32, j: int)
    requires
        is_tiling(cuts, len, min, max),
        0 <= j < cuts.len(),
    ensures
        cuts[j].0 + cuts[j].1 <= len,
    decreases cuts.len() - j,
{
    if j < cuts.len() - 1 {
        lemma_cut_in_bounds(cuts, len, min, max, j + 1);
        assert(cuts[j + 1].0 == cuts[j].0 + cuts[j].1);
    }
}

/// The pieces that adjoining cuts make, joined again, are the data.
proof fn lemma_tiling_joined(
    data: Seq<u8>,
    cuts: Seq<(usize, usize)>,
    min: u32,
    max: u32,
    n: int,
)
    requires
        is_tiling(cuts, data.len(), min, max),
        0 <= n <= cuts.len(),
    ensures
        joined(pieces_at(data, cuts).take(n)) == data.take(
            if n < cuts.len() {
                cuts[n].0 as int
            } else {
                data.len() as int
            },
        ),
    decreases n,
{
    let pieces = pieces_at(data, cuts);
    if n == 0 {
        assert(data.take(0) =~= Seq::<u8>::empty());
    } else {
        lemma_tiling_joined(data, cuts, min, max, n - 1);
        lemma_cut_in_bounds(cuts, data.len(), min, max, n - 1);
        let end = cuts[n - 1].0 + cuts[n - 1].1;
        if n < cuts.len() {
            assert(cuts[n].0 == end);
        }
        assert(pieces.take(n).drop_last() =~= pieces.take(n - 1));
        assert(pieces.take(n).last() == pieces[n - 1]);
        assert(data.take(cuts[n - 1].0 as int) + pieces[n - 1] =~= data.take(end));
    }
}

// ---- errors ----

/// `std::io::Error`: a store hands one in, and it is carried through.
#[verifier::external_type_specification]
#[verifier::external_body]
pub struct ExIoError(std::io::Error);

#[derive(Debug)]
pub enum Error {
    Io(std::io::Error),
    NotFound(String),
    HashMismatch(String),
    LenMismatch(String),
}

/// An error with its texts as sequences of characters.
pub enum ErrorView {
    Io(std::io::Error),
    NotFound(Seq<char>),
    HashMismatch(Seq<char>),
    LenMismatch(Seq<char>),
}

impl View for Error {
    type V = ErrorView;

    open spec fn view(&self) -> ErrorView {
        match *self {
            Error::Io(e) => ErrorView::Io(e),
            Error::NotFound(h) => ErrorView::NotFound(h@),
            Error::HashMismatch(h) => ErrorView::HashMismatch(h@),
            Error::LenMismatch(h) => ErrorView::LenMismatch(h@),
        }
    }
}

impl From<std::io::Error> for Error {
    fn from(e: std::io::Error) -> Self {
        Error::Io(e)
    }
}

impl vstd::std_specs::convert::FromSpecImpl<std::io::Error> for Error {
    open spec fn obeys_from_spec() -> bool {
        true
    }

    open spec fn from_spec(e: std::io::Error) -> Error {
        Error::Io(e)
    }
}

/// Calls `to_string` on a `std::io::Error`. What the text says depends on the
/// system, so nothing is claimed of it.
#[verifier::external_body]
fn io_error_text(e: &std::io::Error) -> (r: String) {
    e.to_string()
}

/// Whether `t` is a text that the system gives for an I/O error.
pub closed spec fn is_io_text(e: std::io::Error, t: Seq<char>) -> bool {
    exists|s: String| #[trigger] call_ensures(io_error_text, (&e,), s) && s@ == t
}

/// Whether `t` is what is said of an I/O error: the system's text, behind `io: `.
pub open spec fn is_io_message(e: std::io::Error, t: Seq<char>) -> bool {
    exists|inner: Seq<char>| #[trigger] is_io_text(e, inner) && t == "io: "@ + inner
}

impl Error {
    /// What the error says to a reader. The text of an I/O error is the
    /// system's, behind `io: `.
    pub fn message(&self) -> (r: String)
        ensures
            match self@ {
                ErrorView::Io(e) => is_io_message(e, r@),
                ErrorView::NotFound(h) => r@ == "chunk not found in store: "@ + h,
                ErrorView::HashMismatch(h) => r@ == "chunk hash mismatch: "@ + h,
                ErrorView::LenMismatch(h) => r@ == "chunk length mismatch: "@ + h,
            },
            match *self {
                Error::Io(e) => exists|inner: Seq<char>| #[trigger]
                    is_io_text(e, inner) && r@ == "io: "@ + inner,
                Error::NotFound(h) => r@ == "chunk not found in store: "@ + h@,
                Error::HashMismatch(h) => r@ == "chunk hash mismatch: "@ + h@,
                Error::LenMismatch(h) => r@ == "chunk length mismatch: "@ + h@,
            },
    {
        let mut out = String::new();
        match self {
            Error::Io(e) => {
                out.append("io: ");
                let inner = io_error_text(e);
                out.append(inner.as_str());
                assert(is_io_text(*e, inner@));
                assert(out@ =~= "io: "@ + inner@);
            },
            Error::NotFound(h) => {
                out.append("chunk not found in store: ");
                out.append(h.as_str());
                assert(out@ =~= "chunk not found in store: "@ + h@);
            },
            Error::HashMismatch(h) => {
                out.append("chunk hash mismatch: ");
                out.append(h.as_str());
                assert(out@ =~= "chunk hash mismatch: "@ + h@);
            },
            Error::LenMismatch(h) => {
                out.append("chunk length mismatch: ");
                out.append(h.as_str());
                assert(out@ =~= "chunk length mismatch: "@ + h@);
            },
        }
        out
    }
}

// ---- reassembly ----

/// A source of chunks by hash (a local cache, an HTTP/R2 store, ...).
pub trait Store {
    fn get(&self, hash: &str) -> Result<Vec<u8>, Error>;
}

/// `std::path::PathBuf`: the place of a store, which is carried through.
#[verifier::external_type_specification]
#[verifier::external_body]
pub struct ExPathBuf(std::path::PathBuf);

/// A store backed by a directory of `<hash>` files. Used both to build a store
/// (release side) and as a local seed/cache.
pub struct LocalStore {
    pub dir: std::path::PathBuf,
}

impl LocalStore {
    pub fn new(dir: std::path::PathBuf) -> (r: Self)
        ensures
            r.dir == dir,
    {
        LocalStore { dir }
    }
}

/// What a reassembly did, for logging/bandwidth accounting.
#[derive(Clone, Copy, Debug)]
pub struct SyncStats {
    pub reused: usize,
    pub fetched: usize,
    pub bytes_fetched: u64,
}

impl Default for SyncStats {
    fn default() -> (r: Self)
        ensures
            r == (SyncStats { reused: 0, fetched: 0, bytes_fetched: 0 }),
    {
        SyncStats { reused: 0, fetched: 0, bytes_fetched: 0 }
    }
}

/// What a store can answer for a hash: its bytes or an error.
pub type Reply = Result<Vec<u8>, Error>;

/// A reassembly in progress, as a value: the chunks at hand, the image so far,
/// and the counts.
pub struct Progress {
    pub have: Map<Seq<char>, Seq<u8>>,
    pub out: Seq<u8>,
    pub reused: nat,
    pub fetched: nat,
    pub bytes_fetched: nat,
}

/// A reassembly before its first chunk, with the chunks at hand.
pub open spec fn at_start(have: Map<Seq<char>, Seq<u8>>) -> Progress {
    Progress { have, out: Seq::empty(), reused: 0, fetched: 0, bytes_fetched: 0 }
}

/// The next chunk is at hand: it is reused, if it has the right length.
pub open spec fn after_reuse(p: Progress, c: ChunkRef) -> Result<Progress, ErrorView> {
    let bytes = p.have[c.hash@];
    if bytes.len() != c.len {
        Err(ErrorView::LenMismatch(c.hash@))
    } else {
        Ok(Progress { out: p.out + bytes, reused: p.reused + 1, ..p })
    }
}

/// The next chunk is not at hand, and bytes with this hash came for it: they are
/// checked against the hash and then the length, kept and used.
pub open spec fn after_bytes(p: Progress, c: ChunkRef, bytes: Seq<u8>, hash: Seq<char>) -> Result<
    Progress,
    ErrorView,
> {
    if hash != c.hash@ {
        Err(ErrorView::HashMismatch(c.hash@))
    } else if bytes.len() != c.len {
        Err(ErrorView::LenMismatch(c.hash@))
    } else {
        Ok(
            Progress {
                have: p.have.insert(c.hash@, bytes),
                out: p.out + bytes,
                reused: p.reused,
                fetched: p.fetched + 1,
                bytes_fetched: p.bytes_fetched + bytes.len(),
            },
        )
    }
}

/// The next chunk is not at hand, and the store answered: an error is passed
/// on, bytes are checked against the hash and then the length, kept and used.
pub open spec fn after_reply(p: Progress, c: ChunkRef, reply: Reply) -> Result<
    Progress,
    ErrorView,
> {
    match reply {
        Err(e) => Err(e@),
        Ok(b) => after_bytes(p, c, b@, content_hash(b@)),
    }
}

/// The reassembly of some chunks, where `replies[i]` is what the store answers
/// if it is asked for the chunk `i`. It stops at the first error.
pub open spec fn progress(
    have: Map<Seq<char>, Seq<u8>>,
    chunks: Seq<ChunkRef>,
    replies: Seq<Reply>,
) -> Result<Progress, ErrorView>
    decreases chunks.len(),
{
    if chunks.len() == 0 {
        Ok(at_start(have))
    } else {
        match progress(have, chunks.drop_last(), replies) {
            Err(e) => Err(e),
            Ok(p) => if p.have.contains_key(chunks.last().hash@) {
                after_reuse(p, chunks.last())
            } else {
                after_reply(p, chunks.last(), replies[chunks.len() - 1])
            },
        }
    }
}

/// Whether the store is asked for chunk `i`: the reassembly gets that far, and
/// the chunk is not at hand.
pub open spec fn is_asked(
    have: Map<Seq<char>, Seq<u8>>,
    chunks: Seq<ChunkRef>,
    replies: Seq<Reply>,
    i: int,
) -> bool {
    match progress(have, chunks.take(i), replies) {
        Ok(p) => !p.have.contains_key(chunks[i].hash@),
        Err(_) => false,
    }
}

/// The end of a reassembly: the image must have the length that the index
/// gives.
pub open spec fn outcome(
    have: Map<Seq<char>, Seq<u8>>,
    index: ChunkIndex,
    replies: Seq<Reply>,
) -> Result<Progress, ErrorView> {
    match progress(have, index.chunks@, replies) {
        Err(e) => Err(e),
        Ok(p) => if p.out.len() != index.total_len {
            Err(ErrorView::LenMismatch("total"@))
        } else {
            Ok(p)
        },
    }
}

/// Whether a returned value is the end of a reassembly.
pub open spec fn is_outcome(
    r: Result<(Vec<u8>, SyncStats), Error>,
    o: Result<Progress, ErrorView>,
) -> bool {
    match (r, o) {
        (Ok((out, stats)), Ok(p)) => {
            &&& out@ == p.out
            &&& stats.reused == p.reused
            &&& stats.fetched == p.fetched
            &&& stats.bytes_fetched == p.bytes_fetched
        },
        (Err(e), Err(v)) => e@ == v,
        _ => false,
    }
}

/// A reassembly in progress.
pub struct Assembly {
    have: ChunkMap,
    out: Vec<u8>,
    stats: SyncStats,
}

impl View for Assembly {
    type V = Progress;

    closed spec fn view(&self) -> Progress {
        Progress {
            have: self.have@,
            out: self.out@,
            reused: self.stats.reused as nat,
            fetched: self.stats.fetched as nat,
            bytes_fetched: self.stats.bytes_fetched as nat,
        }
    }
}

/// The chunks that a seed holds.
pub open spec fn seed_chunks(seed: Option<&[u8]>) -> Map<Seq<char>, Seq<u8>> {
    match seed {
        Some(s) => piece_map(pieces_of(s@)),
        None => Map::empty(),
    }
}

impl Assembly {
    /// Whether the chunks at hand are in order, and no more bytes were fetched
    /// than the image has.
    pub closed spec fn wf(self) -> bool {
        &&& self.have.wf()
        &&& self.stats.bytes_fetched <= self.out@.len()
    }

    /// How many chunks were placed.
    pub open spec fn placed(self) -> nat {
        self@.reused + self@.fetched
    }

    /// A reassembly before its first chunk, with the chunks of `seed` at hand.
    pub fn new(seed: Option<&[u8]>) -> (r: Self)
        ensures
            r.wf(),
            r@ == at_start(
                seed_chunks(seed),
            ),
    {
        let have = match seed {
            Some(s) => chunk(s).1,
            None => ChunkMap::new(),
        };
        Assembly { have, out: Vec::new(), stats: SyncStats::default() }
    }

    /// Whether the chunk with this hash is at hand.
    pub fn has(&self, hash: &str) -> (r: bool)
        ensures
            r == self@.have.contains_key(hash@),
    {
        self.have.get(hash).is_some()
    }

    /// Places a chunk that is at hand.
    pub fn reuse(&mut self, c: &ChunkRef) -> (r: Result<(), Error>)
        requires
            old(self).wf(),
            old(self)@.have.contains_key(c.hash@),
            old(self).placed() < usize::MAX,
        ensures
            final(self).wf(),
            match (r, after_reuse(old(self)@, *c)) {
                (Ok(_), Ok(p)) => final(self)@ == p,
                (Err(e), Err(v)) => e@ == v && final(self)@ == old(self)@,
                _ => false,
            },
    {
        match self.have.get(c.hash.as_str()) {
            Some(bytes) => {
                if bytes.len() as u64 != c.len {
                    return Err(Error::LenMismatch(c.hash.clone()));
                }
                self.out.extend_from_slice(bytes.as_slice());
                assert(self.out@ =~= old(self).out@ + bytes@);
                self.stats.reused = self.stats.reused + 1;
            },
            None => {},
        }
        Ok(())
    }

    /// Places a chunk that is not at hand, from what a store answered for it.
    pub fn supply(&mut self, c: &ChunkRef, reply: Reply) -> (r: Result<(), Error>)
        requires
            old(self).wf(),
            !old(self)@.have.contains_key(c.hash@),
            old(self).placed() < usize::MAX,
        ensures
            final(self).wf(),
            match (r, after_reply(old(self)@, *c, reply)) {
                (Ok(_), Ok(p)) => final(self)@ == p,
                (Err(e), Err(v)) => e@ == v && final(self)@ == old(self)@,
                _ => false,
            },
    {
        match reply {
            Ok(bytes) => {
                let hash = hash_hex(bytes.as_slice());
                self.place(c, bytes, hash)
            },
            Err(e) => Err(e),
        }
    }

    /// Places a chunk that is not at hand, from bytes that have this hash.
    pub fn place(&mut self, c: &ChunkRef, bytes: Vec<u8>, hash: String) -> (r: Result<(), Error>)
        requires
            old(self).wf(),
            !old(self)@.have.contains_key(c.hash@),
            old(self).placed() < usize::MAX,
        ensures
            final(self).wf(),
            match (r, after_bytes(old(self)@, *c, bytes@, hash@)) {
                (Ok(_), Ok(p)) => final(self)@ == p,
                (Err(e), Err(v)) => e@ == v && final(self)@ == old(self)@,
                _ => false,
            },
    {
        if hash != c.hash {
            return Err(Error::HashMismatch(c.hash.clone()));
        }
        if bytes.len() as u64 != c.len {
            return Err(Error::LenMismatch(c.hash.clone()));
        }
        let len = bytes.len();
        let ghost before = self.out@.len();
        self.out.extend_from_slice(bytes.as_slice());
        assert(self.out@ =~= old(self).out@ + bytes@);
        assert(self.out.len() == before + len);
        self.stats.fetched = self.stats.fetched + 1;
        self.stats.bytes_fetched = self.stats.bytes_fetched + len as u64;
        self.have.insert(c.hash.clone(), bytes);
        Ok(())
    }
}

impl Assembly {
    /// Ends the reassembly: the image must be `total_len` bytes long.
    pub fn finish(self, total_len: u64) -> (r: Result<(Vec<u8>, SyncStats), Error>)
        ensures
            is_outcome(
                r,
                if self@.out.len() != total_len {
                    Err(ErrorView::LenMismatch("total"@))
                } else {
                    Ok(self@)
                },
            ),
    {
        if self.out.len() as u64 != total_len {
            return Err(Error::LenMismatch("total".to_string()));
        }
        Ok((self.out, self.stats))
    }
}

/// Whether a store can answer with this reply when it is asked for a hash.
pub open spec fn can_answer<S: Store + ?Sized>(store: &S, hash: Seq<char>, reply: Reply) -> bool {
    exists|h: &str| h@ == hash && #[trigger] call_ensures(S::get, (store, h), reply)
}

/// Whether `r` is what a reassembly returns when the store answers with
/// `replies` where it is asked.
pub open spec fn is_reassembly<S: Store + ?Sized>(
    index: ChunkIndex,
    store: &S,
    have: Map<Seq<char>, Seq<u8>>,
    replies: Seq<Reply>,
    r: Result<(Vec<u8>, SyncStats), Error>,
) -> bool {
    &&& forall|i: int|
        0 <= i < index.chunks@.len() && #[trigger] is_asked(have, index.chunks@, replies, i)
            ==> can_answer(store, index.chunks@[i].hash@, replies[i])
    &&& is_outcome(r, outcome(have, index, replies))
}

/// Reconstruct the image described by `index`, reusing chunks found in `seed`
/// (the client's existing data) and downloading only the missing ones from
/// `store`. Every fetched chunk is verified against its hash. The caller must
/// still verify the final image against the expected (signed) hash.
pub fn reassemble<S: Store + ?Sized>(index: &ChunkIndex, store: &S, seed: Option<&[u8]>) -> (r:
    Result<(Vec<u8>, SyncStats), Error>)
    ensures
        exists|replies: Seq<Reply>| #[trigger]
            is_reassembly(
                *index,
                store,
                seed_chunks(seed),
                replies,
                r,
            ),
        r matches Ok((out, _)) ==> exists|pieces: Seq<Seq<u8>>| #[trigger]
            index.describes(pieces) && out@ == joined(pieces),
        r matches Ok((out, stats)) ==> {
            &&& out@.len() == index.total_len
            &&& exists|pieces: Seq<Seq<u8>>|
                {
                    &&& out@ == #[trigger] pieces.flatten()
                    &&& pieces.len() == index.chunks@.len()
                    &&& forall|i: int|
                        0 <= i < pieces.len() ==> (#[trigger] pieces[i]).len()
                            == index.chunks@[i].len && hex_text(sha256_of(pieces[i]))
                            == index.chunks@[i].hash@
                }
            &&& stats.reused + stats.fetched == index.chunks@.len()
            &&& stats.fetched == index.chunks@.map_values(
                |c: ChunkRef| c.hash@,
            ).to_set().difference(seed_chunks(seed).dom()).len()
            &&& stats.bytes_fetched == missing_bytes(seed_chunks(seed).dom(), index.chunks@)
        },
{
    let mut assembly = Assembly::new(seed);
    let ghost have = assembly@.have;
    let ghost chunks = index.chunks@;
    let ghost mut replies: Seq<Reply> = Seq::empty();
    let mut i: usize = 0;
    while i < index.chunks.len()
        invariant
            i <= chunks.len(),
            chunks == index.chunks@,
            assembly.wf(),
            assembly.placed() == i,
            replies.len() == i,
            progress(have, chunks.take(i as int), replies) == Ok::<Progress, ErrorView>(assembly@),
            forall|j: int|
                0 <= j < i && #[trigger] is_asked(have, chunks, replies, j) ==> can_answer(
                    store,
                    chunks[j].hash@,
                    replies[j],
                ),
            have == seed_chunks(seed),
        decreases index.chunks.len() - i,
    {
        let c = &index.chunks[i];
        let ghost before = replies;
        let ghost p = assembly@;
        let step = if assembly.has(c.hash.as_str()) {
            proof {
                replies = replies.push(arbitrary());
            }
            assembly.reuse(c)
        } else {
            let reply = store.get(c.hash.as_str());
            proof {
                replies = replies.push(reply);
                assert(can_answer(store, c.hash@, reply));
            }
            assembly.supply(c, reply)
        };
        proof {
            lemma_progress_prefix(have, chunks.take(i as int), before, replies);
            assert(chunks.take(i + 1).drop_last() =~= chunks.take(i as int));
            assert(chunks.take(i + 1).last() == chunks[i as int]);
            assert forall|j: int|
                0 <= j < i + 1 && #[trigger] is_asked(have, chunks, replies, j) implies can_answer(
                store,
                chunks[j].hash@,
                replies[j],
            ) by {
                lemma_progress_prefix(have, chunks.take(j), before, replies);
                if j < i {
                    assert(is_asked(have, chunks, before, j));
                }
            }
        }
        match step {
            Ok(()) => {},
            Err(e) => {
                proof {
                    lemma_progress_stops(have, chunks, replies, i + 1);
                    assert forall|j: int|
                        0 <= j < chunks.len() && #[trigger] is_asked(
                            have,
                            chunks,
                            replies,
                            j,
                        ) implies can_answer(store, chunks[j].hash@, replies[j]) by {
                        if j > i {
                            assert(chunks.take(j).take(i + 1) =~= chunks.take(i + 1));
                            lemma_progress_stops(have, chunks.take(j), replies, i + 1);
                        }
                    }
                    assert(is_reassembly(*index, store, have, replies, Err(e)));
                }
                return Err(e);
            },
        }
        i = i + 1;
    }
    proof {
        assert(chunks.take(chunks.len() as int) =~= chunks);
    }
    let r = assembly.finish(index.total_len);
    proof {
        assert(is_reassembly(*index, store, have, replies, r));
        lemma_seed_is_addressed(seed);
        let pieces = lemma_progress(have, chunks, replies);
        if r is Ok {
            assert(index.describes(pieces));
            law_joined_is_flattened(pieces);
            assert forall|j: int| 0 <= j < pieces.len() implies (#[trigger] pieces[j]).len()
                == index.chunks@[j].len && hex_text(sha256_of(pieces[j]))
                == index.chunks@[j].hash@ by {
                assert(names_piece(index.chunks@[j], pieces[j]));
            }
            assert(r->Ok_0.0@ == pieces.flatten());
        }
    }
    r
}

/// Only the replies for the chunks themselves matter.
proof fn lemma_progress_prefix(
    have: Map<Seq<char>, Seq<u8>>,
    chunks: Seq<ChunkRef>,
    a: Seq<Reply>,
    b: Seq<Reply>,
)
    requires
        forall|i: int| 0 <= i < chunks.len() ==> a[i] == b[i],
    ensures
        progress(have, chunks, a) == progress(have, chunks, b),
    decreases chunks.len(),
{
    if chunks.len() > 0 {
        lemma_progress_prefix(have, chunks.drop_last(), a, b);
    }
}

/// A reassembly that fails on some chunks fails in the same way on more.
proof fn lemma_progress_stops(
    have: Map<Seq<char>, Seq<u8>>,
    chunks: Seq<ChunkRef>,
    replies: Seq<Reply>,
    n: int,
)
    requires
        0 <= n <= chunks.len(),
        progress(have, chunks.take(n), replies) is Err,
    ensures
        progress(have, chunks, replies) == progress(have, chunks.take(n), replies),
    decreases chunks.len() - n,
{
    if n == chunks.len() {
        assert(chunks.take(n) =~= chunks);
    } else {
        assert(chunks.take(n + 1).drop_last() =~= chunks.take(n));
        lemma_progress_stops(have, chunks, replies, n + 1);
    }
}

// ---- laws ----

/// Whether every chunk in a map is there under its own hash.
pub open spec fn is_addressed(m: Map<Seq<char>, Seq<u8>>) -> bool {
    forall|h: Seq<char>| #[trigger] m.contains_key(h) ==> content_hash(m[h]) == h
}

/// The unique chunks of some pieces are under their own hashes, and every piece
/// has its hash among them.
pub proof fn law_pieces_are_addressed(pieces: Seq<Seq<u8>>)
    ensures
        is_addressed(piece_map(pieces)),
        forall|h: Seq<char>| #[trigger]
            piece_map(pieces).contains_key(h) ==> pieces.contains(piece_map(pieces)[h]),
        forall|i: int|
            0 <= i < pieces.len() ==> piece_map(pieces).contains_key(
                content_hash(#[trigger] pieces[i]),
            ),
    decreases pieces.len(),
{
    if pieces.len() > 0 {
        let before = pieces.drop_last();
        law_pieces_are_addressed(before);
        let m = piece_map(pieces);
        assert(pieces =~= before.push(pieces.last()));
        assert forall|h: Seq<char>| #[trigger] m.contains_key(h) implies pieces.contains(m[h]) by {
            if piece_map(before).contains_key(h) {
                let i = choose|i: int| 0 <= i < before.len() && before[i] == piece_map(before)[h];
                assert(pieces[i] == piece_map(before)[h]);
            } else {
                assert(pieces[pieces.len() - 1] == m[h]);
            }
        }
        assert forall|i: int| 0 <= i < pieces.len() implies m.contains_key(
            content_hash(#[trigger] pieces[i]),
        ) by {
            if i < before.len() {
                assert(before[i] == pieces[i]);
            }
        }
    }
}

proof fn lemma_seed_is_addressed(seed: Option<&[u8]>)
    ensures
        is_addressed(seed_chunks(seed)),
{
    if let Some(s) = seed {
        law_pieces_are_addressed(pieces_of(s@));
    }
}

proof fn lemma_names_push(chunks: Seq<ChunkRef>, before: Seq<Seq<u8>>, piece: Seq<u8>)
    requires
        chunks.len() > 0,
        names_pieces(chunks.drop_last(), before),
        names_piece(chunks.last(), piece),
    ensures
        names_pieces(chunks, before.push(piece)),
        joined(before.push(piece)) == joined(before) + piece,
{
    let pieces = before.push(piece);
    assert(pieces.drop_last() =~= before);
    assert forall|i: int| 0 <= i < chunks.len() implies names_piece(
        #[trigger] chunks[i],
        pieces[i],
    ) by {
        if i < before.len() {
            assert(chunks.drop_last()[i] == chunks[i]);
        }
    }
}

/// How many bytes the chunks have whose hash is not among `known`, where each
/// hash counts once.
pub open spec fn missing_bytes(known: Set<Seq<char>>, chunks: Seq<ChunkRef>) -> nat
    decreases chunks.len(),
{
    if chunks.len() == 0 {
        0
    } else {
        let c = chunks.last();
        missing_bytes(known, chunks.drop_last()) + if known.contains(c.hash@) || hashes_of(
            chunks.drop_last(),
        ).contains(c.hash@) {
            0
        } else {
            c.len as nat
        }
    }
}

/// What holds of a reassembly that has not failed. Gives the pieces that the
/// image consists of so far.
proof fn lemma_progress(
    have: Map<Seq<char>, Seq<u8>>,
    chunks: Seq<ChunkRef>,
    replies: Seq<Reply>,
) -> (pieces: Seq<Seq<u8>>)
    requires
        is_addressed(have),
    ensures
        progress(have, chunks, replies) matches Ok(p) ==> {
            &&& names_pieces(chunks, pieces)
            &&& p.out == joined(pieces)
            &&& is_addressed(p.have)
            &&& p.have.dom() == have.dom().union(hashes_of(chunks).to_set())
            &&& p.reused + p.fetched == chunks.len()
            &&& p.fetched == hashes_of(chunks).to_set().difference(have.dom()).len()
            &&& hashes_of(chunks).to_set().difference(have.dom()).finite()
            &&& p.bytes_fetched == missing_bytes(have.dom(), chunks)
        },
    decreases chunks.len(),
{
    if chunks.len() == 0 {
        assert(hashes_of(chunks).to_set() =~= Set::empty());
        assert(hashes_of(chunks).to_set().difference(have.dom()) =~= Set::empty());
        assert(have.dom() =~= have.dom().union(hashes_of(chunks).to_set()));
        Seq::empty()
    } else {
        let rest = chunks.drop_last();
        let before = lemma_progress(have, rest, replies);
        let c = chunks.last();
        let hashes = hashes_of(rest);
        assert(hashes_of(chunks) =~= hashes.push(c.hash@));
        hashes.lemma_push_to_set_commute(c.hash@);
        let old_missing = hashes.to_set().difference(have.dom());
        let missing = hashes_of(chunks).to_set().difference(have.dom());
        match progress(have, rest, replies) {
            Err(_) => before,
            Ok(p) => {
                assert(p.have.dom().contains(c.hash@) <==> have.dom().contains(c.hash@)
                    || hashes.to_set().contains(c.hash@));
                if p.have.contains_key(c.hash@) {
                    let piece = p.have[c.hash@];
                    if piece.len() == c.len {
                        lemma_names_push(chunks, before, piece);
                    }
                    assert(missing =~= old_missing) by {
                        assert(p.have.dom().contains(c.hash@));
                    }
                    assert(p.have.dom() =~= have.dom().union(hashes_of(chunks).to_set()));
                    before.push(piece)
                } else {
                    match replies[chunks.len() - 1] {
                        Err(_) => before,
                        Ok(b) => {
                            if content_hash(b@) == c.hash@ && b@.len() == c.len {
                                lemma_names_push(chunks, before, b@);
                            }
                            assert(!p.have.dom().contains(c.hash@));
                            assert(!old_missing.contains(c.hash@));
                            assert(missing =~= old_missing.insert(c.hash@));
                            assert(p.have.insert(c.hash@, b@).dom() =~= have.dom().union(
                                hashes_of(chunks).to_set(),
                            ));
                            before.push(b@)
                        },
                    }
                }
            },
        }
    }
}

/// Whether pieces with one hash are one piece.
pub open spec fn no_collision(pieces: Seq<Seq<u8>>) -> bool {
    forall|i: int, j: int|
        0 <= i < pieces.len() && 0 <= j < pieces.len() && content_hash(#[trigger] pieces[i])
            == content_hash(#[trigger] pieces[j]) ==> pieces[i] == pieces[j]
}

/// Whether a map has, under the hash of each piece, that piece or nothing.
pub open spec fn agrees_with(have: Map<Seq<char>, Seq<u8>>, pieces: Seq<Seq<u8>>) -> bool {
    forall|i: int|
        0 <= i < pieces.len() && have.contains_key(content_hash(#[trigger] pieces[i]))
            ==> have[content_hash(pieces[i])] == pieces[i]
}

/// Whether the store answers with the right piece wherever it is asked.
pub open spec fn is_supplied(
    have: Map<Seq<char>, Seq<u8>>,
    chunks: Seq<ChunkRef>,
    pieces: Seq<Seq<u8>>,
    replies: Seq<Reply>,
) -> bool {
    forall|i: int|
        0 <= i < chunks.len() && #[trigger] is_asked(have, chunks, replies, i) ==> (
        replies[i] matches Ok(b) && b@ == pieces[i])
}

proof fn lemma_supplied_progress(
    have: Map<Seq<char>, Seq<u8>>,
    chunks: Seq<ChunkRef>,
    pieces: Seq<Seq<u8>>,
    replies: Seq<Reply>,
    n: int,
)
    requires
        names_pieces(chunks, pieces),
        no_collision(pieces),
        agrees_with(have, pieces),
        is_supplied(have, chunks, pieces, replies),
        0 <= n <= chunks.len(),
    ensures
        progress(have, chunks.take(n), replies) matches Ok(p) && p.out == joined(pieces.take(n))
            && agrees_with(p.have, pieces),
    decreases n,
{
    if n > 0 {
        lemma_supplied_progress(have, chunks, pieces, replies, n - 1);
        assert(chunks.take(n).drop_last() =~= chunks.take(n - 1));
        assert(chunks.take(n).last() == chunks[n - 1]);
        assert(pieces.take(n).drop_last() =~= pieces.take(n - 1));
        assert(pieces.take(n).last() == pieces[n - 1]);
        assert(names_piece(chunks[n - 1], pieces[n - 1]));
        let p = progress(have, chunks.take(n - 1), replies)->Ok_0;
        if !p.have.contains_key(chunks[n - 1].hash@) {
            assert(is_asked(have, chunks, replies, n - 1));
        }
    } else {
        assert(pieces.take(0) =~= Seq::empty());
    }
}

/// Round trip: an index that describes an image gives that image back, if the
/// store answers with the right chunk wherever it is asked. This holds with any
/// seed whose chunks do not collide with those of the image, and with none.
pub proof fn law_round_trip(
    have: Map<Seq<char>, Seq<u8>>,
    index: ChunkIndex,
    pieces: Seq<Seq<u8>>,
    replies: Seq<Reply>,
)
    requires
        index.describes(pieces),
        no_collision(pieces),
        agrees_with(have, pieces),
        is_supplied(have, index.chunks@, pieces, replies),
    ensures
        outcome(have, index, replies) matches Ok(p) && p.out == joined(pieces),
{
    let chunks = index.chunks@;
    lemma_supplied_progress(have, chunks, pieces, replies, chunks.len() as int);
    assert(chunks.take(chunks.len() as int) =~= chunks);
    assert(pieces.take(pieces.len() as int) =~= pieces);
}

/// Round trip through a store: `reassemble` gives back the image that the index
/// describes, if the store has nothing else to answer than the right chunks.
pub proof fn law_honest_store_gives_image_back<S: Store + ?Sized>(
    index: ChunkIndex,
    store: &S,
    have: Map<Seq<char>, Seq<u8>>,
    pieces: Seq<Seq<u8>>,
    r: Result<(Vec<u8>, SyncStats), Error>,
)
    requires
        index.describes(pieces),
        no_collision(pieces),
        agrees_with(have, pieces),
        forall|i: int, reply: Reply|
            0 <= i < pieces.len() && #[trigger] can_answer(
                store,
                content_hash(pieces[i]),
                reply,
            ) ==> (reply matches Ok(b) && b@ == pieces[i]),
        exists|replies: Seq<Reply>| #[trigger] is_reassembly(index, store, have, replies, r),
    ensures
        r matches Ok((out, _)) && out@ == joined(pieces),
{
    let replies = choose|replies: Seq<Reply>| #[trigger]
        is_reassembly(index, store, have, replies, r);
    let chunks = index.chunks@;
    assert forall|i: int|
        0 <= i < chunks.len() && #[trigger] is_asked(have, chunks, replies, i) implies (
    replies[i] matches Ok(b) && b@ == pieces[i]) by {
        assert(names_piece(chunks[i], pieces[i]));
        assert(can_answer(store, content_hash(pieces[i]), replies[i]));
    }
    law_round_trip(have, index, pieces, replies);
}

/// The unique chunks among some pieces, looked up by hash, are the pieces.
proof fn lemma_map_agrees(pieces: Seq<Seq<u8>>)
    requires
        no_collision(pieces),
    ensures
        agrees_with(piece_map(pieces), pieces),
{
    let have = piece_map(pieces);
    law_pieces_are_addressed(pieces);
    assert forall|i: int|
        0 <= i < pieces.len() && have.contains_key(
            content_hash(#[trigger] pieces[i]),
        ) implies have[content_hash(pieces[i])] == pieces[i] by {
        let h = content_hash(pieces[i]);
        let j = choose|j: int| 0 <= j < pieces.len() && pieces[j] == have[h];
        assert(content_hash(pieces[j]) == h);
    }
}

/// Data that was chunked comes back from its index and a store that answers with
/// its chunks, whatever seed is at hand. No two different chunks may have the
/// same SHA-256 hash, neither within the data nor between the data and the seed.
pub proof fn law_chunk_then_reassemble<S: Store + ?Sized>(
    data: Seq<u8>,
    index: ChunkIndex,
    chunks: Map<Seq<char>, Seq<u8>>,
    store: &S,
    seed: Option<&[u8]>,
    r: Result<(Vec<u8>, SyncStats), Error>,
)
    requires
        is_chunking(data, index, chunks),
        no_collision(pieces_of(data)),
        agrees_with(seed_chunks(seed), pieces_of(data)),
        forall|hash: Seq<char>, reply: Reply|
            chunks.contains_key(hash) && #[trigger] can_answer(store, hash, reply) ==> (
            reply matches Ok(b) && b@ == chunks[hash]),
        exists|replies: Seq<Reply>| #[trigger]
            is_reassembly(index, store, seed_chunks(seed), replies, r),
    ensures
        r matches Ok((out, _)) && out@ == data,
{
    let pieces = pieces_of(data);
    law_pieces_are_addressed(pieces);
    lemma_map_agrees(pieces);
    law_honest_store_gives_image_back(index, store, seed_chunks(seed), pieces, r);
}

/// An image that is its own seed is reassembled without asking the store,
/// whatever the store would answer.
pub proof fn law_own_seed_needs_no_store(
    index: ChunkIndex,
    pieces: Seq<Seq<u8>>,
    replies: Seq<Reply>,
)
    requires
        index.describes(pieces),
        no_collision(pieces),
    ensures
        forall|i: int|
            0 <= i < index.chunks@.len() ==> !#[trigger] is_asked(
                piece_map(pieces),
                index.chunks@,
                replies,
                i,
            ),
        outcome(piece_map(pieces), index, replies) matches Ok(p) && p.out == joined(pieces)
            && p.fetched == 0 && p.reused == index.chunks@.len(),
{
    let have = piece_map(pieces);
    let chunks = index.chunks@;
    law_pieces_are_addressed(pieces);
    assert forall|i: int| 0 <= i < chunks.len() implies !#[trigger] is_asked(
        have,
        chunks,
        replies,
        i,
    ) by {
        law_asks_only_for_missing(have, chunks, replies, i);
        assert(names_piece(chunks[i], pieces[i]));
        assert(have.contains_key(content_hash(pieces[i])));
    }
    lemma_map_agrees(pieces);
    law_round_trip(have, index, pieces, replies);
    let _ = lemma_progress(have, chunks, replies);
    let missing = hashes_of(chunks).to_set().difference(have.dom());
    assert(missing =~= Set::empty()) by {
        assert forall|h: Seq<char>| hashes_of(chunks).to_set().contains(h) implies have.dom().contains(
            h,
        ) by {
            let i = choose|i: int| 0 <= i < chunks.len() && hashes_of(chunks)[i] == h;
            assert(names_piece(chunks[i], pieces[i]));
            assert(have.contains_key(content_hash(pieces[i])));
        }
    }
}

/// The store is asked for a chunk only if the seed does not hold it and no
/// earlier chunk of the index has its hash; and for each such chunk that the
/// reassembly reaches, it is asked.
pub proof fn law_asks_only_for_missing(
    have: Map<Seq<char>, Seq<u8>>,
    chunks: Seq<ChunkRef>,
    replies: Seq<Reply>,
    i: int,
)
    requires
        is_addressed(have),
        0 <= i < chunks.len(),
    ensures
        is_asked(have, chunks, replies, i) <==> {
            &&& progress(have, chunks.take(i), replies) is Ok
            &&& !have.contains_key(chunks[i].hash@)
            &&& forall|j: int| 0 <= j < i ==> (#[trigger] chunks[j]).hash@ != chunks[i].hash@
        },
{
    let first = chunks.take(i);
    let _ = lemma_progress(have, first, replies);
    let h = chunks[i].hash@;
    assert(hashes_of(first).to_set().contains(h) <==> exists|j: int|
        0 <= j < i && (#[trigger] chunks[j]).hash@ == h) by {
        if hashes_of(first).contains(h) {
            let j = choose|j: int| 0 <= j < first.len() && hashes_of(first)[j] == h;
            assert(chunks[j].hash@ == h);
        }
        if exists|j: int| 0 <= j < i && (#[trigger] chunks[j]).hash@ == h {
            let j = choose|j: int| 0 <= j < i && (#[trigger] chunks[j]).hash@ == h;
            assert(hashes_of(first)[j] == h);
        }
    }
    if let Ok(p) = progress(have, first, replies) {
        assert(p.have.contains_key(h) <==> have.dom().union(hashes_of(first).to_set()).contains(h));
    }
}

/// A reassembly gives an image that the index describes, whatever the store
/// answers, and accounts for every chunk once. It fetches as many chunks as the
/// index has distinct hashes that the seed lacks, and as many bytes as those have.
pub proof fn law_reassembly_is_faithful(
    have: Map<Seq<char>, Seq<u8>>,
    index: ChunkIndex,
    replies: Seq<Reply>,
)
    requires
        is_addressed(have),
    ensures
        outcome(have, index, replies) matches Ok(p) ==> {
            &&& exists|pieces: Seq<Seq<u8>>| #[trigger]
                index.describes(pieces) && p.out == joined(pieces)
            &&& p.reused + p.fetched == index.chunks@.len()
            &&& p.fetched == hashes_of(index.chunks@).to_set().difference(have.dom()).len()
            &&& p.bytes_fetched == missing_bytes(have.dom(), index.chunks@)
        },
{
    let pieces = lemma_progress(have, index.chunks@, replies);
    if outcome(have, index, replies) is Ok {
        assert(index.describes(pieces));
    }
}

/// Without a seed, every distinct chunk of the index is fetched once, and so are
/// its bytes.
pub proof fn law_no_seed_fetches_each_once(index: ChunkIndex, replies: Seq<Reply>)
    ensures
        outcome(Map::empty(), index, replies) matches Ok(p) ==> {
            &&& p.fetched == hashes_of(index.chunks@).to_set().len()
            &&& p.bytes_fetched == missing_bytes(Set::empty(), index.chunks@)
        },
{
    let none = Map::<Seq<char>, Seq<u8>>::empty();
    let _ = lemma_progress(none, index.chunks@, replies);
    let hashes = hashes_of(index.chunks@).to_set();
    assert(none.dom() =~= Set::empty());
    assert(hashes.difference(none.dom()) =~= hashes);
}

/// Two images that one index describes are the same image, unless two of their
/// pieces collide.
pub proof fn law_described_image_is_unique(index: ChunkIndex, p: Seq<Seq<u8>>, q: Seq<Seq<u8>>)
    requires
        index.describes(p),
        index.describes(q),
        forall|i: int|
            0 <= i < p.len() && content_hash(#[trigger] p[i]) == content_hash(q[i]) ==> p[i]
                == q[i],
    ensures
        joined(p) == joined(q),
{
    assert forall|i: int| 0 <= i < p.len() implies p[i] == q[i] by {
        assert(names_piece(index.chunks@[i], p[i]));
        assert(names_piece(index.chunks@[i], q[i]));
    }
    assert(p =~= q);
}

/// The same bytes are always cut, named and kept in the same way, so a chunk
/// that two images share has one hash, and two images with the same bytes have
/// the same index.
pub proof fn law_index_is_determined(a: ChunkIndex, b: ChunkIndex, data: Seq<u8>)
    requires
        a.describes(pieces_of(data)),
        b.describes(pieces_of(data)),
    ensures
        a.total_len == b.total_len,
        hashes_of(a.chunks@) == hashes_of(b.chunks@),
        forall|i: int| 0 <= i < a.chunks@.len() ==> (#[trigger] a.chunks@[i]).len == b.chunks@[i].len,
{
    let pieces = pieces_of(data);
    assert forall|i: int| 0 <= i < a.chunks@.len() implies (#[trigger] a.chunks@[i]).len
        == b.chunks@[i].len && a.chunks@[i].hash@ == b.chunks@[i].hash@ by {
        assert(names_piece(a.chunks@[i], pieces[i]));
        assert(names_piece(b.chunks@[i], pieces[i]));
    }
    assert(hashes_of(a.chunks@) =~= hashes_of(b.chunks@));
}

/// Joining pieces is putting them one behind the other.
pub proof fn law_joined_is_flattened(pieces: Seq<Seq<u8>>)
    ensures
        joined(pieces) == pieces.flatten(),
    decreases pieces.len(),
{
    pieces.lemma_flatten_and_flatten_alt_are_equivalent();
    if pieces.len() > 0 {
        law_joined_is_flattened(pieces.drop_last());
        pieces.drop_last().lemma_flatten_and_flatten_alt_are_equivalent();
    }
}

/// An index of data names what the chunker cuts it into with the sizes 16384, 65536
/// and 262144, cut by cut, each by the digest of all its bytes and by its length.
pub proof fn law_index_names_the_cuts(
    data: Seq<u8>,
    index: ChunkIndex,
    chunks: Map<Seq<char>, Seq<u8>>,
    i: int,
)
    requires
        is_chunking(data, index, chunks),
    ensures
        ({
            let cuts = fastcdc_cuts(data, 16384, 65536, 262144);
            &&& index.total_len == data.len()
            &&& index.chunks@.len() == cuts.len()
            &&& 0 <= i < cuts.len() ==> {
                let piece = data.subrange(cuts[i].0 as int, cuts[i].0 + cuts[i].1);
                &&& index.chunks@[i].hash@ == hex_text(sha256_of(piece))
                &&& index.chunks@[i].len == piece.len()
            }
        }),
{
    let pieces = pieces_of(data);
    if 0 <= i < pieces.len() {
        assert(names_piece(index.chunks@[i], pieces[i]));
        law_content_hash_is_the_digest(pieces[i]);
    }
}

/// The chunks that a seed has at hand are those that the chunker cuts it into with
/// the sizes 16384, 65536 and 262144, all of them, and nothing else. Without a seed
/// there are none.
pub proof fn law_seed_gives_its_chunks(s: &[u8])
    ensures
        ({
            let cuts = fastcdc_cuts(s@, 16384, 65536, 262144);
            let have = seed_chunks(Some(s));
            &&& forall|i: int|
                0 <= i < cuts.len() ==> have.contains_key(
                    hex_text(
                        sha256_of(
                            s@.subrange((#[trigger] cuts[i]).0 as int, cuts[i].0 + cuts[i].1),
                        ),
                    ),
                )
            &&& forall|h: Seq<char>| #[trigger]
                have.contains_key(h) ==> h == hex_text(sha256_of(have[h])) && exists|i: int|
                    0 <= i < cuts.len() && have[h] == s@.subrange(
                        (#[trigger] cuts[i]).0 as int,
                        cuts[i].0 + cuts[i].1,
                    )
        }),
        seed_chunks(None) == Map::<Seq<char>, Seq<u8>>::empty(),
{
    let cuts = fastcdc_cuts(s@, 16384, 65536, 262144);
    let have = seed_chunks(Some(s));
    let pieces = pieces_of(s@);
    law_pieces_are_addressed(pieces);
    assert forall|i: int| 0 <= i < cuts.len() implies have.contains_key(
        hex_text(
            sha256_of(s@.subrange((#[trigger] cuts[i]).0 as int, cuts[i].0 + cuts[i].1)),
        ),
    ) by {
        assert(have.contains_key(content_hash(pieces[i])));
    }
    assert forall|h: Seq<char>| #[trigger] have.contains_key(h) implies h == hex_text(
        sha256_of(have[h]),
    ) && exists|i: int|
        0 <= i < cuts.len() && have[h] == s@.subrange(
            (#[trigger] cuts[i]).0 as int,
            cuts[i].0 + cuts[i].1,
        ) by {
        let i = choose|i: int| 0 <= i < pieces.len() && pieces[i] == have[h];
        assert(have[h] == s@.subrange(cuts[i].0 as int, cuts[i].0 + cuts[i].1));
    }
}

/// Of pieces with one hash the first is kept.
pub proof fn law_first_piece_is_kept(pieces: Seq<Seq<u8>>, i: int)
    requires
        0 <= i < pieces.len(),
        forall|j: int|
            0 <= j < i ==> sha256_of(#[trigger] pieces[j]) != sha256_of(pieces[i]),
    ensures
        piece_map(pieces).contains_key(hex_text(sha256_of(pieces[i]))),
        piece_map(pieces)[hex_text(sha256_of(pieces[i]))] == pieces[i],
    decreases pieces.len(),
{
    let before = pieces.drop_last();
    let h = content_hash(pieces[i]);
    law_content_hash_is_the_digest(pieces[i]);
    if i < before.len() {
        assert(before[i] == pieces[i]);
        assert forall|j: int| 0 <= j < i implies sha256_of(#[trigger] before[j]) != sha256_of(
            before[i],
        ) by {
            assert(before[j] == pieces[j]);
        }
        law_first_piece_is_kept(before, i);
    } else {
        law_pieces_are_addressed(before);
        if piece_map(before).contains_key(h) {
            let j = choose|j: int| 0 <= j < before.len() && before[j] == piece_map(before)[h];
            assert(pieces[j] == before[j]);
            law_content_hash_tells_digests_apart(pieces[j], pieces[i]);
        }
    }
}

/// A reassembly fails only for a cause: the store failed for a chunk that it was
/// asked for, or answered with bytes of another digest or another length, a chunk
/// at hand has another length than the index says, or the lengths do not add up.
pub proof fn law_reassembly_fails_for_a_cause(
    have: Map<Seq<char>, Seq<u8>>,
    index: ChunkIndex,
    replies: Seq<Reply>,
)
    requires
        is_addressed(have),
        outcome(have, index, replies) is Err,
    ensures
        ({
            let e = outcome(have, index, replies)->Err_0;
            ||| exists|i: int|
                0 <= i < index.chunks@.len() && #[trigger] is_asked(
                    have,
                    index.chunks@,
                    replies,
                    i,
                ) && match replies[i] {
                    Err(x) => e == x@,
                    Ok(b) => {
                        ||| hex_text(sha256_of(b@)) != index.chunks@[i].hash@ && e
                            == ErrorView::HashMismatch(index.chunks@[i].hash@)
                        ||| hex_text(sha256_of(b@)) == index.chunks@[i].hash@ && b@.len()
                            != index.chunks@[i].len && e == ErrorView::LenMismatch(
                            index.chunks@[i].hash@,
                        )
                    },
                }
            ||| exists|i: int, piece: Seq<u8>|
                0 <= i < index.chunks@.len() && #[trigger] is_other_length(
                    index.chunks@[i],
                    piece,
                ) && e == ErrorView::LenMismatch(index.chunks@[i].hash@)
            ||| e == ErrorView::LenMismatch("total"@) && exists|pieces: Seq<Seq<u8>>| #[trigger]
                names_pieces(index.chunks@, pieces) && pieces.flatten().len() != index.total_len
        }),
{
    let chunks = index.chunks@;
    if progress(have, chunks, replies) is Err {
        lemma_failed_step(have, chunks, replies);
        let i = choose|i: int|
            0 <= i < chunks.len() && #[trigger] progress(have, chunks.take(i), replies) is Ok
                && progress(have, chunks.take(i + 1), replies) == progress(have, chunks, replies);
        let first = chunks.take(i);
        let c = chunks[i];
        assert(chunks.take(i + 1).drop_last() =~= first);
        assert(chunks.take(i + 1).last() == c);
        let p = progress(have, first, replies)->Ok_0;
        let _ = lemma_progress(have, first, replies);
        if p.have.contains_key(c.hash@) {
            law_content_hash_is_the_digest(p.have[c.hash@]);
            assert(is_other_length(chunks[i], p.have[c.hash@]));
        } else {
            assert(is_asked(have, chunks, replies, i));
        }
    } else {
        let pieces = lemma_progress(have, chunks, replies);
        law_joined_is_flattened(pieces);
        assert(names_pieces(chunks, pieces));
    }
}

/// Whether a piece has the digest that the index gives a chunk, but not the length.
pub open spec fn is_other_length(c: ChunkRef, piece: Seq<u8>) -> bool {
    hex_text(sha256_of(piece)) == c.hash@ && piece.len() != c.len
}

/// A reassembly that fails does so at one of its chunks.
proof fn lemma_failed_step(
    have: Map<Seq<char>, Seq<u8>>,
    chunks: Seq<ChunkRef>,
    replies: Seq<Reply>,
)
    requires
        progress(have, chunks, replies) is Err,
    ensures
        exists|i: int|
            0 <= i < chunks.len() && #[trigger] progress(have, chunks.take(i), replies) is Ok
                && progress(have, chunks.take(i + 1), replies) == progress(have, chunks, replies),
    decreases chunks.len(),
{
    let n = chunks.len() - 1;
    let rest = chunks.drop_last();
    assert(chunks.take(n) =~= rest);
    assert(chunks.take(n + 1) =~= chunks);
    if progress(have, rest, replies) is Err {
        lemma_failed_step(have, rest, replies);
        let i = choose|i: int|
            0 <= i < rest.len() && #[trigger] progress(have, rest.take(i), replies) is Ok
                && progress(have, rest.take(i + 1), replies) == progress(have, rest, replies);
        assert(chunks.take(i) =~= rest.take(i));
        assert(chunks.take(i + 1) =~= rest.take(i + 1));
        assert(progress(have, chunks.take(i), replies) is Ok);
    } else {
        assert(progress(have, chunks.take(n), replies) is Ok);
    }
}

/// With a seed, the store is asked for a chunk only if no chunk of the seed has its
/// hash, and no earlier chunk of the index.
pub proof fn law_store_is_not_asked_for_the_seed(
    seed: &[u8],
    chunks: Seq<ChunkRef>,
    replies: Seq<Reply>,
    i: int,
    j: int,
)
    requires
        0 <= i < chunks.len(),
        is_asked(seed_chunks(Some(seed)), chunks, replies, i),
        0 <= j < fastcdc_cuts(seed@, 16384, 65536, 262144).len(),
    ensures
        ({
            let cut = fastcdc_cuts(seed@, 16384, 65536, 262144)[j];
            chunks[i].hash@ != hex_text(sha256_of(seed@.subrange(cut.0 as int, cut.0 + cut.1)))
        }),
        forall|k: int| 0 <= k < i ==> (#[trigger] chunks[k]).hash@ != chunks[i].hash@,
{
    lemma_seed_is_addressed(Some(seed));
    law_asks_only_for_missing(seed_chunks(Some(seed)), chunks, replies, i);
    law_seed_gives_its_chunks(seed);
    let cut = fastcdc_cuts(seed@, 16384, 65536, 262144)[j];
    assert(seed_chunks(Some(seed)).contains_key(
        hex_text(sha256_of(seed@.subrange(cut.0 as int, cut.0 + cut.1))),
    ));
}

/// A chunk reference names a piece exactly if it has its digest and its length, and
/// an index describes pieces exactly if it names them all and has their total
/// length.
pub proof fn law_what_an_index_describes(index: ChunkIndex, pieces: Seq<Seq<u8>>)
    ensures
        index.describes(pieces) <==> {
            &&& index.chunks@.len() == pieces.len()
            &&& index.total_len == pieces.flatten().len()
            &&& forall|i: int|
                0 <= i < pieces.len() ==> index.chunks@[i].hash@ == hex_text(
                    sha256_of(#[trigger] pieces[i]),
                ) && index.chunks@[i].len == pieces[i].len()
        },
{
    law_joined_is_flattened(pieces);
    if index.describes(pieces) {
        assert forall|i: int| 0 <= i < pieces.len() implies index.chunks@[i].hash@ == hex_text(
            sha256_of(#[trigger] pieces[i]),
        ) && index.chunks@[i].len == pieces[i].len() by {
            assert(names_piece(index.chunks@[i], pieces[i]));
        }
    }
}

/// The bytes to fetch add up chunk by chunk: one whose hash is known, or was there
/// before, adds none, and any other adds its length.
pub proof fn law_missing_bytes_add_up(known: Set<Seq<char>>, chunks: Seq<ChunkRef>, c: ChunkRef)
    ensures
        missing_bytes(known, Seq::empty()) == 0,
        known.contains(c.hash@) ==> missing_bytes(known, chunks.push(c)) == missing_bytes(
            known,
            chunks,
        ),
        (exists|j: int| 0 <= j < chunks.len() && (#[trigger] chunks[j]).hash@ == c.hash@)
            ==> missing_bytes(known, chunks.push(c)) == missing_bytes(known, chunks),
        !known.contains(c.hash@) && (forall|j: int|
            0 <= j < chunks.len() ==> (#[trigger] chunks[j]).hash@ != c.hash@) ==> missing_bytes(
            known,
            chunks.push(c),
        ) == missing_bytes(known, chunks) + c.len,
{
    let more = chunks.push(c);
    assert(more.drop_last() =~= chunks);
    let hashes = hashes_of(chunks);
    if exists|j: int| 0 <= j < chunks.len() && (#[trigger] chunks[j]).hash@ == c.hash@ {
        let j = choose|j: int| 0 <= j < chunks.len() && (#[trigger] chunks[j]).hash@ == c.hash@;
        assert(hashes[j] == c.hash@);
    }
    if hashes.contains(c.hash@) {
        let j = choose|j: int| 0 <= j < hashes.len() && hashes[j] == c.hash@;
        assert(chunks[j].hash@ == c.hash@);
    }
}

/// A chunk at hand is put behind the image if it has the length that the index
/// says; nothing is fetched for it.
pub proof fn law_chunk_at_hand_is_reused(p: Progress, c: ChunkRef)
    ensures
        after_reuse(p, c) is Ok <==> p.have[c.hash@].len() == c.len,
        after_reuse(p, c) matches Ok(q) ==> {
            &&& q.out == p.out + p.have[c.hash@]
            &&& q.have == p.have
            &&& q.reused == p.reused + 1
            &&& q.fetched == p.fetched && q.bytes_fetched == p.bytes_fetched
        },
        after_reuse(p, c) is Err ==> after_reuse(p, c)->Err_0 == ErrorView::LenMismatch(c.hash@),
{
}

/// Bytes from the store are taken if they have the digest and the length that the
/// index says: they are put behind the image, kept, and counted.
pub proof fn law_fetched_chunk_is_checked(p: Progress, c: ChunkRef, b: Vec<u8>)
    ensures
        after_reply(p, c, Ok(b)) is Ok <==> hex_text(sha256_of(b@)) == c.hash@ && b@.len() == c.len,
        after_reply(p, c, Ok(b)) matches Ok(q) ==> {
            &&& q.out == p.out + b@
            &&& q.have == p.have.insert(c.hash@, b@)
            &&& q.reused == p.reused
            &&& q.fetched == p.fetched + 1
            &&& q.bytes_fetched == p.bytes_fetched + b@.len()
        },
        after_reply(p, c, Ok(b)) is Err ==> after_reply(p, c, Ok(b))->Err_0 == (if hex_text(
            sha256_of(b@),
        ) != c.hash@ {
            ErrorView::HashMismatch(c.hash@)
        } else {
            ErrorView::LenMismatch(c.hash@)
        }),
        forall|e: Error| #[trigger] after_reply(p, c, Err(e)) == Err::<Progress, ErrorView>(e@),
{
    law_content_hash_is_the_digest(b@);
}

/// What a reassembly returns is its outcome for the replies, and each reply is one
/// that the store gave for the hash that it was asked for.
pub proof fn law_reassembly_returns_its_outcome<S: Store + ?Sized>(
    index: ChunkIndex,
    store: &S,
    have: Map<Seq<char>, Seq<u8>>,
    replies: Seq<Reply>,
    r: Result<(Vec<u8>, SyncStats), Error>,
    i: int,
)
    requires
        is_reassembly(index, store, have, replies, r),
    ensures
        r matches Err(e) ==> outcome(have, index, replies) == Err::<Progress, ErrorView>(e@),
        r matches Ok((out, stats)) ==> {
            &&& outcome(have, index, replies) matches Ok(p)
            &&& out@ == p.out && out@.len() == index.total_len
            &&& stats.reused == p.reused && stats.fetched == p.fetched && stats.bytes_fetched
                == p.bytes_fetched
        },
        0 <= i < index.chunks@.len() && is_asked(have, index.chunks@, replies, i) ==> exists|h: &str|
            h@ == index.chunks@[i].hash@ && #[trigger] call_ensures(
                S::get,
                (store, h),
                replies[i],
            ),
{
}

/// An error stands for itself, with its text.
pub proof fn law_errors_stand_for_themselves(e: Error)
    ensures
        match e {
            Error::Io(x) => e@ == ErrorView::Io(x),
            Error::NotFound(h) => e@ == ErrorView::NotFound(h@),
            Error::HashMismatch(h) => e@ == ErrorView::HashMismatch(h@),
            Error::LenMismatch(h) => e@ == ErrorView::LenMismatch(h@),
        },
{
}

/// An I/O error becomes the error of that kind.
pub proof fn law_io_errors_are_carried(e: std::io::Error)
    ensures
        <Error as FromSpec<std::io::Error>>::obeys_from_spec(),
        <Error as FromSpec<std::io::Error>>::from_spec(e) == Error::Io(e),
{
}

/// What is said of an I/O error is a text of the system behind `io: `.
pub proof fn law_io_message(e: std::io::Error, inner: Seq<char>)
    requires
        is_io_text(e, inner),
    ensures
        is_io_message(e, "io: "@ + inner),
        forall|t: Seq<char>| #[trigger] is_io_message(e, t) ==> "io: "@.is_prefix_of(t),
{
    assert forall|t: Seq<char>| #[trigger] is_io_message(e, t) implies "io: "@.is_prefix_of(t) by {
        let said = choose|said: Seq<char>| #[trigger] is_io_text(e, said) && t == "io: "@ + said;
        assert("io: "@ =~= t.subrange(0, "io: "@.len() as int));
    }
}

} // verus!
