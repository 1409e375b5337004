//! Torrent metadata and the file-sharing steps: describing a file, publishing
//! it, finding its metadata, and downloading it chunk by chunk.
use vstd::prelude::*;
use vstd::string::*;
use vstd::utf8::*;
use vstd::slice::slice_subrange;
use crate::digest::{
    hex_of, hex_sha1, lemma_hex_key_roundtrip, name_hash, name_ring_id, parse_hex_pair,
    routing_key_from_hash, search_key, sha1_digest,
};
use crate::message::Message;
use crate::node::Node;
use crate::store::inserted;

verus! {

/// Files are shared in pieces of 256 KiB.
pub const CHUNK_SIZE: usize = 262144;

/// What the ring stores about a shared file.
#[derive(Debug, Clone, PartialEq, Eq)]
pub struct TorrentMeta {
    pub file_name: String,
    pub total_size: u64,
    /// Hex SHA-1 of the file name: the key the metadata is stored under.
    pub file_hash: String,
    /// The ring identifier responsible for the metadata.
    pub routing_id: u8,
    /// Hex SHA-1 of each chunk, in order.
    pub chunk_hashes: Vec<String>,
    /// Addresses of members that serve the file.
    pub seeders: Vec<String>,
}

/// The contents of a `.bitchord` file.
#[derive(Debug, Clone, PartialEq, Eq)]
pub struct BitChordFile {
    pub version: u32,
    pub file_name: String,
    pub file_size: u64,
    pub file_hash: String,
    pub piece_size: usize,
    pub piece_hashes: Vec<String>,
}

/// `n` chunks of `CHUNK_SIZE` bytes cover `len` bytes, and no fewer would.
pub open spec fn is_chunk_count(n: int, len: int) -> bool {
    &&& n * CHUNK_SIZE >= len
    &&& (n == 0 || (n - 1) * CHUNK_SIZE < len)
}

/// Chunk `k` of `contents`: the bytes from `k * CHUNK_SIZE`, at most `CHUNK_SIZE` of them.
pub open spec fn chunk_at(contents: Seq<u8>, k: int) -> Seq<u8> {
    let start: int = k * CHUNK_SIZE;
    let end: int = if (k + 1) * CHUNK_SIZE <= contents.len() {
        (k + 1) * CHUNK_SIZE
    } else {
        contents.len() as int
    };
    contents.subrange(start, end)
}

/// The hex SHA-1 of a chunk, as the metadata lists it.
pub open spec fn chunk_hash(chunk: Seq<u8>) -> Seq<char> {
    hex_of(sha1_digest(chunk))
}

/// `meta` describes the file `file_name` with `contents`, apart from its seeders.
pub open spec fn describes(meta: TorrentMeta, file_name: Seq<char>, contents: Seq<u8>) -> bool {
    &&& meta.file_name@ == file_name
    &&& meta.total_size == contents.len()
    &&& meta.file_hash@ == name_hash(file_name)
    &&& meta.file_hash@.len() == 40
    &&& meta.routing_id == name_ring_id(file_name)
    &&& is_chunk_count(meta.chunk_hashes@.len() as int, contents.len() as int)
    &&& forall|k: int|
        0 <= k < meta.chunk_hashes@.len() ==> (#[trigger] meta.chunk_hashes@[k])@ == chunk_hash(
            chunk_at(contents, k),
        )
}

/// Describes the file `file_name` whose bytes are `contents`: its size, the key
/// of its name, and the hash of every chunk. No one seeds it yet.
pub fn create_torrent_meta(file_name: &str, contents: &[u8]) -> (meta: TorrentMeta)
    ensures
        describes(meta, file_name@, contents@),
        meta.seeders@.len() == 0,
{
    let len: usize = contents.len();
    let mut chunk_hashes: Vec<String> = Vec::new();
    if len > 0 {
        let mut start: usize = 0;
        loop
            invariant_except_break
                start == chunk_hashes@.len() * CHUNK_SIZE,
                start < len,
            invariant
                len == contents@.len(),
                forall|k: int|
                    0 <= k < chunk_hashes@.len() ==> (#[trigger] chunk_hashes@[k])@ == chunk_hash(
                        chunk_at(contents@, k),
                    ),
            ensures
                is_chunk_count(chunk_hashes@.len() as int, len as int),
            decreases len - start,
        {
            let end: usize = if len - start > CHUNK_SIZE {
                start + CHUNK_SIZE
            } else {
                len
            };
            let k: usize = chunk_hashes.len();
            let piece = slice_subrange(contents, start, end);
            assert(piece@ == chunk_at(contents@, k as int));
            chunk_hashes.push(hex_sha1(piece));
            if end == len {
                break;
            }
            start = end;
        }
    }
    let (file_hash, routing_id) = search_key(file_name);
    TorrentMeta {
        file_name: String::from_str(file_name),
        total_size: len as u64,
        file_hash,
        routing_id,
        chunk_hashes,
        seeders: Vec::new(),
    }
}

/// The first `m` chunks of `contents` put back together are its first
/// `min(m * CHUNK_SIZE, len)` bytes.
proof fn lemma_chunks_prefix(contents: Seq<u8>, m: int)
    requires
        0 <= m,
        m == 0 || (m - 1) * CHUNK_SIZE < contents.len(),
    ensures
        Seq::new(m as nat, |k: int| chunk_at(contents, k)).flatten() == contents.take(
            if m * CHUNK_SIZE <= contents.len() {
                m * CHUNK_SIZE
            } else {
                contents.len() as int
            },
        ),
    decreases m,
{
    let f = |k: int| chunk_at(contents, k);
    if m == 0 {
        assert(Seq::new(0, f) =~= Seq::<Seq<u8>>::empty());
        assert(contents.take(0) =~= Seq::<u8>::empty());
    } else {
        lemma_chunks_prefix(contents, m - 1);
        let prev = Seq::new((m - 1) as nat, f);
        assert(Seq::new(m as nat, f) =~= prev.push(chunk_at(contents, m - 1)));
        prev.lemma_flatten_push(chunk_at(contents, m - 1));
        let a: int = (m - 1) * CHUNK_SIZE;
        let b: int = if m * CHUNK_SIZE <= contents.len() {
            m * CHUNK_SIZE
        } else {
            contents.len() as int
        };
        assert(contents.take(a) + contents.subrange(a, b) =~= contents.take(b));
    }
}

/// The chunks of `contents` put back together give `contents`.
pub proof fn lemma_chunks_cover(contents: Seq<u8>, n: int)
    requires
        0 <= n,
        is_chunk_count(n, contents.len() as int),
    ensures
        Seq::new(n as nat, |k: int| chunk_at(contents, k)).flatten() == contents,
{
    lemma_chunks_prefix(contents, n);
    assert(contents.take(contents.len() as int) =~= contents);
}

/// Prepares publishing the file at `file_path`, named `file_name`, whose bytes
/// are `contents`: describes it, lists this member as its seeder, and records
/// that this member serves it from `file_path`. Returns the ring key the
/// metadata goes to (read back from the hex hash of the name) and the metadata.
pub fn prepare_upload(node: &mut Node, file_path: String, file_name: &str, contents: &[u8]) -> (r: (u8, TorrentMeta))
    requires
        old(node).wf(),
    ensures
        final(node).wf(),
        r.0 == name_ring_id(file_name@),
        r.0 == r.1.routing_id,
        describes(r.1, file_name@, contents@),
        r.1.seeders@ == seq![old(node).info.address],
        final(node).seeding_files.entries@ == inserted(
            old(node).seeding_files.entries@,
            r.1.file_hash,
            file_path,
        ),
        final(node).id == old(node).id,
        final(node).info == old(node).info,
        final(node).successor == old(node).successor,
        final(node).predecessor == old(node).predecessor,
        final(node).fingers@ == old(node).fingers@,
        final(node).next_finger == old(node).next_finger,
        final(node).storage.entries@ == old(node).storage.entries@,
{
    let mut meta = create_torrent_meta(file_name, contents);
    proof {
        crate::digest::lemma_hex_of(sha1_digest(file_name.spec_bytes()));
        lemma_hex_key_roundtrip(sha1_digest(file_name.spec_bytes()));
    }
    let key_id: u8 = routing_key_from_hash(meta.file_hash.as_str()).unwrap();
    meta.seeders.push(node.info.address.clone());
    node.seeding_files.insert(meta.file_hash.clone(), file_path);
    (key_id, meta)
}

/// The `.bitchord` description of the file `meta` describes.
pub fn bitchord_from_meta(meta: &TorrentMeta) -> (b: BitChordFile)
    ensures
        b.version == 1,
        b.file_name == meta.file_name,
        b.file_size == meta.total_size,
        b.file_hash == meta.file_hash,
        b.piece_size == CHUNK_SIZE,
        b.piece_hashes@ == meta.chunk_hashes@,
{
    BitChordFile {
        version: 1,
        file_name: meta.file_name.clone(),
        file_size: meta.total_size,
        file_hash: meta.file_hash.clone(),
        piece_size: CHUNK_SIZE,
        piece_hashes: meta.chunk_hashes.clone(),
    }
}

/// Why metadata could not be fetched.
#[derive(Debug, PartialEq, Eq)]
pub enum FetchError {
    /// The responsible member holds nothing under the key.
    NotFound,
    /// The responsible member answered with something else than data.
    UnexpectedReply,
}

/// The serialised metadata in the answer to `GetData`.
pub fn meta_from_reply(reply: Message) -> (r: Result<String, FetchError>)
    ensures
        r == (match reply {
            Message::DataResponse { value: Some(data) } => Ok(data),
            Message::DataResponse { value: None } => Err(FetchError::NotFound),
            _ => Err(FetchError::UnexpectedReply),
        }),
{
    match reply {
        Message::DataResponse { value: Some(data) } => Ok(data),
        Message::DataResponse { value: None } => Err(FetchError::NotFound),
        _ => Err(FetchError::UnexpectedReply),
    }
}

/// The bytes in a seeder's answer to `RequestChunk`, if it sent any.
pub fn chunk_from_reply(reply: Message) -> (r: Option<Vec<u8>>)
    ensures
        r == (match reply {
            Message::ChunkData { data } => Some(data),
            _ => None,
        }),
{
    match reply {
        Message::ChunkData { data } => Some(data),
        _ => None,
    }
}

/// Why a download stopped.
#[derive(Debug, PartialEq, Eq)]
pub enum DownloadError {
    /// The metadata names no seeder.
    NoSeeders,
    /// No seeder delivered a chunk with the expected hash.
    ChunkUnavailable(usize),
}

/// What the downloader does next.
#[derive(Debug, PartialEq, Eq)]
pub enum DownloadStep {
    /// Ask `seeder` for chunk `chunk_index` and hand the answer to `on_chunk`.
    Request { seeder: String, chunk_index: usize },
    /// Every chunk arrived and matched its hash; `finish` gives the file.
    Complete,
    /// Stop with this error.
    Failed(DownloadError),
}

/// A download in progress: chunks are fetched in order, and each is asked of
/// the seeders in turn until one delivers bytes with the expected hash. The
/// seeders take turns (round robin): chunk `k` is first asked of seeder
/// `k mod n`, then of the following ones, wrapping round.
pub struct Download {
    pub meta: TorrentMeta,
    /// The chunk being fetched.
    pub chunk: usize,
    /// How many seeders were already asked for it.
    pub seeder: usize,
    /// The accepted chunks, put together.
    pub data: Vec<u8>,
    /// The accepted chunks.
    pub accepted: Ghost<Seq<Seq<u8>>>,
}

/// The position of the seeder asked on attempt `attempt` for chunk `chunk`
/// among `n` seeders.
pub open spec fn seeder_turn(chunk: int, attempt: int, n: int) -> int {
    (chunk + attempt) % n
}

impl Download {
    /// The accepted chunks are exactly the first `chunk` ones, each matches its
    /// listed hash, and `data` is them put together.
    pub open spec fn wf(&self) -> bool {
        &&& self.meta.seeders@.len() > 0
        &&& self.chunk <= self.meta.chunk_hashes@.len()
        &&& self.seeder <= self.meta.seeders@.len()
        &&& self.accepted@.len() == self.chunk
        &&& self.data@ == self.accepted@.flatten()
        &&& forall|k: int|
            0 <= k < self.chunk ==> chunk_hash(#[trigger] self.accepted@[k])
                == self.meta.chunk_hashes@[k]@
    }

    /// Starts downloading the file `meta` describes; refused when no one seeds it.
    pub fn new(meta: TorrentMeta) -> (r: Result<Download, DownloadError>)
        ensures
            meta.seeders@.len() == 0 <==> r is Err,
            r matches Err(e) ==> e == DownloadError::NoSeeders,
            r matches Ok(d) ==> d.wf() && d.meta == meta && d.chunk == 0 && d.seeder == 0,
    {
        if meta.seeders.len() == 0 {
            return Err(DownloadError::NoSeeders);
        }
        let d = Download { meta, chunk: 0, seeder: 0, data: Vec::new(), accepted: Ghost(Seq::empty()) };
        assert(d.accepted@.flatten() =~= Seq::<u8>::empty());
        Ok(d)
    }

    /// The next thing to do.
    pub fn next_step(&self) -> (r: DownloadStep)
        requires
            self.wf(),
        ensures
            self.chunk == self.meta.chunk_hashes@.len() ==> r == DownloadStep::Complete,
            self.chunk < self.meta.chunk_hashes@.len() && self.seeder == self.meta.seeders@.len()
                ==> r == DownloadStep::Failed(DownloadError::ChunkUnavailable(self.chunk)),
            self.chunk < self.meta.chunk_hashes@.len() && self.seeder < self.meta.seeders@.len()
                ==> r == (DownloadStep::Request {
                seeder: self.meta.seeders@[seeder_turn(
                    self.chunk as int,
                    self.seeder as int,
                    self.meta.seeders@.len() as int,
                )],
                chunk_index: self.chunk,
            }),
    {
        if self.chunk == self.meta.chunk_hashes.len() {
            DownloadStep::Complete
        } else if self.seeder == self.meta.seeders.len() {
            DownloadStep::Failed(DownloadError::ChunkUnavailable(self.chunk))
        } else {
            let n: usize = self.meta.seeders.len();
            let first: usize = self.chunk % n;
            let turn: usize = if self.seeder < n - first {
                first + self.seeder
            } else {
                self.seeder - (n - first)
            };
            proof {
                let c: int = self.chunk as int;
                let a: int = self.seeder as int;
                let m: int = n as int;
                vstd::arithmetic::div_mod::lemma_add_mod_noop(c, a, m);
                vstd::arithmetic::div_mod::lemma_small_mod(a as nat, m as nat);
                assert(first as int == c % m);
                if a < m - first {
                    vstd::arithmetic::div_mod::lemma_small_mod((first + a) as nat, m as nat);
                } else {
                    vstd::arithmetic::div_mod::lemma_mod_add_multiples_vanish(first + a - m, m);
                    vstd::arithmetic::div_mod::lemma_small_mod((first + a - m) as nat, m as nat);
                }
                assert(turn == seeder_turn(c, a, m));
            }
            DownloadStep::Request { seeder: self.meta.seeders[turn].clone(), chunk_index: self.chunk }
        }
    }

    /// Takes the answer of the seeder just asked: bytes whose hash matches the
    /// current chunk's are kept and the next chunk is asked of the first seeder;
    /// anything else (no answer, or a wrong hash) moves on to the next seeder.
    pub fn on_chunk(&mut self, got: Option<Vec<u8>>)
        requires
            old(self).wf(),
        ensures
            final(self).wf(),
            final(self).meta == old(self).meta,
            ({
                let pre = *old(self);
                let post = *final(self);
                if pre.chunk < pre.meta.chunk_hashes@.len() && pre.seeder < pre.meta.seeders@.len() {
                    match got {
                        Some(d) => if chunk_hash(d@) == pre.meta.chunk_hashes@[pre.chunk as int]@ {
                            &&& post.chunk == pre.chunk + 1
                            &&& post.seeder == 0
                            &&& post.accepted@ == pre.accepted@.push(d@)
                        } else {
                            post.chunk == pre.chunk && post.seeder == pre.seeder + 1
                                && post.accepted@ == pre.accepted@
                        },
                        None => post.chunk == pre.chunk && post.seeder == pre.seeder + 1
                            && post.accepted@ == pre.accepted@,
                    }
                } else {
                    post.chunk == pre.chunk && post.seeder == pre.seeder && post.accepted@
                        == pre.accepted@
                }
            }),
    {
        if self.chunk >= self.meta.chunk_hashes.len() || self.seeder >= self.meta.seeders.len() {
            return;
        }
        match got {
            Some(mut d) => {
                let got_hash = hex_sha1(d.as_slice());
                if got_hash == self.meta.chunk_hashes[self.chunk] {
                    let ghost piece = d@;
                    proof {
                        self.accepted@.lemma_flatten_push(piece);
                    }
                    self.data.append(&mut d);
                    self.accepted = Ghost(self.accepted@.push(piece));
                    self.chunk = self.chunk + 1;
                    self.seeder = 0;
                    assert forall|k: int| 0 <= k < self.chunk implies chunk_hash(
                        #[trigger] self.accepted@[k],
                    ) == self.meta.chunk_hashes@[k]@ by {
                        if k < self.chunk - 1 {
                            assert(self.accepted@[k] == old(self).accepted@[k]);
                        }
                    }
                } else {
                    self.seeder = self.seeder + 1;
                }
            },
            None => {
                self.seeder = self.seeder + 1;
            },
        }
    }

    /// The downloaded file, once complete: the accepted chunks put together,
    /// each of which has the hash the metadata lists for it.
    pub fn finish(self) -> (r: Vec<u8>)
        requires
            self.wf(),
            self.chunk == self.meta.chunk_hashes@.len(),
        ensures
            exists|chunks: Seq<Seq<u8>>|
                {
                    &&& chunks.len() == self.meta.chunk_hashes@.len()
                    &&& r@ == chunks.flatten()
                    &&& forall|k: int|
                        0 <= k < chunks.len() ==> chunk_hash(#[trigger] chunks[k])
                            == self.meta.chunk_hashes@[k]@
                },
    {
        // The accepted chunks witness the claim.
        let ghost chunks = self.accepted@;
        self.data
    }
}

/// Searching for a file by its name asks for the key and the ring identifier
/// under which publishing stored its metadata.
pub proof fn lemma_search_finds_upload(meta: TorrentMeta, file_name: Seq<char>, contents: Seq<u8>, query: Seq<char>)
    requires
        describes(meta, file_name, contents),
        query == file_name,
    ensures
        name_hash(query) == meta.file_hash@,
        name_ring_id(query) == meta.routing_id,
{
}

/// The ring key read back from the hash in the metadata (or in the `.bitchord`
/// file made from it) is the identifier the metadata was routed to; reading it
/// never fails.
pub proof fn lemma_hash_names_routing_id(meta: TorrentMeta, file_name: Seq<char>, contents: Seq<u8>)
    requires
        describes(meta, file_name, contents),
    ensures
        is_char_boundary(encode_utf8(meta.file_hash@), 2),
        encode_utf8(meta.file_hash@).len() >= 2,
        parse_hex_pair(encode_utf8(meta.file_hash@)[0], encode_utf8(meta.file_hash@)[1]) == Some(
            meta.routing_id,
        ),
{
    let d = sha1_digest(encode_utf8(file_name));
    crate::digest::lemma_hex_of(d);
    lemma_hex_key_roundtrip(d);
}

/// Some seeder in `seeders` has the address `address`.
pub open spec fn lists_seeder(seeders: Seq<String>, address: Seq<char>) -> bool {
    exists|i: int| 0 <= i < seeders.len() && (#[trigger] seeders[i])@ == address
}

fn find_seeder(seeders: &Vec<String>, address: &String) -> (r: bool)
    ensures
        r == lists_seeder(seeders@, address@),
{
    let mut i: usize = 0;
    while i < seeders.len()
        invariant
            i <= seeders@.len(),
            forall|j: int| 0 <= j < i ==> (#[trigger] seeders@[j])@ != address@,
        decreases seeders@.len() - i,
    {
        if seeders[i] == *address {
            return true;
        }
        i = i + 1;
    }
    false
}

/// After a download saved to `saved_path` completes, this member becomes a
/// seeder of the file: it joins the metadata's seeders (once) and records
/// where it serves the file from. The caller publishes the updated metadata.
pub fn register_download(node: &mut Node, meta: &mut TorrentMeta, saved_path: String)
    requires
        old(node).wf(),
    ensures
        final(node).wf(),
        final(meta).seeders@ == if lists_seeder(old(meta).seeders@, old(node).info.address@) {
            old(meta).seeders@
        } else {
            old(meta).seeders@.push(old(node).info.address)
        },
        final(meta).file_name == old(meta).file_name,
        final(meta).total_size == old(meta).total_size,
        final(meta).file_hash == old(meta).file_hash,
        final(meta).routing_id == old(meta).routing_id,
        final(meta).chunk_hashes@ == old(meta).chunk_hashes@,
        final(node).seeding_files.entries@ == inserted(
            old(node).seeding_files.entries@,
            old(meta).file_hash,
            saved_path,
        ),
        final(node).id == old(node).id,
        final(node).info == old(node).info,
        final(node).successor == old(node).successor,
        final(node).predecessor == old(node).predecessor,
        final(node).fingers@ == old(node).fingers@,
        final(node).next_finger == old(node).next_finger,
        final(node).storage.entries@ == old(node).storage.entries@,
{
    if !find_seeder(&meta.seeders, &node.info.address) {
        meta.seeders.push(node.info.address.clone());
    }
    node.seeding_files.insert(meta.file_hash.clone(), saved_path);
}

/// Holds of the seeders whose address is not `address`.
pub open spec fn other_than(address: Seq<char>) -> spec_fn(String) -> bool {
    |s: String| s@ != address
}

/// Removing `address` from a seeder list drops exactly that address: every other
/// seeder is still listed, and `address` no longer is.
pub proof fn lemma_removal_keeps_other_seeders(seeders: Seq<String>, address: Seq<char>)
    ensures
        forall|a: Seq<char>|
            #[trigger] lists_seeder(seeders.filter(other_than(address)), a) == (lists_seeder(
                seeders,
                a,
            ) && a != address),
{
    let p = other_than(address);
    let f = seeders.filter(p);
    assert forall|a: Seq<char>| #[trigger] lists_seeder(f, a) == (lists_seeder(seeders, a) && a
        != address) by {
        if lists_seeder(f, a) {
            let k = choose|k: int| 0 <= k < f.len() && (#[trigger] f[k])@ == a;
            seeders.lemma_filter_pred(p, k);
            assert(f.contains(f[k]));
            seeders.lemma_filter_contains_rev(p, f[k]);
            let i = choose|i: int| 0 <= i < seeders.len() && seeders[i] == f[k];
            assert(seeders[i]@ == a);
        }
        if lists_seeder(seeders, a) && a != address {
            let i = choose|i: int| 0 <= i < seeders.len() && (#[trigger] seeders[i])@ == a;
            assert(p(seeders[i]));
            seeders.lemma_filter_contains(p, i);
            let k = choose|k: int| 0 <= k < f.len() && f[k] == seeders[i];
            assert(f[k]@ == a);
        }
    }
}

/// The metadata of a file this member no longer serves: every listing of
/// `address` leaves its seeders, the rest keep their order.
pub fn remove_seeder(meta: &mut TorrentMeta, address: &String)
    ensures
        final(meta).seeders@ == old(meta).seeders@.filter(other_than(address@)),
        forall|a: Seq<char>|
            #[trigger] lists_seeder(final(meta).seeders@, a) == (lists_seeder(
                old(meta).seeders@,
                a,
            ) && a != address@),
        final(meta).file_name == old(meta).file_name,
        final(meta).total_size == old(meta).total_size,
        final(meta).file_hash == old(meta).file_hash,
        final(meta).routing_id == old(meta).routing_id,
        final(meta).chunk_hashes@ == old(meta).chunk_hashes@,
{
    let mut kept: Vec<String> = Vec::new();
    let mut i: usize = 0;
    while i < meta.seeders.len()
        invariant
            i <= meta.seeders@.len(),
            kept@ == meta.seeders@.take(i as int).filter(other_than(address@)),
        decreases meta.seeders@.len() - i,
    {
        let ghost x = meta.seeders@[i as int];
        let keep = !(meta.seeders[i] == *address);
        if keep {
            kept.push(meta.seeders[i].clone());
        }
        proof {
            assert(meta.seeders@.take(i + 1) =~= meta.seeders@.take(i as int).push(x));
            meta.seeders@.take(i as int).lemma_filter_push(x, other_than(address@));
        }
        i = i + 1;
    }
    assert(meta.seeders@.take(i as int) =~= meta.seeders@);
    proof {
        lemma_removal_keeps_other_seeders(meta.seeders@, address@);
    }
    meta.seeders = kept;
}

/// Over `n` attempts for one chunk, the round robin asks every one of the `n`
/// seeders: so a chunk is reported unavailable only after each seeder was asked.
pub proof fn lemma_round_robin_asks_every_seeder(chunk: nat, n: nat, s: nat)
    requires
        s < n,
    ensures
        exists|j: int| 0 <= j < n && #[trigger] seeder_turn(chunk as int, j, n as int) == s,
{
    let m = n as int;
    let c = chunk as int % m;
    let j: int = if s >= c { s - c } else { s + m - c };
    vstd::arithmetic::div_mod::lemma_add_mod_noop(chunk as int, j, m);
    vstd::arithmetic::div_mod::lemma_small_mod(j as nat, n);
    vstd::arithmetic::div_mod::lemma_mod_bound(chunk as int, m);
    if s >= c {
        assert(c + j == s);
        vstd::arithmetic::div_mod::lemma_small_mod(s, n);
    } else {
        assert(c + j == s + m);
        vstd::arithmetic::div_mod::lemma_mod_add_multiples_vanish(s as int, m);
        vstd::arithmetic::div_mod::lemma_small_mod(s, n);
    }
    assert(seeder_turn(chunk as int, j, m) == s);
}

/// The name a file is published under: its file name, or `arquivo_desconhecido`
/// when the path has none that is valid text.
pub fn upload_name(file_name: Option<String>) -> (r: String)
    ensures
        r@ == (match file_name {
            Some(n) => n@,
            None => "arquivo_desconhecido"@,
        }),
{
    match file_name {
        Some(n) => n,
        None => String::from_str("arquivo_desconhecido"),
    }
}

/// Why publishing failed.
#[derive(Debug, PartialEq, Eq)]
pub enum UploadError {
    /// The responsible member (its identifier) did not confirm storing the metadata.
    NotConfirmed(u8),
}

/// Whether the member `target_id` confirmed storing published metadata: only
/// an `Ack` confirms it.
pub fn upload_outcome(target_id: u8, reply: &Message) -> (r: Result<(), UploadError>)
    ensures
        r == if *reply == Message::Ack {
            Ok(())
        } else {
            Err(UploadError::NotConfirmed(target_id))
        },
{
    match reply {
        Message::Ack => Ok(()),
        _ => Err(UploadError::NotConfirmed(target_id)),
    }
}

/// The ring key a seeded file's hash names, when it names one.
pub open spec fn hash_key(h: String) -> Option<u8> {
    if is_char_boundary(encode_utf8(h@), 2) {
        parse_hex_pair(encode_utf8(h@)[0], encode_utf8(h@)[1])
    } else {
        None
    }
}

/// The seeded files, in order, whose hash names a ring key, each with that key.
pub open spec fn cleanup_plan(hashes: Seq<String>) -> Seq<(String, u8)>
    decreases hashes.len(),
{
    if hashes.len() == 0 {
        Seq::empty()
    } else {
        let rest = cleanup_plan(hashes.drop_last());
        match hash_key(hashes.last()) {
            Some(k) => rest.push((hashes.last(), k)),
            None => rest,
        }
    }
}

/// The files whose metadata should forget this member when it leaves: every
/// seeded file whose hash names a ring key, with that key.
pub fn leave_cleanup(node: &Node) -> (r: Vec<(String, u8)>)
    ensures
        r@ == cleanup_plan(crate::store::keys_of(node.seeding_files.entries@)),
{
    let hashes = node.seeding_files.keys();
    let mut out: Vec<(String, u8)> = Vec::new();
    let mut i: usize = 0;
    while i < hashes.len()
        invariant
            i <= hashes@.len(),
            out@ == cleanup_plan(hashes@.take(i as int)),
        decreases hashes@.len() - i,
    {
        let h = &hashes[i];
        assert(hashes@.take(i + 1).drop_last() =~= hashes@.take(i as int));
        assert(hashes@.take(i + 1).last() == hashes@[i as int]);
        if h.as_str().is_char_boundary(2) {
            match routing_key_from_hash(h.as_str()) {
                Some(k) => out.push((h.clone(), k)),
                None => {},
            }
        }
        i = i + 1;
    }
    assert(hashes@.take(i as int) =~= hashes@);
    out
}

/// `new` is `orig` with every listing of `address` gone from its seeders.
pub open spec fn unseeded(orig: TorrentMeta, new: TorrentMeta, address: Seq<char>) -> bool {
    &&& new.seeders@ == orig.seeders@.filter(other_than(address))
    &&& forall|a: Seq<char>|
        #[trigger] lists_seeder(new.seeders@, a) == (lists_seeder(orig.seeders@, a) && a != address)
    &&& new.file_name == orig.file_name
    &&& new.total_size == orig.total_size
    &&& new.file_hash == orig.file_hash
    &&& new.routing_id == orig.routing_id
    &&& new.chunk_hashes@ == orig.chunk_hashes@
}

/// What a leaving member publishes again for the files it seeds: for each
/// planned file (see `leave_cleanup`) whose metadata was fetched, that file's
/// ring key and its metadata without this member among the seeders.
pub open spec fn cleanup_updates_ok(
    plan: Seq<(String, u8)>,
    fetched: Seq<Option<TorrentMeta>>,
    address: Seq<char>,
    r: Seq<Option<(u8, TorrentMeta)>>,
) -> bool {
    &&& r.len() == fetched.len()
    &&& forall|i: int|
        0 <= i < r.len() ==> match #[trigger] fetched[i] {
            None => r[i] is None,
            Some(m) => r[i] matches Some(u) && u.0 == plan[i].1 && unseeded(m, u.1, address),
        }
}

/// Removing `address` from the seeders leaves no listing of it.
pub proof fn lemma_unseeded_lists_no_address(orig: TorrentMeta, new: TorrentMeta, address: Seq<char>)
    requires
        unseeded(orig, new, address),
    ensures
        forall|k: int| 0 <= k < new.seeders@.len() ==> (#[trigger] new.seeders@[k])@ != address,
{
    assert forall|k: int| 0 <= k < new.seeders@.len() implies (#[trigger] new.seeders@[k])@
        != address by {
        orig.seeders@.lemma_filter_pred(other_than(address), k);
    }
}

/// The seeder cleanup of a leaving member, given the metadata fetched for each
/// file of `leave_cleanup` (`None` where none could be fetched).
pub fn cleanup_updates(node: &Node, fetched: Vec<Option<TorrentMeta>>) -> (r: Vec<Option<(u8, TorrentMeta)>>)
    requires
        fetched@.len() == cleanup_plan(crate::store::keys_of(node.seeding_files.entries@)).len(),
    ensures
        cleanup_updates_ok(
            cleanup_plan(crate::store::keys_of(node.seeding_files.entries@)),
            fetched@,
            node.info.address@,
            r@,
        ),
{
    let plan = leave_cleanup(node);
    let ghost orig = fetched@;
    let mut rest = fetched;
    let mut out: Vec<Option<(u8, TorrentMeta)>> = Vec::new();
    let total: usize = rest.len();
    let mut i: usize = 0;
    while rest.len() > 0
        invariant
            total == orig.len(),
            plan@.len() == orig.len(),
            i + rest@.len() == orig.len(),
            rest@ == orig.skip(i as int),
            out@.len() == i,
            forall|j: int|
                0 <= j < i ==> match #[trigger] orig[j] {
                    None => out@[j] is None,
                    Some(m) => out@[j] matches Some(u) && u.0 == plan@[j].1 && unseeded(
                        m,
                        u.1,
                        node.info.address@,
                    ),
                },
        decreases rest@.len(),
    {
        let item = rest.remove(0);
        assert(item == orig[i as int]);
        match item {
            None => out.push(None),
            Some(mut m) => {
                remove_seeder(&mut m, &node.info.address);
                out.push(Some((plan[i].1, m)));
            },
        }
        assert(rest@ =~= orig.skip(i + 1));
        i = i + 1;
    }
    out
}

/// Leaving the ring with its seeder cleanup: returns the metadata to publish
/// again, without this member among its seeders (see `cleanup_updates`), and
/// the hand-over messages of `leave_ring`, and leaves this member alone.
pub fn leave_with_cleanup(node: &mut Node, fetched: Vec<Option<TorrentMeta>>) -> (r: (
    Vec<Option<(u8, TorrentMeta)>>,
    Vec<crate::message::Outgoing>,
))
    requires
        old(node).wf(),
        fetched@.len() == cleanup_plan(crate::store::keys_of(old(node).seeding_files.entries@)).len(),
    ensures
        cleanup_updates_ok(
            cleanup_plan(crate::store::keys_of(old(node).seeding_files.entries@)),
            fetched@,
            old(node).info.address@,
            r.0@,
        ),
        forall|i: int, k: int|
            0 <= i < r.0@.len() && r.0@[i] is Some && 0 <= k < r.0@[i]->Some_0.1.seeders@.len()
                ==> (#[trigger] r.0@[i]->Some_0.1.seeders@[k])@ != old(node).info.address@,
        r.1@ == crate::chord::leave_messages(*old(node)),
        final(node).wf(),
        final(node).successor == old(node).info,
        final(node).predecessor is None,
        final(node).storage.entries@.len() == 0,
        final(node).id == old(node).id,
        final(node).info == old(node).info,
        final(node).fingers@ == old(node).fingers@,
        final(node).next_finger == old(node).next_finger,
        final(node).seeding_files.entries@ == old(node).seeding_files.entries@,
{
    let updates = cleanup_updates(node, fetched);
    let ghost plan = cleanup_plan(crate::store::keys_of(node.seeding_files.entries@));
    let ghost address = node.info.address@;
    assert forall|i: int, k: int|
        0 <= i < updates@.len() && updates@[i] is Some && 0 <= k < updates@[i]->Some_0.1.seeders@.len()
            implies (#[trigger] updates@[i]->Some_0.1.seeders@[k])@ != address by {
        let m = fetched@[i]->Some_0;
        assert(fetched@[i] is Some);
        lemma_unseeded_lists_no_address(m, updates@[i]->Some_0.1, address);
    }
    let out = crate::chord::leave_ring(node);
    (updates, out)
}

} // verus!
