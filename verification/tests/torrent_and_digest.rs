use bitchord::digest::{generate_id_from_ip, hex_sha1, routing_key_from_hash, search_key};
use bitchord::discovery::{find_node, should_answer, tcp_address, JOIN_REPLY, JOIN_REQUEST};
use bitchord::message::Message;
use bitchord::node::{Node, NodeInfo};
use bitchord::store::Store;
use bitchord::torrent::{
    bitchord_from_meta, chunk_from_reply, create_torrent_meta, meta_from_reply, prepare_upload,
    register_download, remove_seeder, Download, DownloadError, DownloadStep, FetchError,
    TorrentMeta, CHUNK_SIZE, leave_cleanup, leave_with_cleanup, cleanup_updates, upload_name, upload_outcome, UploadError,
};
use sha1::Digest;

fn s(x: &str) -> String {
    x.to_string()
}

fn sha1_hex(data: &[u8]) -> String {
    hex::encode(sha1::Sha1::digest(data))
}

#[test]
fn search_key_of_known_text() {
    let (h, id) = search_key("hello world");
    assert_eq!(h, "2aae6c35c94fcfb415dbe95f408b9ce91ee846ed");
    assert_eq!(id, 0x2a);
}

#[test]
fn hex_sha1_of_empty_input() {
    assert_eq!(hex_sha1(&[]), "da39a3ee5e6b4b0d3255bfef95601890afd80709");
}

#[test]
fn member_id_is_first_byte_of_ip_digest() {
    assert_eq!(generate_id_from_ip("hello world"), 0x2a);
    let d = sha1::Sha1::digest(b"192.168.0.7");
    assert_eq!(generate_id_from_ip("192.168.0.7"), d[0]);
}

#[test]
fn routing_key_reads_two_hex_digits() {
    assert_eq!(routing_key_from_hash("a3ff"), Some(163));
    assert_eq!(routing_key_from_hash("AB"), Some(171));
    assert_eq!(routing_key_from_hash("00"), Some(0));
    assert_eq!(routing_key_from_hash("+f"), Some(15));
    assert_eq!(routing_key_from_hash("zz"), None);
    assert_eq!(routing_key_from_hash("-1"), None);
    assert_eq!(routing_key_from_hash("++"), None);
    // A two-byte character fills the slice and is not a digit.
    assert_eq!(routing_key_from_hash("é9"), None);
}

#[test]
fn routing_key_matches_search_key() {
    for name in ["hello world", "movie.mkv", "a", ""] {
        let (h, id) = search_key(name);
        assert_eq!(routing_key_from_hash(&h), Some(id));
    }
}

#[test]
fn tcp_address_adds_port() {
    assert_eq!(tcp_address("192.168.0.7"), "192.168.0.7:8000");
}

#[test]
fn find_node_alone_or_with_successor() {
    let n = find_node("127.0.0.1", None);
    assert_eq!(n.id, generate_id_from_ip("127.0.0.1"));
    assert_eq!(n.info.address, "127.0.0.1:8000");
    assert_eq!(n.successor, n.info);
    let other = NodeInfo { id: 9, address: s("x:8000") };
    let n = find_node("127.0.0.1", Some(Message::SuccessorResponse { node: other.clone() }));
    assert_eq!(n.successor, other);
    let n = find_node("127.0.0.1", Some(Message::Ack));
    assert_eq!(n.successor, n.info);
}

#[test]
fn join_requests_are_answered_unless_own() {
    assert!(should_answer(JOIN_REQUEST, false));
    assert!(!should_answer(JOIN_REQUEST, true));
    assert!(!should_answer(JOIN_REPLY, false));
    assert!(!should_answer("PING_CHORD_JOIN ", false));
}

#[test]
fn create_torrent_meta_of_empty_file() {
    let m = create_torrent_meta("empty.txt", &[]);
    assert_eq!(m.file_name, "empty.txt");
    assert_eq!(m.total_size, 0);
    assert!(m.chunk_hashes.is_empty());
    assert!(m.seeders.is_empty());
    assert_eq!(m.file_hash, sha1_hex(b"empty.txt"));
    assert_eq!(m.routing_id, sha1::Sha1::digest(b"empty.txt")[0]);
}

#[test]
fn create_torrent_meta_splits_into_chunks() {
    let contents: Vec<u8> = (0..(2 * CHUNK_SIZE + 5)).map(|i| (i % 251) as u8).collect();
    let m = create_torrent_meta("f.bin", &contents);
    assert_eq!(m.total_size, contents.len() as u64);
    assert_eq!(m.chunk_hashes.len(), 3);
    assert_eq!(m.chunk_hashes[0], sha1_hex(&contents[..CHUNK_SIZE]));
    assert_eq!(m.chunk_hashes[1], sha1_hex(&contents[CHUNK_SIZE..2 * CHUNK_SIZE]));
    assert_eq!(m.chunk_hashes[2], sha1_hex(&contents[2 * CHUNK_SIZE..]));
    let exact: Vec<u8> = vec![7; CHUNK_SIZE];
    assert_eq!(create_torrent_meta("g", &exact).chunk_hashes.len(), 1);
}

#[test]
fn prepare_upload_registers_seeder() {
    let mut n = Node::new(5, s("10.0.0.5:8000"));
    let (key, meta) = prepare_upload(&mut n, s("/home/u/movie.mkv"), "movie.mkv", b"data");
    assert_eq!(key, meta.routing_id);
    assert_eq!(key, search_key("movie.mkv").1);
    assert_eq!(meta.file_hash, search_key("movie.mkv").0);
    assert_eq!(meta.seeders, vec![s("10.0.0.5:8000")]);
    assert_eq!(n.seeding_files.get(&meta.file_hash), Some(s("/home/u/movie.mkv")));
}

#[test]
fn bitchord_file_copies_meta() {
    let m = create_torrent_meta("f.bin", b"abc");
    let b = bitchord_from_meta(&m);
    assert_eq!(b.version, 1);
    assert_eq!(b.file_name, "f.bin");
    assert_eq!(b.file_size, 3);
    assert_eq!(b.file_hash, m.file_hash);
    assert_eq!(b.piece_size, CHUNK_SIZE);
    assert_eq!(b.piece_hashes, m.chunk_hashes);
}

#[test]
fn meta_reply_outcomes() {
    assert_eq!(meta_from_reply(Message::DataResponse { value: Some(s("{}")) }), Ok(s("{}")));
    assert_eq!(meta_from_reply(Message::DataResponse { value: None }), Err(FetchError::NotFound));
    assert_eq!(meta_from_reply(Message::Ack), Err(FetchError::UnexpectedReply));
}

#[test]
fn chunk_reply_outcomes() {
    assert_eq!(chunk_from_reply(Message::ChunkData { data: vec![4, 5] }), Some(vec![4, 5]));
    assert_eq!(chunk_from_reply(Message::Ack), None);
}

fn meta_for(contents: &[u8], seeders: &[&str]) -> TorrentMeta {
    let mut m = create_torrent_meta("file", contents);
    m.seeders = seeders.iter().map(|x| s(x)).collect();
    m
}

#[test]
fn download_without_seeders_is_refused() {
    assert_eq!(Download::new(meta_for(b"abc", &[])).err(), Some(DownloadError::NoSeeders));
}

#[test]
fn download_round_robin_and_verifies_hashes() {
    let contents: Vec<u8> = (0..(CHUNK_SIZE + 10)).map(|i| (i % 7) as u8).collect();
    let mut d = Download::new(meta_for(&contents, &["s0", "s1"])).unwrap();
    assert_eq!(d.next_step(), DownloadStep::Request { seeder: s("s0"), chunk_index: 0 });
    // A corrupted chunk is refused and the next seeder is asked.
    d.on_chunk(Some(vec![1, 2, 3]));
    assert_eq!(d.next_step(), DownloadStep::Request { seeder: s("s1"), chunk_index: 0 });
    d.on_chunk(Some(contents[..CHUNK_SIZE].to_vec()));
    // Chunk 1 is first asked of seeder 1.
    assert_eq!(d.next_step(), DownloadStep::Request { seeder: s("s1"), chunk_index: 1 });
    d.on_chunk(None);
    assert_eq!(d.next_step(), DownloadStep::Request { seeder: s("s0"), chunk_index: 1 });
    d.on_chunk(Some(contents[CHUNK_SIZE..].to_vec()));
    assert_eq!(d.next_step(), DownloadStep::Complete);
    assert_eq!(d.finish(), contents);
}

#[test]
fn download_fails_when_every_seeder_fails() {
    let mut d = Download::new(meta_for(b"abc", &["s0", "s1"])).unwrap();
    d.on_chunk(None);
    d.on_chunk(Some(b"abd".to_vec()));
    assert_eq!(d.next_step(), DownloadStep::Failed(DownloadError::ChunkUnavailable(0)));
}

#[test]
fn download_of_empty_file_completes_at_once() {
    let d = Download::new(meta_for(b"", &["s0"])).unwrap();
    assert_eq!(d.next_step(), DownloadStep::Complete);
    assert!(d.finish().is_empty());
}

#[test]
fn register_download_adds_seeder_once() {
    let mut n = Node::new(5, s("me:8000"));
    let mut m = meta_for(b"abc", &["s0"]);
    register_download(&mut n, &mut m, s("/dl/file"));
    assert_eq!(m.seeders, vec![s("s0"), s("me:8000")]);
    register_download(&mut n, &mut m, s("/dl/file2"));
    assert_eq!(m.seeders, vec![s("s0"), s("me:8000")]);
    assert_eq!(n.seeding_files.get(&m.file_hash), Some(s("/dl/file2")));
}

#[test]
fn remove_seeder_drops_every_listing() {
    let mut m = meta_for(b"abc", &["a", "me", "b", "me"]);
    remove_seeder(&mut m, &s("me"));
    assert_eq!(m.seeders, vec![s("a"), s("b")]);
}

#[test]
fn store_insert_get_merge_keys() {
    let mut st = Store::new();
    st.insert(s("a"), s("1"));
    st.insert(s("b"), s("2"));
    st.insert(s("a"), s("3"));
    assert_eq!(st.entries, vec![(s("a"), s("3")), (s("b"), s("2"))]);
    assert_eq!(st.find(&s("b")), Some(1));
    assert_eq!(st.get(&s("c")), None);
    st.merge(vec![(s("c"), s("4")), (s("c"), s("5"))]);
    assert_eq!(st.get(&s("c")), Some(s("5")));
    assert_eq!(st.keys(), vec![s("a"), s("b"), s("c")]);
    let mut out = vec![s("x")];
    st.push_values(&mut out);
    assert_eq!(out, vec![s("x"), s("3"), s("2"), s("5")]);
    st.clear();
    assert!(st.is_empty());
}

#[test]
fn upload_name_falls_back() {
    assert_eq!(upload_name(Some(s("a.txt"))), "a.txt");
    assert_eq!(upload_name(None), "arquivo_desconhecido");
}

#[test]
fn upload_confirmed_only_by_ack() {
    assert_eq!(upload_outcome(7, &Message::Ack), Ok(()));
    assert_eq!(upload_outcome(7, &Message::Pong), Err(UploadError::NotConfirmed(7)));
}

#[test]
fn leave_cleanup_lists_seeded_files_with_keys() {
    let mut n = Node::new(5, s("me:8000"));
    n.seeding_files.insert(s("a3ff"), s("/x"));
    n.seeding_files.insert(s("zz"), s("/y"));
    n.seeding_files.insert(s("é"), s("/z"));
    n.seeding_files.insert(s("0b"), s("/w"));
    n.seeding_files.insert(s("x"), s("/v"));
    assert_eq!(leave_cleanup(&n), vec![(s("a3ff"), 163), (s("0b"), 11)]);
}

#[test]
fn leaving_republishes_metadata_without_this_seeder() {
    let mut n = Node::new(5, s("me:8000"));
    n.successor = NodeInfo { id: 9, address: s("succ:8000") };
    n.seeding_files.insert(s("a3ff"), s("/x"));
    n.seeding_files.insert(s("0b"), s("/y"));
    n.storage.insert(s("k"), s("v"));
    let m = meta_for(b"abc", &["other", "me:8000", "me:8000"]);
    let updates = cleanup_updates(&n, vec![Some(m.clone()), None]);
    assert_eq!(updates.len(), 2);
    let (key, updated) = updates[0].clone().unwrap();
    assert_eq!(key, 163);
    assert_eq!(updated.seeders, vec![s("other")]);
    assert_eq!(updated.chunk_hashes, m.chunk_hashes);
    assert!(updates[1].is_none());
    let (updates, out) = leave_with_cleanup(&mut n, vec![None, Some(m)]);
    assert!(updates[0].is_none());
    assert_eq!(updates[1].clone().unwrap().0, 11);
    assert_eq!(updates[1].clone().unwrap().1.seeders, vec![s("other")]);
    assert_eq!(out.len(), 2);
    assert_eq!(out[0].address, "succ:8000");
    assert_eq!(n.successor, n.info);
    assert!(n.storage.is_empty());
}
