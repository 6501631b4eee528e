use sharself::common::error::Error;
use sharself::torrent::bencode::{encode_int, encode_string, BencodeDict, BencodeValue};
use sharself::torrent::downloader::{checked_piece_download_size, download_plan, piece_download_size, PieceDownload};
use sharself::torrent::metadata::{
    check_metadata_length, frame_metadata, metadata_request, not_found_frame, parse_metadata_request,
    MetadataServer,
};
use sharself::torrent::metainfo::{TorrentFile, TorrentMetaInfo};
use sharself::torrent::peer::{generate_peer_id, parse_bitmap, record_have, sort_indices, PeerView};
use sharself::torrent::piece::{Piece, PieceManager, PieceState};
use sharself::torrent::protocol::{Handshake, Message};
use sharself::torrent::seeder::{check_handshake, check_peer, is_allowed, reply_to, serve_block, SeederReply};

#[test]
fn bencode_known_encodings() {
    assert_eq!(encode_string("spam"), b"4:spam".to_vec());
    assert_eq!(encode_int(42), b"i42e".to_vec());
    assert_eq!(encode_int(-3), b"i-3e".to_vec());
    assert_eq!(encode_int(0), b"i0e".to_vec());
}

#[test]
fn bencode_dict_sorts_keys_and_roundtrips() {
    let mut d = BencodeDict::new();
    d.insert(b"zeta".to_vec(), BencodeValue::Int(1));
    d.insert(b"alpha".to_vec(), BencodeValue::String("x".into()));
    d.insert(b"zeta".to_vec(), BencodeValue::Int(2));
    assert_eq!(d.len(), 2);
    let v = BencodeValue::Dict(d);
    let bytes = v.encode();
    assert_eq!(bytes, b"d5:alpha1:x4:zetai2ee".to_vec());
    let (back, used) = BencodeValue::decode(&bytes).unwrap();
    assert_eq!(used, bytes.len());
    assert_eq!(back.encode(), bytes);
}

#[test]
fn bencode_decode_errors() {
    assert!(BencodeValue::decode(b"").is_err());
    assert!(BencodeValue::decode(b"i12").is_err());
    assert!(BencodeValue::decode(b"5:ab").is_err());
    assert!(BencodeValue::decode(b"x").is_err());
    let (v, n) = BencodeValue::decode(b"l4:spami7eeXYZ").unwrap();
    assert_eq!(n, 11);
    assert_eq!(v.encode(), b"l4:spami7ee".to_vec());
}

fn sample_torrent() -> TorrentMetaInfo {
    let content: Vec<u8> = (0..100u32).map(|i| (i % 251) as u8).collect();
    TorrentMetaInfo::new_single_file("data.bin".to_string(), &content, Some(32), 1_700_000_000)
}

#[test]
fn torrent_roundtrips_through_bencode() {
    let t = sample_torrent();
    assert_eq!(t.piece_count(), 4);
    assert_eq!(t.total_size(), 100);
    assert!(t.is_single_file());
    let bytes = t.to_bencode().unwrap();
    let back = TorrentMetaInfo::from_bencode(&bytes).unwrap();
    assert_eq!(back.info.name, "data.bin");
    assert_eq!(back.info.piece_length, 32);
    assert_eq!(back.info.pieces, t.info.pieces);
    assert_eq!(back.info.length, Some(100));
    assert_eq!(back.creation_date, Some(1_700_000_000));
    assert_eq!(back.to_bencode().unwrap(), bytes);
    assert_eq!(back.info_hash().unwrap(), t.info_hash().unwrap());
    assert!(TorrentMetaInfo::from_bencode(b"i1e").is_err());
    let f = TorrentFile::from_bencode(bytes.clone(), "/tmp/x".to_string()).unwrap();
    assert_eq!(f.piece_count(), 4);
    assert_eq!(f.torrent_data, bytes);
}

#[test]
fn piece_hashes_are_sha1_of_each_piece() {
    let t = TorrentMetaInfo::new_single_file("abc".into(), b"abc", Some(1024), 0);
    // SHA-1 of "abc".
    let expected = [
        0xa9, 0x99, 0x3e, 0x36, 0x47, 0x06, 0x81, 0x6a, 0xba, 0x3e, 0x25, 0x71, 0x78, 0x50, 0xc2, 0x6c, 0x9c,
        0xd0, 0xd8, 0x9d,
    ];
    assert_eq!(t.info.pieces, expected.to_vec());
    assert_eq!(t.piece_hash(0), Some(expected));
    assert_eq!(t.piece_hash(1), None);
}

#[test]
fn piece_manager_bitmap_and_plan() {
    let t = sample_torrent();
    let mut pm = PieceManager::new(t, "/tmp/store".to_string());
    assert_eq!(pm.piece_count(), 4);
    pm.mark_piece_completed(1);
    pm.mark_piece_completed(3);
    assert_eq!(pm.completed_count(), 2);
    let bm = pm.bitmap();
    assert_eq!(bm, vec![0b0101_0000]);
    assert_eq!(pm.parse_bitmap(&bm), vec![1, 3]);
    assert_eq!(pm.needed_pieces(&[0, 1, 2, 9]), vec![0, 2]);
    assert_eq!(pm.piece_state(1), Some(PieceState::Completed));
    assert_eq!(pm.piece_state(9), None);
    assert_eq!(download_plan(&pm, &vec![3, 2, 1]), vec![2]);
    assert_eq!(download_plan(&pm, &vec![]), Vec::<usize>::new());
}

#[test]
fn store_piece_checks_the_hash() {
    let content: Vec<u8> = (0..100u32).map(|i| (i % 251) as u8).collect();
    let t = TorrentMetaInfo::new_single_file("data.bin".into(), &content, Some(32), 0);
    let pm = PieceManager::new(t.clone(), "/tmp/store".into());
    let spans = pm.store_piece(1, &content[32..64]).unwrap();
    assert_eq!(spans.len(), 1);
    assert_eq!(spans[0].file_offset, 32);
    assert!(pm.store_piece(1, &content[0..32]).is_err());
    assert!(pm.store_piece(7, &content[0..32]).is_err());
    assert_eq!(piece_download_size(&t, 0), 32);
    assert_eq!(piece_download_size(&t, 3), 4);
}

#[test]
fn piece_download_in_blocks() {
    let mut d = PieceDownload::new(5, 20000);
    assert_eq!(d.next_request(), Some((5, 0, 16384)));
    let block = vec![7u8; 16384];
    assert!(!d.accept_block(4, 0, &block));
    assert!(!d.accept_block(5, 1, &block));
    assert!(d.accept_block(5, 0, &block));
    assert_eq!(d.next_request(), Some((5, 16384, 3616)));
    assert!(!d.accept_block(5, 16384, &vec![1u8; 4000]));
    assert!(d.accept_block(5, 16384, &vec![9u8; 3616]));
    assert!(d.is_complete());
    assert_eq!(d.next_request(), None);
    assert_eq!(d.data()[16383], 7);
    assert_eq!(d.data()[16384], 9);
    assert_eq!(d.index(), 5);
}

#[test]
fn handshake_roundtrip_and_check() {
    let h = Handshake::new([1u8; 20], [2u8; 20]);
    let bytes = h.to_bytes();
    assert_eq!(bytes.len(), 68);
    assert_eq!(bytes[0], 19);
    assert_eq!(&bytes[1..20], b"BitTorrent protocol");
    let back = Handshake::from_bytes(&bytes).unwrap();
    assert_eq!(back.info_hash, [1u8; 20]);
    assert_eq!(back.peer_id, [2u8; 20]);
    assert!(check_handshake(&back, &[1u8; 20]).is_ok());
    match check_handshake(&back, &[3u8; 20]) {
        Err(Error::Other(m)) => assert_eq!(m, "Info hash mismatch"),
        _ => panic!("expected a mismatch"),
    }
    assert!(Handshake::from_bytes(&bytes[..67]).is_err());
}

#[test]
fn message_roundtrip() {
    let m = Message::Request { index: 1, begin: 16384, length: 16384 };
    let bytes = m.to_bytes();
    assert_eq!(bytes, vec![0, 0, 0, 13, 6, 0, 0, 0, 1, 0, 0, 64, 0, 0, 0, 64, 0]);
    match Message::from_bytes(&bytes).unwrap() {
        Message::Request { index, begin, length } => {
            assert_eq!((index, begin, length), (1, 16384, 16384));
        }
        other => panic!("unexpected {:?}", other),
    }
    let have = Message::Have { index: 7 }.to_bytes();
    assert_eq!(have, vec![0, 0, 0, 5, 4, 0, 0, 0, 7]);
    assert!(Message::from_bytes(&[0, 0, 0, 1, 42]).is_err());
    assert!(matches!(Message::from_bytes(&[]).unwrap(), Message::Unchoke));
    assert!(matches!(Message::from_bytes(&[0, 0, 0, 0]).unwrap(), Message::Unchoke));
    assert!(Message::from_bytes(&[0, 0]).is_err());
    assert!(matches!(Message::from_bytes(&[0, 0, 0, 1, 42]), Err(Error::Other(m)) if m == "Unknown message type: 42"));
    assert!(matches!(Message::from_bytes(&[0, 0]), Err(Error::Network(m)) if m == "failed to fill whole buffer"));
    assert!(matches!(Message::from_bytes(&[0, 0, 0, 5, 4, 0]), Err(Error::Network(_))));
}

#[test]
fn peer_id_has_the_client_prefix() {
    let id = generate_peer_id();
    assert_eq!(&id[..8], b"-ST0001-");
}

#[test]
fn bitfield_and_have_messages() {
    assert_eq!(parse_bitmap(&[0b1000_0001, 0b0100_0000]), vec![0, 7, 9]);
    let mut pieces = vec![1usize, 5];
    record_have(&mut pieces, 3);
    assert_eq!(pieces, vec![1, 3, 5]);
    record_have(&mut pieces, 3);
    assert_eq!(pieces, vec![1, 3, 5]);
    assert_eq!(sort_indices(vec![4, 1, 3, 1]), vec![1, 1, 3, 4]);
    let mut view = PeerView::new();
    view.apply(&Message::Bitfield { bitmap: vec![0b1100_0000] });
    assert_eq!(view.have_pieces, vec![0, 1]);
    view.apply(&Message::Have { index: 4 });
    assert_eq!(view.have_pieces, vec![0, 1, 4]);
    view.apply(&Message::Unchoke);
    assert!(!view.state.choked);
}

#[test]
fn seeder_answers() {
    assert_eq!(
        reply_to(&Message::Request { index: 2, begin: 0, length: 10 }),
        SeederReply::SendBlock { index: 2, begin: 0, length: 10 }
    );
    assert_eq!(reply_to(&Message::Interested), SeederReply::Unchoke);
    assert_eq!(reply_to(&Message::Choke), SeederReply::Nothing);
    let piece: Vec<u8> = (0..50u8).collect();
    match serve_block(2, 40, 16, &piece) {
        Message::Piece { index, begin, block } => {
            assert_eq!((index, begin), (2, 40));
            assert_eq!(block, (40..50u8).collect::<Vec<u8>>());
        }
        other => panic!("unexpected {:?}", other),
    }
    match serve_block(2, 0, 5, &piece) {
        Message::Piece { block, .. } => assert_eq!(block, vec![0, 1, 2, 3, 4]),
        other => panic!("unexpected {:?}", other),
    }
}

#[test]
fn seeder_allow_list() {
    assert!(is_allowed(&None, "10.0.0.1"));
    let list = Some(vec!["10.0.0.1".to_string()]);
    assert!(is_allowed(&list, "10.0.0.1"));
    assert!(!is_allowed(&list, "10.0.0.2"));
    match check_peer(&list, "10.0.0.2", "10.0.0.2:6881") {
        Err(Error::Other(m)) => assert_eq!(m, "Connection from 10.0.0.2:6881 not in whitelist"),
        _ => panic!("expected refusal"),
    }
}

#[test]
fn metadata_store_put_get_remove() {
    let mut s = MetadataServer::new();
    assert!(s.get_torrent("h1").is_none());
    s.add_torrent("h1".into(), vec![1, 2, 3]);
    s.add_torrent("h2".into(), vec![9]);
    s.add_torrent("h1".into(), vec![4, 5]);
    assert_eq!(s.get_torrent("h1"), Some(vec![4, 5]));
    assert_eq!(s.get_torrent("h2"), Some(vec![9]));
    s.remove_torrent("h1");
    assert!(s.get_torrent("h1").is_none());
    assert_eq!(s.get_torrent("h2"), Some(vec![9]));
    assert!(!s.running());
    s.set_running(true);
    assert!(s.running());
    s.stop();
    assert!(!s.running());
}

#[test]
fn metadata_requests_and_answers() {
    assert_eq!(metadata_request("abc"), "GET /abc\n");
    assert_eq!(parse_metadata_request("GET /abc\n").unwrap(), "abc");
    assert_eq!(parse_metadata_request("GET /  abc \r\n").unwrap(), "abc");
    match parse_metadata_request("GET //\n") {
        Err(Error::Other(m)) => assert_eq!(m, "Missing info_hash"),
        _ => panic!("expected refusal"),
    }
    match parse_metadata_request("POST /abc") {
        Err(Error::Other(m)) => assert_eq!(m, "Invalid request format"),
        _ => panic!("expected refusal"),
    }
    let mut s = MetadataServer::new();
    s.add_torrent("abc".into(), vec![7, 8, 9]);
    assert_eq!(s.answer_request("GET /abc\n").unwrap(), vec![0, 0, 0, 3, 7, 8, 9]);
    assert_eq!(s.answer_request("GET /zzz\n").unwrap(), vec![0, 0, 0, 0]);
    assert!(s.answer_request("HELLO").is_err());
    assert_eq!(frame_metadata(&vec![1]), vec![0, 0, 0, 1, 1]);
    assert_eq!(not_found_frame(), vec![0, 0, 0, 0]);
}

#[test]
fn metadata_length_limits() {
    assert!(matches!(check_metadata_length(0), Err(Error::Other(_))));
    assert!(matches!(check_metadata_length(10 * 1024 * 1024 + 1), Err(Error::Other(_))));
    assert_eq!(check_metadata_length(10 * 1024 * 1024).unwrap(), 10 * 1024 * 1024);
    assert_eq!(check_metadata_length(1).unwrap(), 1);
}

#[test]
fn bencode_strings_are_text_when_utf8() {
    match BencodeValue::decode(b"4:spam").unwrap().0 {
        BencodeValue::String(s) => assert_eq!(s, "spam"),
        other => panic!("unexpected {:?}", other),
    }
    match BencodeValue::decode(&[b'2', b':', 0xff, 0xfe]).unwrap().0 {
        BencodeValue::Bytes(b) => assert_eq!(b, vec![0xff, 0xfe]),
        other => panic!("unexpected {:?}", other),
    }
}

#[test]
fn request_lines_are_trimmed_of_unicode_white_space() {
    assert_eq!(parse_metadata_request("GET /\u{3000}abc\u{a0}\n").unwrap(), "abc");
    assert_eq!(parse_metadata_request("GET /a b\t").unwrap(), "a b");
}

#[test]
fn request_line_roundtrip() {
    let hash = "0123456789abcdef0123456789abcdef01234567";
    assert_eq!(parse_metadata_request(&metadata_request(hash)).unwrap(), hash);
}

#[test]
fn served_blocks_are_accepted_in_order() {
    let piece: Vec<u8> = (0..40000u32).map(|i| (i % 253) as u8).collect();
    let mut d = PieceDownload::new(3, piece.len());
    while let Some((index, begin, length)) = d.next_request() {
        match serve_block(index, begin, length, &piece) {
            Message::Piece { index, begin, block } => assert!(d.accept_block(index, begin, &block)),
            other => panic!("unexpected {:?}", other),
        }
    }
    assert!(d.is_complete());
    assert_eq!(d.data(), &piece);
}

#[test]
fn piece_counts_the_blocks_received() {
    let mut p = Piece::new(0, 32768, 16384);
    assert_eq!(p.blocks_total, 2);
    assert_eq!(p.add_block(30000, &[0u8; 4000], 16384), Err("Block offset out of bounds".to_string()));
    assert!(p.data.is_empty());
    assert_eq!(p.blocks_downloaded, 0);
    assert_eq!(p.add_block(0, &[7u8; 16384], 16384), Ok(()));
    assert_eq!(p.data.len(), 32768);
    assert!(p.data[..16384].iter().all(|&b| b == 7));
    assert!(p.data[16384..].iter().all(|&b| b == 0));
    assert_eq!(p.blocks_downloaded, 1);
    assert!(!p.is_complete());
    assert_eq!(p.add_block(16384, &[9u8; 16384], 16384), Ok(()));
    assert_eq!(p.blocks_downloaded, 2);
    assert!(p.is_complete());
}

#[test]
fn pieces_hold_twenty_bytes_per_piece() {
    let content: Vec<u8> = (0..100u8).collect();
    let pieces = TorrentMetaInfo::compute_pieces(&content, 32);
    assert_eq!(pieces.len(), 20 * 4);
    assert!(TorrentMetaInfo::compute_pieces(&[], 32).is_empty());
    assert_eq!(TorrentMetaInfo::compute_pieces(&content, 100).len(), 20);
}

#[test]
fn bencode_bytes_that_are_text_decode_as_strings() {
    let v = BencodeValue::List(vec![BencodeValue::Bytes(b"abc".to_vec()), BencodeValue::Bytes(vec![0xff, 0xfe])]);
    let mut bytes = v.encode();
    let len = bytes.len();
    bytes.extend_from_slice(b"rest");
    let (back, used) = BencodeValue::decode(&bytes).unwrap();
    assert_eq!(used, len);
    match back {
        BencodeValue::List(items) => {
            assert!(matches!(&items[0], BencodeValue::String(s) if s == "abc"));
            assert!(matches!(&items[1], BencodeValue::Bytes(b) if b == &vec![0xff, 0xfe]));
        }
        other => panic!("unexpected {:?}", other),
    }
}

#[test]
fn checked_piece_sizes_and_reads() {
    let t = sample_torrent();
    assert_eq!(t.checked_total_size(), Some(100));
    assert_eq!(checked_piece_download_size(&t, 0), Some(32));
    assert_eq!(checked_piece_download_size(&t, 3), Some(4));
    assert_eq!(checked_piece_download_size(&t, 4), None);
    assert_eq!(checked_piece_download_size(&t, usize::MAX), None);
    let pm = PieceManager::new(t, "/tmp/store".to_string());
    let (size, spans) = pm.checked_read_piece(3).unwrap();
    assert_eq!(size, 4);
    assert_eq!(spans[0].file_offset, 96);
    assert_eq!(pm.checked_read_piece(4).unwrap_err(), "Invalid piece index");
}
