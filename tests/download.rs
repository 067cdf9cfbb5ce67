use std::cmp::Ordering;
use std::collections::VecDeque;

use bittorrent_starter_rust::download::{
    check_digest, check_peers, place_piece, DownloadError, Downloaded, PieceAssembly, Plan,
};
use bittorrent_starter_rust::hash::{HashStrVisitor, Hashes, HashesError};
use bittorrent_starter_rust::peers::{Message, MessageTag, PeerAddr, PeerHandShake, Peers, Piece, Request};
use bittorrent_starter_rust::piece::{piece_infos, PieceInfo};
use bittorrent_starter_rust::session::{
    Output, Participation, PeerState, Phase, SessionError, Want,
};
use bittorrent_starter_rust::torrent::{info_hash_of, FileInfo, Info, Keys, Torrent};
use bittorrent_starter_rust::tracker::{tracker_url, urlencode, TrackerRequest};
use bittorrent_starter_rust::BLOCK_MAX;

/// A peer that serves blocks of `content` as told.
struct ScriptedPeer {
    content: Vec<u8>,
    plength: usize,
    npieces: usize,
    has: Vec<usize>,
    /// After serving this many blocks, answer the next request with Choke and
    /// then Unchoke instead of the block.
    choke_after: Option<usize>,
    /// Send a Piece for a wrong offset before each block.
    stale_first: bool,
    /// Flip the bits of every block sent.
    corrupt: bool,
    choking: bool,
    served: usize,
    requests: Vec<(u32, u32, u32)>,
    outbox: VecDeque<Message>,
}

impl ScriptedPeer {
    fn new(content: &[u8], plength: usize, has: Vec<usize>) -> Self {
        ScriptedPeer {
            content: content.to_vec(),
            plength,
            npieces: (content.len() + plength - 1) / plength,
            has,
            choke_after: None,
            stale_first: false,
            corrupt: false,
            choking: true,
            served: 0,
            requests: Vec::new(),
            outbox: VecDeque::new(),
        }
    }

    fn bitfield(&self) -> Message {
        let mut payload = vec![0u8; (self.npieces + 7) / 8];
        for &i in &self.has {
            payload[i / 8] |= 0x80 >> (i % 8);
        }
        Message { tag: MessageTag::Bitfield, payload }
    }

    fn receive(&mut self, msg: Message) {
        match msg.tag {
            MessageTag::Interested => {
                if self.choking {
                    self.choking = false;
                    self.outbox.push_back(Message { tag: MessageTag::Unchoke, payload: Vec::new() });
                }
            }
            MessageTag::Request => {
                let r = Request::from_bytes(&msg.payload).unwrap();
                self.requests.push((r.index(), r.begin(), r.length()));
                if self.choke_after == Some(self.served) {
                    self.choke_after = None;
                    self.outbox.push_back(Message { tag: MessageTag::Choke, payload: Vec::new() });
                    self.outbox.push_back(Message { tag: MessageTag::Unchoke, payload: Vec::new() });
                    return;
                }
                let start = r.index() as usize * self.plength + r.begin() as usize;
                let mut block = self.content[start..start + r.length() as usize].to_vec();
                if self.corrupt {
                    for b in block.iter_mut() {
                        *b ^= 0xFF;
                    }
                }
                if self.stale_first {
                    let stale = Piece::new(r.index(), r.begin() + 1, vec![0xEE; r.length() as usize]);
                    self.outbox.push_back(Message { tag: MessageTag::Piece, payload: stale.to_bytes() });
                    let other = Piece::new(r.index() + 1, r.begin(), vec![0xDD; r.length() as usize]);
                    self.outbox.push_back(Message { tag: MessageTag::Piece, payload: other.to_bytes() });
                }
                let p = Piece::new(r.index(), r.begin(), block);
                self.outbox.push_back(Message { tag: MessageTag::Piece, payload: p.to_bytes() });
                self.served += 1;
            }
            _ => {}
        }
    }
}

fn content(len: usize) -> Vec<u8> {
    (0..len).map(|i| (i * 7 + 3) as u8).collect()
}

fn torrent_for(content: &[u8], plength: usize) -> Torrent {
    let hashes: Vec<[u8; 20]> = content.chunks(plength).map(info_hash_of).collect();
    Torrent {
        announce: "http://tracker.example/announce".to_string(),
        info: Info {
            name: "sample.bin".to_string(),
            plength,
            pieces: Hashes(hashes),
            keys: Keys::SingleFile { length: content.len() },
        },
    }
}

/// Fetches one piece from the enrolled peers, taking turns among them.
fn fetch_piece(
    peers: &mut [ScriptedPeer],
    states: &mut [PeerState],
    info: &PieceInfo,
    block_size: usize,
) -> Result<Vec<u8>, DownloadError> {
    let mut assembly = PieceAssembly::new(info.index(), info.length(), block_size);
    let mut queue: VecDeque<usize> = (0..assembly.nblocks).collect();
    let mut parts: Vec<(usize, Participation)> = Vec::new();
    for &i in info.peers() {
        let (p, interested) = Participation::new(info.index(), info.length(), block_size, &states[i]);
        peers[i].receive(interested);
        parts.push((i, p));
    }
    while !assembly.is_complete() {
        let mut progressed = false;
        let mut k = 0;
        while k < parts.len() {
            let (i, ref mut p) = parts[k];
            let out = match p.wants() {
                Want::Frame => match peers[i].outbox.pop_front() {
                    Some(m) => Some(p.on_frame(&mut states[i], m)),
                    None => None,
                },
                Want::Work => match queue.pop_front() {
                    Some(b) => Some(p.on_work(&states[i], Some(b))),
                    None => None,
                },
                Want::Finished => None,
            };
            match out {
                None => {}
                Some(Err(_)) => {
                    parts.remove(k);
                    progressed = true;
                    continue;
                }
                Some(Ok(o)) => {
                    progressed = true;
                    match o {
                        Output::Nothing => {}
                        Output::Send(m) => peers[i].receive(m),
                        Output::Forward(pc) => {
                            assembly.accept(&pc);
                        }
                        Output::Requeue(b) => queue.push_back(b),
                    }
                }
            }
            k += 1;
        }
        if !progressed {
            break;
        }
    }
    let hash = info.hash();
    assembly.finish(&hash)
}

fn download(t: &Torrent, peers: &mut [ScriptedPeer], block_size: usize) -> Result<Vec<u8>, DownloadError> {
    let mut states: Vec<PeerState> =
        peers.iter().map(|p| PeerState::from_first_frame(p.bitfield()).unwrap()).collect();
    let mut plan = Plan::new(piece_infos(t, &states));
    let mut all = vec![0u8; t.length()];
    while let Some(info) = plan.next_piece()? {
        let bytes = fetch_piece(peers, &mut states, &info, block_size)?;
        place_piece(&mut all, info.index() * t.info.plength, &bytes);
    }
    Ok(all)
}

#[test]
fn single_peer_downloads_whole_file() {
    let data = content(700);
    let t = torrent_for(&data, 256);
    let mut peers = vec![ScriptedPeer::new(&data, 256, vec![0, 1, 2])];
    let out = download(&t, &mut peers, 128).unwrap();
    assert_eq!(out.len(), 700);
    assert_eq!(out, data);
    for (i, chunk) in out.chunks(256).enumerate() {
        assert_eq!(info_hash_of(chunk), t.info.pieces.0[i]);
    }
    let mut reqs = peers[0].requests.clone();
    reqs.sort();
    assert_eq!(reqs, vec![(0, 0, 128), (0, 128, 128), (1, 0, 128), (1, 128, 128), (2, 0, 128), (2, 128, 60)]);
}

#[test]
fn two_peers_share_pieces_by_rarity() {
    let data = content(700);
    let t = torrent_for(&data, 256);
    let mut peers = vec![
        ScriptedPeer::new(&data, 256, vec![0, 2]),
        ScriptedPeer::new(&data, 256, vec![1, 2]),
    ];
    let out = download(&t, &mut peers, 128).unwrap();
    assert_eq!(out, data);
    assert!(peers[0].requests.iter().all(|r| r.0 != 1));
    assert!(peers[1].requests.iter().all(|r| r.0 != 0));
    assert!(peers[0].requests.iter().any(|r| r.0 == 0));
    assert!(peers[1].requests.iter().any(|r| r.0 == 1));
    let piece2: usize = peers.iter().map(|p| p.requests.iter().filter(|r| r.0 == 2).count()).sum();
    assert_eq!(piece2, 2);
}

#[test]
fn choke_mid_piece_requeues_block() {
    let data = content(256);
    let t = torrent_for(&data, 256);
    let mut peer = ScriptedPeer::new(&data, 256, vec![0]);
    peer.choke_after = Some(1);
    let mut peers = vec![peer];
    let out = download(&t, &mut peers, 128).unwrap();
    assert_eq!(out, data);
    assert_eq!(peers[0].requests, vec![(0, 0, 128), (0, 128, 128), (0, 128, 128)]);
}

#[test]
fn choke_with_several_peers_still_completes() {
    let data = content(1000);
    let t = torrent_for(&data, 512);
    let mut a = ScriptedPeer::new(&data, 512, vec![0, 1]);
    a.choke_after = Some(0);
    let b = ScriptedPeer::new(&data, 512, vec![0, 1]);
    let mut peers = vec![a, b];
    assert_eq!(download(&t, &mut peers, 64).unwrap(), data);
}

#[test]
fn stale_piece_frames_do_not_corrupt() {
    let data = content(700);
    let t = torrent_for(&data, 256);
    let mut peer = ScriptedPeer::new(&data, 256, vec![0, 1, 2]);
    peer.stale_first = true;
    let mut peers = vec![peer];
    assert_eq!(download(&t, &mut peers, 128).unwrap(), data);
}

#[test]
fn piece_sizes_with_default_block_size() {
    for len in [1usize, 127, 16383, 16384, 16385, 40000] {
        let data = content(len);
        let t = torrent_for(&data, len);
        let mut peers = vec![ScriptedPeer::new(&data, len, vec![0])];
        let out = download(&t, &mut peers, BLOCK_MAX).unwrap();
        assert_eq!(out, data);
        assert_eq!(peers[0].requests.len(), (len + BLOCK_MAX - 1) / BLOCK_MAX);
    }
}

#[test]
fn corrupted_block_fails_with_piece_index() {
    let data = content(700);
    let t = torrent_for(&data, 256);
    let mut peers = vec![ScriptedPeer::new(&data, 256, vec![0, 1, 2])];
    peers[0].corrupt = true;
    let e = download(&t, &mut peers, 128).unwrap_err();
    assert!(matches!(e, DownloadError::HashMismatch { .. }));
    let mut peers = vec![
        ScriptedPeer::new(&data, 256, vec![0, 1, 2]),
        ScriptedPeer::new(&data, 256, vec![1]),
    ];
    peers[1].corrupt = true;
    assert_eq!(download(&t, &mut peers, 128).unwrap_err(), DownloadError::HashMismatch { piece: 1 });
}

#[test]
fn empty_tracker_response_is_fatal() {
    assert_eq!(check_peers(&Peers(Vec::new())), Err(DownloadError::NoPeers));
    assert_eq!(check_peers(&Peers(vec![PeerAddr { ip: [1, 2, 3, 4], port: 5 }])), Ok(()));
}

#[test]
fn mismatched_handshake_drops_only_that_peer() {
    let ours = [4u8; 20];
    let replies = vec![
        PeerHandShake::new(&ours, &[1u8; 20]).to_bytes(),
        PeerHandShake::new(&[9u8; 20], &[2u8; 20]).to_bytes(),
        PeerHandShake::new(&ours, &[3u8; 20]).to_bytes(),
    ];
    let kept: Vec<[u8; 20]> = replies
        .iter()
        .filter_map(|r| PeerHandShake::from_bytes(r).unwrap().validate_reply(&ours).ok())
        .collect();
    assert_eq!(kept, vec![[1u8; 20], [3u8; 20]]);
}

#[test]
fn piece_nobody_has_is_reported() {
    let data = content(700);
    let t = torrent_for(&data, 256);
    let mut peers = vec![ScriptedPeer::new(&data, 256, vec![0, 2])];
    assert_eq!(download(&t, &mut peers, 128).unwrap_err(), DownloadError::NoPeersForPiece { piece: 1 });
}

#[test]
fn participant_leaving_early_makes_piece_incomplete() {
    let mut state = PeerState::from_first_frame(Message { tag: MessageTag::Bitfield, payload: vec![0x80] }).unwrap();
    let (mut p, _) = Participation::new(0, 256, 128, &state);
    let assembly = PieceAssembly::new(0, 256, 128);
    let r = p.on_frame(&mut state, Message { tag: MessageTag::Bitfield, payload: vec![0x80] });
    assert_eq!(r.unwrap_err(), SessionError::UnexpectedBitfield);
    assert_eq!(assembly.finish(&[0u8; 20]).unwrap_err(), DownloadError::PieceIncomplete { piece: 0 });
}

#[test]
fn first_frame_must_be_bitfield() {
    let r = PeerState::from_first_frame(Message { tag: MessageTag::Unchoke, payload: Vec::new() });
    assert_eq!(r.unwrap_err(), SessionError::ExpectedBitfield);
    let s = PeerState::from_first_frame(Message { tag: MessageTag::Bitfield, payload: vec![0x40] }).unwrap();
    assert!(s.choked);
    assert!(s.has_piece(1));
    assert!(!s.has_piece(0));
}

#[test]
fn session_reactions() {
    let mut state = PeerState::from_first_frame(Message { tag: MessageTag::Bitfield, payload: vec![0] }).unwrap();
    let (mut p, interested) = Participation::new(3, 300, 128, &state);
    assert_eq!(interested.tag, MessageTag::Interested);
    assert!(interested.payload.is_empty());
    assert_eq!(p.nblocks, 3);
    assert_eq!(p.wants(), Want::Frame);
    // Choke while choked is dropped; requests from the peer are ignored.
    let r = p.on_frame(&mut state, Message { tag: MessageTag::Choke, payload: Vec::new() }).unwrap();
    assert!(matches!(r, Output::Nothing));
    let r = p.on_frame(&mut state, Message { tag: MessageTag::Request, payload: vec![0; 12] }).unwrap();
    assert!(matches!(r, Output::Nothing));
    // Have records the piece.
    let r = p.on_frame(&mut state, Message { tag: MessageTag::Have, payload: vec![0, 0, 0, 9] }).unwrap();
    assert!(matches!(r, Output::Nothing));
    assert!(state.has_piece(9));
    let e = p.on_frame(&mut state, Message { tag: MessageTag::Have, payload: vec![0, 9] }).unwrap_err();
    assert_eq!(e, SessionError::Malformed { tag: MessageTag::Have });
    // Unchoke, then the last block is requested with its short length.
    p.on_frame(&mut state, Message { tag: MessageTag::Unchoke, payload: Vec::new() }).unwrap();
    assert!(!state.choked);
    assert_eq!(p.wants(), Want::Work);
    match p.on_work(&state, Some(2)).unwrap() {
        Output::Send(m) => {
            assert_eq!(m.tag, MessageTag::Request);
            assert_eq!(m.payload, Request::new(3, 256, 44).to_bytes());
        }
        _ => panic!("expected a request"),
    }
    assert_eq!(p.phase, Phase::AwaitBlock { block: 2 });
    // Unchoke while unchoked is fatal.
    let e = p.on_frame(&mut state, Message { tag: MessageTag::Unchoke, payload: Vec::new() }).unwrap_err();
    assert_eq!(e, SessionError::UnexpectedUnchoke);
    // A block of the wrong length is fatal.
    let bad = Piece::new(3, 256, vec![0; 10]).to_bytes();
    let e = p.on_frame(&mut state, Message { tag: MessageTag::Piece, payload: bad }).unwrap_err();
    assert_eq!(e, SessionError::WrongBlockLength { expected: 44, got: 10 });
    // The right block is handed on.
    let good = Piece::new(3, 256, vec![5; 44]).to_bytes();
    match p.on_frame(&mut state, Message { tag: MessageTag::Piece, payload: good }).unwrap() {
        Output::Forward(pc) => assert_eq!((pc.index(), pc.begin(), pc.block().len()), (3, 256, 44)),
        _ => panic!("expected the block"),
    }
    // A closed queue ends the participation.
    assert!(matches!(p.on_work(&state, None).unwrap(), Output::Nothing));
    assert_eq!(p.wants(), Want::Finished);
}

#[test]
fn session_rejects_unknown_block_and_returns_early_work() {
    let mut state = PeerState::from_first_frame(Message { tag: MessageTag::Bitfield, payload: vec![0] }).unwrap();
    let (mut p, _) = Participation::new(0, 100, 50, &state);
    assert!(matches!(p.on_work(&state, Some(1)).unwrap(), Output::Requeue(1)));
    p.on_frame(&mut state, Message { tag: MessageTag::Unchoke, payload: Vec::new() }).unwrap();
    assert_eq!(p.on_work(&state, Some(2)).unwrap_err(), SessionError::NoSuchBlock { block: 2 });
    // Choke while a block is awaited hands it back.
    p.on_work(&state, Some(1)).unwrap();
    let r = p.on_frame(&mut state, Message { tag: MessageTag::Choke, payload: Vec::new() }).unwrap();
    assert!(matches!(r, Output::Requeue(1)));
    assert!(state.choked);
    assert_eq!(p.phase, Phase::AwaitUnchoke);
}

#[test]
fn assembly_drops_repeated_and_misplaced_blocks() {
    let mut assembly = PieceAssembly::new(1, 200, 128);
    assert!(!assembly.accept(&Piece::new(0, 0, vec![1; 128])));
    assert!(!assembly.accept(&Piece::new(1, 5, vec![1; 128])));
    assert!(!assembly.accept(&Piece::new(1, 128, vec![1; 128])));
    assert!(assembly.accept(&Piece::new(1, 128, vec![2; 72])));
    assert!(!assembly.accept(&Piece::new(1, 128, vec![3; 72])));
    assert!(!assembly.is_complete());
    assert!(assembly.accept(&Piece::new(1, 0, vec![1; 128])));
    assert!(assembly.is_complete());
    let mut expected = vec![1u8; 128];
    expected.extend(vec![2u8; 72]);
    let digest = info_hash_of(&expected);
    assert_eq!(assembly.finish(&digest).unwrap(), expected);
}

#[test]
fn digest_check() {
    assert_eq!(check_digest(4, &[1; 20], &[1; 20]), Ok(()));
    assert_eq!(check_digest(4, &[1; 20], &[2; 20]), Err(DownloadError::HashMismatch { piece: 4 }));
}

#[test]
fn sha1_of_known_input() {
    assert_eq!(
        info_hash_of(b"abc"),
        [
            0xa9, 0x99, 0x3e, 0x36, 0x47, 0x06, 0x81, 0x6a, 0xba, 0x3e, 0x25, 0x71, 0x78, 0x50, 0xc2, 0x6c,
            0x9c, 0xd0, 0xd8, 0x9d
        ]
    );
}

#[test]
fn place_piece_writes_at_offset() {
    let mut all = vec![0u8; 6];
    place_piece(&mut all, 2, &[7, 8, 9]);
    assert_eq!(all, vec![0, 0, 7, 8, 9, 0]);
}

#[test]
fn piece_descriptors() {
    let data = content(700);
    let t = torrent_for(&data, 256);
    let states = vec![
        PeerState::from_first_frame(Message { tag: MessageTag::Bitfield, payload: vec![0b1010_0000] }).unwrap(),
        PeerState::from_first_frame(Message { tag: MessageTag::Bitfield, payload: vec![0b1110_0000] }).unwrap(),
    ];
    let infos = piece_infos(&t, &states);
    assert_eq!(infos.len(), 3);
    assert_eq!(infos.iter().map(|p| p.length()).collect::<Vec<_>>(), vec![256, 256, 188]);
    assert_eq!(infos[0].peers(), &vec![0, 1]);
    assert_eq!(infos[1].peers(), &vec![1]);
    assert_eq!(infos[2].hash(), t.info.pieces.0[2]);
    assert!(infos[1].has_peer(1));
    assert!(!infos[1].has_peer(0));
    assert_eq!(infos[1].cmp(&infos[0]), Ordering::Less);
    assert_eq!(infos[0].cmp(&infos[2]), Ordering::Less);
    assert_eq!(infos[2].cmp(&infos[1]), Ordering::Greater);
    assert_eq!(infos[0].cmp(&infos[0]), Ordering::Equal);
    let one = PieceInfo::new(1, &t, &states);
    assert_eq!(one.index(), 1);
    let mut plan = Plan::new(infos);
    let order: Vec<usize> = std::iter::from_fn(|| plan.next_piece().unwrap()).map(|p| p.index()).collect();
    assert_eq!(order, vec![1, 0, 2]);
}

#[test]
fn last_piece_full_when_length_divides() {
    let data = content(512);
    let t = torrent_for(&data, 256);
    let infos = piece_infos(&t, &[]);
    assert_eq!(infos.iter().map(|p| p.length()).collect::<Vec<_>>(), vec![256, 256]);
    assert!(infos[0].peers().is_empty());
}

#[test]
fn torrent_lengths_and_files() {
    let files = vec![
        FileInfo { length: 3, path: vec!["a".to_string(), "x.txt".to_string()] },
        FileInfo { length: 4, path: vec!["b.txt".to_string()] },
    ];
    let t = Torrent {
        announce: String::new(),
        info: Info { name: "dir".to_string(), plength: 4, pieces: Hashes(Vec::new()), keys: Keys::MultiFile { files } },
    };
    assert_eq!(t.length(), 7);
    assert_eq!(t.checked_length(), Some(7));
    let big = Torrent {
        announce: String::new(),
        info: Info {
            name: "big".to_string(),
            plength: 4,
            pieces: Hashes(Vec::new()),
            keys: Keys::MultiFile {
                files: vec![
                    FileInfo { length: usize::MAX, path: vec!["a".to_string()] },
                    FileInfo { length: 1, path: vec!["b".to_string()] },
                ],
            },
        },
    };
    assert_eq!(big.checked_length(), None);

    let d = Downloaded::new((1u8..=7).collect(), t.info.clone().into_files());
    let mut it = d.iter();
    let f = it.next().unwrap();
    assert_eq!(f.path(), &["a".to_string(), "x.txt".to_string()]);
    assert_eq!(f.bytes(), &[1, 2, 3]);
    let f = it.next().unwrap();
    assert_eq!(f.path(), &["b.txt".to_string()]);
    assert_eq!(f.bytes(), &[4, 5, 6, 7]);
    assert!(it.next().is_none());

    let single = torrent_for(&content(10), 4);
    let files = single.info.into_files();
    assert_eq!(files.len(), 1);
    assert_eq!(files[0].length, 10);
    assert_eq!(files[0].path, vec!["sample.bin".to_string()]);
}

#[test]
fn short_content_ends_the_walk() {
    let d = Downloaded::new(vec![1, 2], vec![FileInfo { length: 3, path: vec!["f".to_string()] }]);
    assert!(d.iter().next().is_none());
}

#[test]
fn hash_list_decoding() {
    let bytes: Vec<u8> = (0..40).collect();
    let h = HashStrVisitor.visit_bytes(&bytes).unwrap();
    assert_eq!(h.0.len(), 2);
    assert_eq!(h.0[1][0], 20);
    assert_eq!(h.to_bytes(), bytes);
    assert_eq!(HashStrVisitor.visit_bytes(&bytes[..39]).unwrap_err(), HashesError::BadLength { len: 39 });
}

#[test]
fn urlencode_info_hash() {
    let mut h = [0u8; 20];
    for (i, b) in h.iter_mut().enumerate() {
        *b = (i as u8) * 13;
    }
    h[0] = 0xAB;
    h[19] = 0x0F;
    let s = urlencode(&h);
    assert_eq!(s.len(), 60);
    assert!(s.starts_with("%ab%0d%1a%27"));
    assert!(s.ends_with("%0f"));
    let expected: String = h.iter().map(|b| format!("%{:02x}", b)).collect();
    assert_eq!(s, expected);
}

#[test]
fn tracker_query_url() {
    let url = tracker_url("http://t.example/announce", "port=6881&compact=1", &[0xFF; 20]);
    assert_eq!(url, format!("http://t.example/announce?port=6881&compact=1&info_hash={}", "%ff".repeat(20)));
    let q = TrackerRequest::new("00112233445566778899".to_string(), 6881, 700);
    assert_eq!((q.port, q.uploaded, q.downloaded, q.left, q.compact), (6881, 0, 0, 700, 1));
}
