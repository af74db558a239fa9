use p2p::file_manager::{
    Chunk, ChunkRead, FileAction, FileEvent, FileManager, ReadStage, SeekFailure, CHUNK_READ_LEN,
};
use p2p::manifest::{Manifest, ManifestInner, PIECE_LENGTH};

fn file_manager() -> FileManager {
    FileManager {
        manifest: Manifest {
            inner: ManifestInner {
                filename: "myfile".to_string(),
                file_size: 10,
                piece_size: 1,
                sharps: vec![
                    vec![1, 1, 1, 1, 1],
                    vec![2, 2, 2, 2, 2],
                    vec![3, 3, 3, 3, 3],
                    vec![4, 4, 4, 4, 4],
                    vec![5, 5, 5, 5, 5],
                    vec![6, 6, 6, 6, 6],
                    vec![7, 7, 7, 7, 7],
                    vec![8, 8, 8, 8, 8],
                    vec![9, 9, 9, 9, 9],
                    vec![10, 10, 10, 10, 10],
                ],
            },
            infohash: vec![0, 0, 0, 0, 0],
        },
        dummy_chunks: Chunk::new_dummy_chunks(10),
        suggested: None,
    }
}

/// The digest of a piece, as the manifest of a file with that piece lists it.
fn digest(piece: &[u8]) -> Vec<u8> {
    Manifest::from_data("piece".to_string(), piece).sharps()[0].clone()
}

fn manager_of(pieces: &[&[u8]]) -> FileManager {
    FileManager::new(Manifest::from_inner(ManifestInner {
        filename: "letters.txt".to_string(),
        file_size: 6,
        piece_size: 2,
        sharps: pieces.iter().map(|piece| digest(piece)).collect(),
    }))
}

/// Hands all filled chunks at the front to a file that takes everything.
fn load_out(manager: &mut FileManager) -> Vec<Vec<u8>> {
    let mut handed = Vec::new();
    let mut loadout = manager.loadout_filled_chunks();
    while let Some(data) = manager.next_write(&loadout) {
        handed.push(data.clone());
        loadout.wrote(Ok(()));
    }
    assert_eq!(manager.finish_loadout(loadout), Ok(()));
    handed
}

#[test]
fn absent_chunk_should_not_return_the_same_chunk() {
    let mut file_manager = file_manager();

    let chunk1 = file_manager.absent_chunk_index().unwrap();
    let chunk2 = file_manager.absent_chunk_index().unwrap();

    assert_ne!(chunk1, chunk2);
}

#[test]
fn absent_chunk_never_returns_filled_chunk() {
    let mut file_manager = file_manager();

    file_manager.dummy_chunks[3].data = vec![0, 0, 0, 0];

    for _ in 0..100 {
        let suggested_chunk = file_manager.absent_chunk_index().unwrap();
        assert_ne!(suggested_chunk, 3);
    }
}

#[test]
fn suggestions_never_repeat_while_another_chunk_is_absent() {
    let mut file_manager = file_manager();
    let mut last = None;
    for _ in 0..200 {
        let next = file_manager.absent_chunk_index();
        assert_ne!(next, last);
        assert!(next.unwrap() < 10);
        last = next;
    }
}

#[test]
fn every_absent_chunk_is_suggested_at_some_time() {
    let mut file_manager = file_manager();
    let mut seen = vec![false; 10];
    for _ in 0..2000 {
        seen[file_manager.absent_chunk_index().unwrap()] = true;
    }
    assert_eq!(seen, vec![true; 10]);
}

#[test]
fn the_only_absent_chunk_is_suggested_again() {
    let mut file_manager = file_manager();
    for i in 0..10 {
        if i != 6 {
            file_manager.dummy_chunks[i].data = vec![1];
        }
    }
    assert_eq!(file_manager.absent_chunk_indices(), vec![6]);
    assert_eq!(file_manager.suggestions(), vec![6]);
    assert_eq!(file_manager.absent_chunk_index(), Some(6));
    assert_eq!(file_manager.absent_chunk_index(), Some(6));
}

#[test]
fn suggestions_leave_out_the_last_one() {
    let mut file_manager = file_manager();
    file_manager.dummy_chunks[0].data = vec![1];
    file_manager.suggested = Some(4);
    assert_eq!(file_manager.absent_chunk_indices(), vec![1, 2, 3, 4, 5, 6, 7, 8, 9]);
    assert_eq!(file_manager.suggestions(), vec![1, 2, 3, 5, 6, 7, 8, 9]);
}

#[test]
fn nothing_is_suggested_of_a_full_file() {
    let mut manager = manager_of(&[b"ab"]);
    assert_eq!(manager.try_fill_chunk(b"ab".to_vec()), Some(Ok(())));
    assert_eq!(manager.absent_chunk_index(), None);
    assert_eq!(manager.suggested, None);
}

#[test]
fn dummy_chunks_are_numbered_and_empty() {
    let chunks = Chunk::new_dummy_chunks(3);
    let shown: Vec<(usize, usize)> = chunks.iter().map(|c| (c.index, c.data.len())).collect();
    assert_eq!(shown, vec![(0, 0), (1, 0), (2, 0)]);
    assert!(Chunk::new_dummy_chunks(0).is_empty());
}

#[test]
fn a_piece_goes_to_its_chunk() {
    let mut manager = manager_of(&[b"ab", b"cd", b"ef"]);
    assert_eq!(manager.fill_chunk(b"cd".to_vec()), Ok(()));
    assert_eq!(manager.buffered_chunk(0), None);
    assert_eq!(manager.buffered_chunk(1), Some(b"cd".to_vec()));
    assert_eq!(manager.buffered_chunk(2), None);
    assert_eq!(manager.buffered_chunk(3), None);
    assert_eq!(manager.absent_chunk_indices(), vec![0, 2]);
}

#[test]
fn a_piece_goes_to_the_first_of_two_equal_chunks() {
    let mut manager = manager_of(&[b"ab", b"cd", b"cd"]);
    assert_eq!(manager.fill_chunk(b"cd".to_vec()), Ok(()));
    assert_eq!(manager.absent_chunk_indices(), vec![0, 2]);
}

#[test]
fn data_that_is_no_piece_is_refused() {
    let mut manager = manager_of(&[b"ab", b"cd"]);
    assert_eq!(
        manager.fill_chunk(vec![7, 128]),
        Err("[\n    7,\n    128,\n] is not related to letters.txt".to_string())
    );
    assert_eq!(
        manager.try_fill_chunk(Vec::new()),
        Some(Err("[] is not related to letters.txt".to_string()))
    );
    assert_eq!(manager.absent_chunk_indices(), vec![0, 1]);
}

#[test]
fn a_hash_decides_where_data_goes() {
    let mut manager = file_manager();
    assert_eq!(manager.fill_chunk_with_hash(&[3, 3, 3, 3, 3], vec![9]), Ok(()));
    assert_eq!(manager.buffered_chunk(2), Some(vec![9]));
    assert_eq!(
        manager.fill_chunk_with_hash(&[3, 3, 3], vec![9]),
        Err("[\n    9,\n] is not related to myfile".to_string())
    );
}

#[test]
fn chunks_go_out_in_order() {
    let mut manager = manager_of(&[b"ab", b"cd", b"ef"]);
    assert_eq!(manager.try_fill_chunk(b"cd".to_vec()), Some(Ok(())));
    assert!(load_out(&mut manager).is_empty());
    assert_eq!(manager.try_fill_chunk(b"ab".to_vec()), Some(Ok(())));
    assert_eq!(load_out(&mut manager), vec![b"ab".to_vec(), b"cd".to_vec()]);
    assert_eq!(manager.dummy_chunks.len(), 1);
    assert_eq!(manager.absent_chunk_indices(), vec![2]);
    assert_eq!(manager.try_fill_chunk(b"ef".to_vec()), Some(Ok(())));
    assert_eq!(load_out(&mut manager), vec![b"ef".to_vec()]);
    assert!(manager.dummy_chunks.is_empty());
    assert_eq!(manager.absent_chunk_index(), None);
}

#[test]
fn a_chunk_that_was_handed_to_the_file_is_not_filled_again() {
    let mut manager = manager_of(&[b"ab", b"cd"]);
    assert_eq!(manager.try_fill_chunk(b"ab".to_vec()), Some(Ok(())));
    assert_eq!(load_out(&mut manager).len(), 1);
    assert_eq!(manager.try_fill_chunk(b"ab".to_vec()), None);
    assert_eq!(manager.buffered_chunk(0), None);
    assert_eq!(manager.try_fill_chunk(b"cd".to_vec()), Some(Ok(())));
    assert_eq!(manager.buffered_chunk(1), Some(b"cd".to_vec()));
}

#[test]
fn a_failed_write_ends_the_writing_and_drops_its_chunk() {
    let mut manager = manager_of(&[b"ab", b"cd", b"ef"]);
    for piece in [b"ab", b"cd", b"ef"] {
        assert_eq!(manager.try_fill_chunk(piece.to_vec()), Some(Ok(())));
    }
    let mut loadout = manager.loadout_filled_chunks();
    assert_eq!((loadout.filled, loadout.attempted), (3, 0));
    assert_eq!(manager.next_write(&loadout), Some(&b"ab".to_vec()));
    loadout.wrote(Ok(()));
    assert_eq!(manager.next_write(&loadout), Some(&b"cd".to_vec()));
    loadout.wrote(Err("no room".to_string()));
    assert_eq!(manager.next_write(&loadout), None);
    assert_eq!(manager.finish_loadout(loadout), Err("no room".to_string()));
    assert_eq!(manager.dummy_chunks.len(), 1);
    assert_eq!(manager.buffered_chunk(2), Some(b"ef".to_vec()));
}

#[test]
fn a_download_hands_over_the_file() {
    let mut data = vec![7u8; PIECE_LENGTH];
    data.extend(vec![8u8; PIECE_LENGTH]);
    data.push(9);
    let mut manager = FileManager::new(Manifest::from_data("big".to_string(), &data));
    assert_eq!(manager.manifest().pieces_count(), 3);
    let mut handed: Vec<u8> = Vec::new();
    for i in [2usize, 0, 1] {
        let start = i * PIECE_LENGTH;
        let end = std::cmp::min(start + PIECE_LENGTH, data.len());
        assert_eq!(manager.try_fill_chunk(data[start..end].to_vec()), Some(Ok(())));
        for piece in load_out(&mut manager) {
            handed.extend(piece);
        }
    }
    assert!(manager.dummy_chunks.is_empty());
    assert!(handed == data);
}

fn start_read(manager: &FileManager, index: usize) -> ChunkRead {
    let (read, action) = manager.filled_chunk(index);
    assert_eq!(read.index, index);
    assert!(matches!(read.stage, ReadStage::Seeking));
    let position = (manager.manifest().piece_size() * index) as u64;
    assert!(matches!(action, FileAction::Seek(at) if at == position));
    read
}

#[test]
fn a_chunk_on_disk_is_read_empty() {
    let manager = manager_of(&[b"ab", b"cd", b"ef"]);
    let mut read = start_read(&manager, 2);
    let action = manager.resume_filled_chunk(&mut read, FileEvent::Sought(Ok(4)));
    assert!(matches!(action, FileAction::ReadExact(CHUNK_READ_LEN)));
    let action = manager.resume_filled_chunk(&mut read, FileEvent::Read(Ok(Vec::new())));
    assert!(matches!(action, FileAction::Rewind));
    let action = manager.resume_filled_chunk(&mut read, FileEvent::Rewound(Ok(())));
    assert_eq!(format!("{:?}", action), "Return(Ok(Some([])))");
    assert!(matches!(read.stage, ReadStage::Done));
}

#[test]
fn a_chunk_that_waits_is_read_from_memory() {
    let mut manager = manager_of(&[b"ab", b"cd", b"ef"]);
    assert_eq!(manager.try_fill_chunk(b"cd".to_vec()), Some(Ok(())));
    for (index, expected) in [(1, "Return(Ok(Some([99, 100])))"), (2, "Return(Ok(None))")] {
        let mut read = start_read(&manager, index);
        let event = FileEvent::Sought(Err(SeekFailure::UnexpectedEof));
        assert!(matches!(manager.resume_filled_chunk(&mut read, event), FileAction::Rewind));
        let action = manager.resume_filled_chunk(&mut read, FileEvent::Rewound(Ok(())));
        assert_eq!(format!("{:?}", action), expected);
    }
}

#[test]
fn failures_of_the_file_end_a_read() {
    let mut manager = manager_of(&[b"ab", b"cd"]);

    let mut read = start_read(&manager, 1);
    let event = FileEvent::Sought(Err(SeekFailure::Other("bad seek".to_string())));
    let action = manager.resume_filled_chunk(&mut read, event);
    assert_eq!(format!("{:?}", action), "Return(Err(\"bad seek\"))");

    let mut read = start_read(&manager, 1);
    manager.resume_filled_chunk(&mut read, FileEvent::Sought(Ok(2)));
    let action = manager.resume_filled_chunk(&mut read, FileEvent::Read(Err("bad read".to_string())));
    assert_eq!(format!("{:?}", action), "Return(Err(\"bad read\"))");

    let mut read = start_read(&manager, 1);
    manager.resume_filled_chunk(&mut read, FileEvent::Sought(Err(SeekFailure::UnexpectedEof)));
    let action = manager.resume_filled_chunk(&mut read, FileEvent::Rewound(Err("no".to_string())));
    assert_eq!(
        format!("{:?}", action),
        "Return(Err(\"we might find needed chunk under 1 index(false), but the file rewind failed\"))"
    );

    assert_eq!(manager.try_fill_chunk(b"cd".to_vec()), Some(Ok(())));
    let mut read = start_read(&manager, 1);
    manager.resume_filled_chunk(&mut read, FileEvent::Sought(Err(SeekFailure::UnexpectedEof)));
    let action = manager.resume_filled_chunk(&mut read, FileEvent::Rewound(Err("no".to_string())));
    assert_eq!(
        format!("{:?}", action),
        "Return(Err(\"we might find needed chunk under 1 index(true), but the file rewind failed\"))"
    );
}

#[test]
fn managers_are_equal_by_their_manifests() {
    let mut filled = manager_of(&[b"ab", b"cd"]);
    assert_eq!(filled.try_fill_chunk(b"ab".to_vec()), Some(Ok(())));
    assert!(filled == manager_of(&[b"ab", b"cd"]));
    assert!(filled != manager_of(&[b"ab", b"ef"]));
}

#[test]
fn each_piece_is_progress() {
    let mut manager = manager_of(&[b"ab", b"cd", b"ef"]);
    assert_eq!(manager.absent_chunk_indices().len(), 3);
    assert_eq!(manager.try_fill_chunk(b"ab".to_vec()), Some(Ok(())));
    assert_eq!(manager.absent_chunk_indices().len(), 2);
    assert_eq!(manager.try_fill_chunk(b"ab".to_vec()), Some(Ok(())));
    assert_eq!(manager.absent_chunk_indices().len(), 2);
    assert_eq!(load_out(&mut manager).len(), 1);
    assert_eq!(manager.absent_chunk_indices(), vec![1, 2]);
    assert_eq!(manager.loadout_filled_chunks().filled, 0);
}

#[test]
fn a_received_piece_starts_the_writing() {
    let mut manager = manager_of(&[b"ab", b"cd", b"ef"]);
    let loadout = manager.receive_piece(b"cd".to_vec()).unwrap().unwrap();
    assert_eq!((loadout.filled, loadout.attempted, loadout.failure.is_none()), (0, 0, true));
    let mut loadout = manager.receive_piece(b"ab".to_vec()).unwrap().unwrap();
    assert_eq!((loadout.filled, loadout.attempted), (2, 0));
    assert_eq!(manager.next_write(&loadout), Some(&b"ab".to_vec()));
    loadout.wrote(Ok(()));
    assert_eq!(manager.next_write(&loadout), Some(&b"cd".to_vec()));
    loadout.wrote(Ok(()));
    assert_eq!(manager.finish_loadout(loadout), Ok(()));
    assert!(manager.receive_piece(b"ab".to_vec()).is_none());
    assert_eq!(
        manager.receive_piece(vec![1]).unwrap().unwrap_err(),
        "[\n    1,\n] is not related to letters.txt"
    );
    assert_eq!(manager.absent_chunk_indices(), vec![2]);
}

#[test]
fn a_filled_chunk_stays_filled() {
    let mut manager = manager_of(&[b"ab", b"cd"]);
    assert!(manager.receive_piece(b"cd".to_vec()).unwrap().is_ok());
    assert!(manager.receive_piece(b"cd".to_vec()).unwrap().is_ok());
    assert!(manager.receive_piece(Vec::new()).unwrap().is_err());
    assert_eq!(manager.buffered_chunk(1), Some(b"cd".to_vec()));
    assert_eq!(manager.absent_chunk_index(), Some(0));
}
