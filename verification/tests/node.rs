use p2p::address::SocketAddr;
use p2p::config::{
    file_path_validation, file_path_verdict, manifest_path_validator, manifest_path_verdict,
};
use p2p::dht_node::DhtOperation;
use p2p::digest::same_bytes;
use p2p::memmap::{InvalidSeek, MemMap, SeekFrom, WriteZero};
use p2p::routing_manager::RoutingManager;
use p2p::shutdown::ShutdownNotifier;
use p2p::text::{debug_bytes, hex_debug_bytes, pretty_debug_bytes, push_decimal, push_hex_pair, show_bool};

#[test]
fn files_to_share_have_to_be_files() {
    assert_eq!(file_path_validation("a.txt", true, true), Ok(()));
    assert_eq!(
        file_path_validation("a.txt", false, false),
        Err("\"a.txt\" file doesn't exists".to_string())
    );
    assert_eq!(file_path_validation("dir", true, false), Err("\"dir\" is not a file".to_string()));
    assert_eq!(
        file_path_validation(" !#$%&()*+,-./09:;<=>?@AZ[]^_`az{|}~", false, false),
        Err("\" !#$%&()*+,-./09:;<=>?@AZ[]^_`az{|}~\" file doesn't exists".to_string())
    );
    assert_eq!(file_path_verdict("shown", false, true), Err("shown file doesn't exists".to_string()));
}

#[test]
fn manifests_have_to_have_their_extension() {
    let wrong = |path: &str| {
        Err(format!("`{}` has incorrect file extension, expect: .manifest", path))
    };
    assert_eq!(manifest_path_validator("a.manifest", true, true), Ok(()));
    assert_eq!(manifest_path_validator("dir/a.b.manifest", true, true), Ok(()));
    assert_eq!(manifest_path_validator("dir/12:30.manifest", true, true), Ok(()));
    assert_eq!(manifest_path_validator("dir/a.manifest/.", true, true), Ok(()));
    assert_eq!(manifest_path_validator("a.manifest/..", true, true), wrong("a.manifest/.."));
    assert_eq!(manifest_path_validator("a.txt", true, true), wrong("a.txt"));
    assert_eq!(manifest_path_validator("a", true, true), wrong("a"));
    assert_eq!(manifest_path_validator(".manifest", true, true), wrong(".manifest"));
    assert_eq!(manifest_path_validator("a.Manifest", true, true), wrong("a.Manifest"));
    assert_eq!(manifest_path_validator("d.manifest/a", true, true), wrong("d.manifest/a"));
    assert_eq!(
        manifest_path_validator("a.txt", false, false),
        Err("\"a.txt\" file doesn't exists".to_string())
    );
    assert_eq!(
        manifest_path_validator("a.manifest", true, false),
        Err("\"a.manifest\" is not a file".to_string())
    );
    assert_eq!(manifest_path_verdict("p", "s", true, true, Some("manifest")), Ok(()));
    assert_eq!(manifest_path_verdict("p", "s", true, true, None), wrong("p"));
}

#[test]
fn failed_operations_are_reported_with_the_infohash() {
    let hash = [0u8, 15, 160];
    assert_eq!(
        DhtOperation::AnnouncePeer.failure(&hash),
        "announce peer failed for infohash [00, 0f, a0]"
    );
    assert_eq!(
        DhtOperation::FindNodes.failure(&hash),
        "find nodes failed for infohash [00, 0f, a0]"
    );
    assert_eq!(DhtOperation::GetPeers.failure(&[]), "get peers failed for infohash []");
}

#[test]
fn byte_strings_are_compared_byte_by_byte() {
    assert!(same_bytes(&[], &[]));
    assert!(same_bytes(&[1, 2], &[1, 2]));
    assert!(!same_bytes(&[1, 2], &[1, 3]));
    assert!(!same_bytes(&[1, 2], &[1]));
}

#[test]
fn values_are_shown_as_the_formatter_shows_them() {
    for bytes in [vec![], vec![0u8], vec![9, 10, 255], vec![100, 0, 16]] {
        assert_eq!(debug_bytes(&bytes), format!("{:?}", bytes));
        assert_eq!(hex_debug_bytes(&bytes), format!("{:02x?}", bytes));
        assert_eq!(pretty_debug_bytes(&bytes), format!("{:#?}", bytes));
    }
    for n in [0usize, 9, 10, 123456, usize::MAX] {
        let mut text = "n=".to_string();
        push_decimal(&mut text, n);
        assert_eq!(text, format!("n={}", n));
    }
    let mut text = String::new();
    push_hex_pair(&mut text, 0xa7);
    assert_eq!(text, "a7");
    assert_eq!(show_bool(true), "true");
    assert_eq!(show_bool(false), "false");
}

#[test]
fn a_map_is_written_and_read_from_its_start() {
    let mut map = [1u8, 2, 3, 4];
    assert_eq!(MemMap::poll_write(&mut map, &[9, 8]), Ok(2));
    assert_eq!(map, [9, 8, 3, 4]);
    assert_eq!(MemMap::poll_read(&map, 2), &[9, 8]);
    assert_eq!(MemMap::poll_read(&map, 9), &[9, 8, 3, 4]);
    assert_eq!(MemMap::poll_read(&map, 0), &[0u8; 0]);
    assert_eq!(MemMap::poll_write(&mut map, &[5, 6, 7]), Ok(3));
    assert_eq!(map, [5, 6, 7, 4]);
}

#[test]
fn a_map_without_room_takes_what_fits() {
    let mut map = [1u8, 2];
    assert_eq!(MemMap::poll_write(&mut map, &[7, 8, 9]), Err(WriteZero));
    assert_eq!(map, [7, 8]);
    let mut empty: [u8; 0] = [];
    assert_eq!(MemMap::poll_write(&mut empty, &[]), Ok(0));
    assert_eq!(MemMap::poll_write(&mut empty, &[1]), Err(WriteZero));
}

#[test]
fn positions_are_sought_and_reported() {
    let mut map = MemMap::new();
    assert_eq!(map.poll_complete(), 0);
    assert_eq!(map.start_seek(10, SeekFrom::Start(25)), Ok(()));
    assert_eq!(map.poll_complete(), 25);
    assert_eq!(map.start_seek(10, SeekFrom::Current(-5)), Ok(()));
    assert_eq!(map.poll_complete(), 20);
    assert_eq!(map.start_seek(10, SeekFrom::End(-10)), Ok(()));
    assert_eq!(map.poll_complete(), 0);
    assert_eq!(map.start_seek(10, SeekFrom::Current(-1)), Err(InvalidSeek));
    assert_eq!(map.start_seek(10, SeekFrom::End(-11)), Err(InvalidSeek));
    assert_eq!(map.poll_complete(), 0);
    assert_eq!(map.start_seek(0, SeekFrom::Start(u64::MAX)), Ok(()));
    assert_eq!(map.start_seek(0, SeekFrom::Current(1)), Err(InvalidSeek));
    assert_eq!(map.poll_complete(), u64::MAX);
}

#[test]
fn peers_are_added_and_removed() {
    let first = SocketAddr::V4(1, 1);
    let second = SocketAddr::V4(2, 2);
    let mut manager = RoutingManager::new();
    assert!(manager.view().is_empty());
    manager.add_one((7, first));
    manager.add_one((7, second));
    manager.add(vec![(8, first), (9, first), (8, second)]);
    let table = manager.view();
    assert_eq!(table.len(), 3);
    assert_eq!(table.get(&7), Some(&second));
    assert_eq!(table.get(&8), Some(&second));
    assert_eq!(table.get(&9), Some(&first));
    manager.remove(&9);
    manager.remove(&100);
    let table = manager.view();
    assert_eq!(table.len(), 2);
    assert_eq!(table.get(&9), None);
}

#[test]
fn a_node_stops_when_it_is_notified() {
    let mut notifier = ShutdownNotifier::new();
    assert!(!notifier.should_stop());
    notifier.notified();
    assert!(notifier.should_stop());
    notifier.notified();
    assert!(notifier.should_stop());
}
