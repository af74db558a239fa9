use p2p::address::SocketAddr;
use p2p::config::Config;
use p2p::manifest::{Manifest, ManifestsT};
use p2p::proto::Proto;
use p2p::service::{
    greet, manifest_file_name, DownloadAction, DownloadEvent, DownloadStage, FileDownload,
    FileManagers, Greeting, ListenAction, ListenEvent, ListenStage, NodeService, PeersListening,
};
use std::sync::Arc;

const ADDRESS: SocketAddr = SocketAddr::V4(0x7f00_0001, 4000);

fn manifest(name: &str, data: &[u8]) -> ManifestsT {
    Arc::new(Manifest::from_data(name.to_string(), data))
}

fn config() -> Config {
    Config {
        node_address: ADDRESS,
        upload_files: Some(vec!["a".to_string(), "b".to_string()]),
        manifest_files: Some(vec!["c.manifest".to_string()]),
    }
}

fn tasks(service: &mut NodeService) -> Vec<String> {
    service.start().iter().map(|task| format!("{:?}", task)).collect()
}

#[test]
fn a_node_starts_what_it_is_told() {
    let mut service = NodeService::new(config());
    assert!(service.runnable);
    assert_eq!(
        tasks(&mut service),
        vec![
            "RunDht",
            "AnnounceFile(\"a\", 4000)",
            "AnnounceFile(\"b\", 4000)",
            "DownloadFile(\"c.manifest\")",
            "ListenPeers(V4(2130706433, 4000))",
        ]
    );
}

#[test]
fn a_node_that_is_started_again_only_listens() {
    let mut service = NodeService::new(config());
    tasks(&mut service);
    assert_eq!(service.config.upload_files, None);
    assert_eq!(service.config.manifest_files, None);
    assert_eq!(tasks(&mut service), vec!["RunDht", "ListenPeers(V4(2130706433, 4000))"]);
}

#[test]
fn a_node_without_files_only_listens() {
    let address = SocketAddr::V6(1, 65535, 0, 3);
    assert_eq!(address.port(), 65535);
    let mut service =
        NodeService::new(Config { node_address: address, upload_files: None, manifest_files: Some(Vec::new()) });
    assert_eq!(tasks(&mut service), vec!["RunDht", "ListenPeers(V6(1, 65535, 0, 3))"]);
}

#[test]
fn a_node_that_was_stopped_cannot_run() {
    let mut service = NodeService::new(config());
    service.stop();
    assert!(!service.runnable);
}

#[test]
fn manifests_are_written_under_their_own_extension() {
    assert_eq!(manifest_file_name("movie.mkv"), "movie.manifest");
    assert_eq!(manifest_file_name("movie"), "movie.manifest");
    assert_eq!(manifest_file_name("movie.tar.gz"), "movie.tar.manifest");
    assert_eq!(manifest_file_name(".movie"), ".movie.manifest");
    assert_eq!(manifest_file_name("movie."), "movie.manifest");
    assert_eq!(manifest_file_name("..movie"), "..manifest");
    assert_eq!(manifest_file_name("dir.d/movie"), "dir.d/movie.manifest");
    assert_eq!(manifest_file_name("12:30.txt"), "12:30.manifest");
    assert_eq!(manifest_file_name("dir/.."), "dir/..");
    assert_eq!(manifest_file_name("."), ".");
}

#[test]
fn a_file_is_managed_once() {
    let mut managers: FileManagers<u8> = FileManagers::new();
    assert!(!managers.contains(&manifest("a", b"1")));
    assert!(managers.insert(manifest("a", b"1"), 1));
    assert!(managers.insert(manifest("a", b"2"), 2));
    assert!(!managers.insert(manifest("a", b"1"), 3));
    assert!(managers.contains(&manifest("a", b"1")));
    assert!(!managers.contains(&manifest("b", b"1")));
    let kept: Vec<u8> = managers.files.iter().map(|file| file.manager).collect();
    assert_eq!(kept, vec![1, 2]);
}

#[test]
fn files_are_found_by_their_infohashes() {
    let mut managers: FileManagers<u8> = FileManagers::new();
    managers.insert(manifest("a", b"1"), 1);
    managers.insert(manifest("b", b"2"), 2);
    assert_eq!(managers.find(manifest("a", b"1").infohash()), Some(0));
    assert_eq!(managers.find(manifest("b", b"2").infohash()), Some(1));
    assert_eq!(managers.find(manifest("c", b"3").infohash()), None);
    assert_eq!(managers.find(&[]), None);
}

#[test]
fn a_peer_is_given_the_file_it_asks_for() {
    let mut managers: FileManagers<u8> = FileManagers::new();
    managers.insert(manifest("a", b"1"), 1);
    managers.insert(manifest("b", b"2"), 2);
    let wanted = manifest("b", b"2").infohash().to_vec();
    assert!(matches!(greet(&managers, Proto::Init(wanted)), Greeting::Share(1)));
}

#[test]
fn a_peer_that_asks_for_an_unknown_file_is_refused() {
    let managers: FileManagers<u8> = FileManagers::new();
    assert_eq!(
        format!("{:?}", greet(&managers, Proto::Init(vec![0, 10, 255]))),
        "Refuse(Error(\"i don't have a file with [00, 0a, ff] infohash\"))"
    );
    assert_eq!(
        format!("{:?}", greet(&managers, Proto::Init(Vec::new()))),
        "Refuse(Error(\"i don't have a file with [] infohash\"))"
    );
}

#[test]
fn a_peer_that_asks_for_no_file_is_refused() {
    let mut managers: FileManagers<u8> = FileManagers::new();
    managers.insert(manifest("a", b"1"), 1);
    for (message, shown) in [
        (Proto::Fin, "Fin"),
        (Proto::Request(5), "Request(5)"),
        (Proto::Data(None), "Data(None)"),
        (Proto::Error("e".to_string()), "Error(\"e\")"),
    ] {
        let expected = format!(
            "incorrect first message(expected Init with desired file hash, but got {}",
            shown
        );
        match greet(&managers, message) {
            Greeting::Refuse(Proto::Error(text)) => assert_eq!(text, expected),
            other => panic!("{:?}", other),
        }
    }
}

#[test]
fn a_download_looks_for_peers_until_the_node_stops() {
    let managers: FileManagers<u8> = FileManagers::new();
    let (mut download, action) = FileDownload::start(&managers, &manifest("a", b"1"));
    assert!(matches!(action, DownloadAction::CreateManager));
    let peers = vec![ADDRESS, SocketAddr::V4(1, 2)];
    let mut shown = Vec::new();
    for event in [
        DownloadEvent::Created(Ok(())),
        DownloadEvent::Stop(false),
        DownloadEvent::Peers(Ok(Vec::new())),
        DownloadEvent::Slept,
        DownloadEvent::Stop(false),
        DownloadEvent::Peers(Ok(peers)),
        DownloadEvent::Started,
        DownloadEvent::Slept,
        DownloadEvent::Stop(true),
    ] {
        shown.push(format!("{:?}", download.resume(event)));
    }
    assert_eq!(
        shown,
        vec![
            "CheckStop",
            "GetPeers",
            "Sleep(15)",
            "CheckStop",
            "GetPeers",
            "StartSessions([V4(2130706433, 4000), V4(1, 2)])",
            "Sleep(15)",
            "CheckStop",
            "Finish(Ok(()))",
        ]
    );
    assert_eq!(download.stage, DownloadStage::Finished);
}

#[test]
fn a_managed_file_is_not_downloaded_again() {
    let mut managers: FileManagers<u8> = FileManagers::new();
    managers.insert(manifest("a", b"1"), 1);
    let (download, action) = FileDownload::start(&managers, &manifest("a", b"1"));
    assert!(matches!(action, DownloadAction::Finish(Ok(()))));
    assert_eq!(download.stage, DownloadStage::Finished);
}

#[test]
fn failures_end_a_download() {
    let managers: FileManagers<u8> = FileManagers::new();
    let (mut download, _) = FileDownload::start(&managers, &manifest("a", b"1"));
    let action = download.resume(DownloadEvent::Created(Err("no room".to_string())));
    assert_eq!(format!("{:?}", action), "Finish(Err(\"no room\"))");

    let (mut download, _) = FileDownload::start(&managers, &manifest("a", b"1"));
    download.resume(DownloadEvent::Created(Ok(())));
    download.resume(DownloadEvent::Stop(false));
    let action = download.resume(DownloadEvent::Peers(Err("no table".to_string())));
    assert_eq!(format!("{:?}", action), "Finish(Err(\"no table\"))");
}

#[test]
fn accepted_peers_are_greeted() {
    let (mut listening, first) = PeersListening::start(ADDRESS);
    let mut shown = vec![format!("{:?}", first)];
    for event in [
        ListenEvent::Bound(Ok(())),
        ListenEvent::Stop(false),
        ListenEvent::Accepted(true),
        ListenEvent::Greeted,
        ListenEvent::Accepted(false),
        ListenEvent::Stop(false),
        ListenEvent::Accepted(false),
        ListenEvent::Stop(true),
    ] {
        shown.push(format!("{:?}", listening.resume(event)));
    }
    assert_eq!(
        shown,
        vec![
            "Bind(V4(2130706433, 4000))",
            "CheckStop",
            "Accept",
            "Greet",
            "Accept",
            "CheckStop",
            "Accept",
            "CheckStop",
            "Finish(Ok(()))",
        ]
    );
    assert_eq!(listening.stage, ListenStage::Finished);
}

#[test]
fn an_address_that_cannot_be_bound_ends_the_listening() {
    let (mut listening, _) = PeersListening::start(ADDRESS);
    let action = listening.resume(ListenEvent::Bound(Err("in use".to_string())));
    assert!(matches!(action, ListenAction::Finish(Err(text)) if text == "in use"));
}
