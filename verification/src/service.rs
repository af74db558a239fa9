//! The node: what it starts, whom it shares with, and how it goes about a
//! download.

use crate::address::{port_of, SocketAddr};
use crate::config::{Config, MANIFEST_FILE_EXT};
use crate::digest::{same_bytes, sha1_digest};
use crate::manifest::{
    infohash_of, json_of, law_infohash_tells_manifests_apart, Manifest, ManifestView, ManifestsT,
};
use crate::path::{
    ends_in_name, extension_of, file_name_of, is_plain_path, law_given_extension_is_found,
    path_set_extension, with_extension,
};
use crate::proto::{proto_debug, Proto};
use crate::text::{bytes_hex_debug, hex_debug_bytes};
use vstd::prelude::*;

verus! {

/// How many seconds a download waits before it asks for peers again.
pub const PEERS_INTERVAL_SECS: u64 = 15;

/// How many seconds the parts of a node are given to stop.
pub const STOP_DELAY_SECS: u64 = 5;

/// A part of a node that runs by itself.
#[derive(Debug)]
pub enum ServiceTask {
    /// Take part in the distributed hash table.
    RunDht,
    /// Share a file, and announce it under this port.
    AnnounceFile(String, u16),
    /// Download the file of a manifest.
    DownloadFile(String),
    /// Listen for peers on this address.
    ListenPeers(SocketAddr),
}

/// A node.
#[derive(Debug)]
pub struct NodeService {
    pub config: Config,
    /// Whether the node can run tasks: it cannot once it has been stopped.
    pub runnable: bool,
}

/// The files of an optional list.
pub open spec fn listed(files: Option<Vec<String>>) -> Seq<String> {
    match files {
        Some(files) => files@,
        None => Seq::empty(),
    }
}

/// What a node with this configuration starts, in order.
pub open spec fn tasks_of(config: Config) -> Seq<ServiceTask> {
    let port = port_of(config.node_address);
    seq![ServiceTask::RunDht] + listed(config.upload_files).map_values(
        |file: String| ServiceTask::AnnounceFile(file, port),
    ) + listed(config.manifest_files).map_values(|file: String| ServiceTask::DownloadFile(file))
        + seq![ServiceTask::ListenPeers(config.node_address)]
}

impl NodeService {
    /// A node that has not been started.
    pub fn new(config: Config) -> (res: Self)
        ensures
            res.config == config,
            res.runnable,
    {
        NodeService { config, runnable: true }
    }

    /// Starts the node: gives the tasks that are to run. The files to share and
    /// to download are taken out of the configuration, so that starting the
    /// node again does not start their tasks again.
    pub fn start(&mut self) -> (res: Vec<ServiceTask>)
        requires
            old(self).runnable,
        ensures
            res@ == tasks_of(old(self).config),
            ({
                let config = old(self).config;
                let uploads = if config.upload_files is Some {
                    config.upload_files->0@.len() as int
                } else {
                    0
                };
                let downloads = if config.manifest_files is Some {
                    config.manifest_files->0@.len() as int
                } else {
                    0
                };
                &&& res@.len() == uploads + downloads + 2
                &&& res@[0] is RunDht
                &&& forall|i: int|
                    0 <= i < uploads ==> #[trigger] res@[1 + i] == ServiceTask::AnnounceFile(
                        config.upload_files->0@[i],
                        match config.node_address {
                            SocketAddr::V4(_, port) => port,
                            SocketAddr::V6(_, port, _, _) => port,
                        },
                    )
                &&& forall|i: int|
                    0 <= i < downloads ==> #[trigger] res@[1 + uploads + i]
                        == ServiceTask::DownloadFile(config.manifest_files->0@[i])
                &&& res@[1 + uploads + downloads] == ServiceTask::ListenPeers(config.node_address)
            }),
            final(self).runnable,
            final(self).config.node_address == old(self).config.node_address,
            final(self).config.upload_files is None,
            final(self).config.manifest_files is None,
    {
        let ghost config = self.config;
        let port = self.config.node_address.port();
        let mut tasks: Vec<ServiceTask> = Vec::new();
        tasks.push(ServiceTask::RunDht);
        let ghost announced = |file: String| ServiceTask::AnnounceFile(file, port);
        let ghost downloaded = |file: String| ServiceTask::DownloadFile(file);
        let ghost head = tasks@;
        if let Some(files) = self.config.upload_files.take() {
            let mut i: usize = 0;
            assert(head =~= head + files@.take(0).map_values(announced));
            while i < files.len()
                invariant
                    i <= files@.len(),
                    announced == (|file: String| ServiceTask::AnnounceFile(file, port)),
                    tasks@ == head + files@.take(i as int).map_values(announced),
                decreases files@.len() - i,
            {
                tasks.push(ServiceTask::AnnounceFile(files[i].clone(), port));
                assert(files@.take(i + 1) =~= files@.take(i as int).push(files@[i as int]));
                i += 1;
                assert(tasks@ =~= head + files@.take(i as int).map_values(announced));
            }
            assert(files@.take(i as int) =~= files@);
        }
        assert(tasks@ =~= head + listed(config.upload_files).map_values(announced));
        let ghost middle = tasks@;
        if let Some(files) = self.config.manifest_files.take() {
            let mut i: usize = 0;
            assert(middle =~= middle + files@.take(0).map_values(downloaded));
            while i < files.len()
                invariant
                    i <= files@.len(),
                    downloaded == (|file: String| ServiceTask::DownloadFile(file)),
                    tasks@ == middle + files@.take(i as int).map_values(downloaded),
                decreases files@.len() - i,
            {
                tasks.push(ServiceTask::DownloadFile(files[i].clone()));
                assert(files@.take(i + 1) =~= files@.take(i as int).push(files@[i as int]));
                i += 1;
                assert(tasks@ =~= middle + files@.take(i as int).map_values(downloaded));
            }
            assert(files@.take(i as int) =~= files@);
        }
        assert(tasks@ =~= middle + listed(config.manifest_files).map_values(downloaded));
        tasks.push(ServiceTask::ListenPeers(self.config.node_address));
        assert(tasks@ =~= tasks_of(config));
        tasks
    }

    /// Stops the node. It cannot be started again.
    pub fn stop(&mut self)
        requires
            old(self).runnable,
        ensures
            !final(self).runnable,
            final(self).config == old(self).config,
    {
        self.runnable = false;
    }
}

/// A node that is started a second time shares and downloads nothing anew.
pub proof fn law_second_start_only_listens(config: Config)
    requires
        config.upload_files is None,
        config.manifest_files is None,
    ensures
        tasks_of(config) == seq![
            ServiceTask::RunDht,
            ServiceTask::ListenPeers(config.node_address),
        ],
{
    assert(tasks_of(config) =~= seq![
        ServiceTask::RunDht,
        ServiceTask::ListenPeers(config.node_address),
    ]);
}

/// A node takes part in the hash table and listens for peers on its address,
/// whatever else it is told, each by one task; besides, it starts one task for each
/// file.
pub proof fn law_node_always_listens(config: Config, k: int)
    ensures
        tasks_of(config).len() == (match config.upload_files {
            Some(files) => files@.len(),
            None => 0,
        }) + (match config.manifest_files {
            Some(files) => files@.len(),
            None => 0,
        }) + 2,
        tasks_of(config).contains(ServiceTask::RunDht),
        tasks_of(config).contains(ServiceTask::ListenPeers(config.node_address)),
        0 <= k < tasks_of(config).len() ==> {
            &&& tasks_of(config)[k] is RunDht <==> k == 0
            &&& tasks_of(config)[k] is ListenPeers <==> k == tasks_of(config).len() - 1
            &&& tasks_of(config)[k] matches ServiceTask::ListenPeers(address) ==> address
                == config.node_address
        },
{
    let tasks = tasks_of(config);
    assert(tasks[0] is RunDht);
    assert(tasks[tasks.len() - 1] == ServiceTask::ListenPeers(config.node_address));
}

/// Each file to share is announced under the node's port, and each manifest is
/// downloaded.
pub proof fn law_every_file_has_its_task(config: Config, i: int)
    ensures
        0 <= i < listed(config.upload_files).len() ==> tasks_of(config).contains(
            ServiceTask::AnnounceFile(listed(config.upload_files)[i], port_of(config.node_address)),
        ),
        0 <= i < listed(config.manifest_files).len() ==> tasks_of(config).contains(
            ServiceTask::DownloadFile(listed(config.manifest_files)[i]),
        ),
{
    let uploads = listed(config.upload_files);
    let manifests = listed(config.manifest_files);
    if 0 <= i < uploads.len() {
        assert(tasks_of(config)[1 + i] == ServiceTask::AnnounceFile(
            uploads[i],
            port_of(config.node_address),
        ));
    }
    if 0 <= i < manifests.len() {
        assert(tasks_of(config)[1 + uploads.len() + i] == ServiceTask::DownloadFile(manifests[i]));
    }
}

/// The parts of a node are given five seconds to stop, and a download looks for
/// peers every quarter of a minute.
pub proof fn law_node_keeps_its_times()
    ensures
        STOP_DELAY_SECS == 5,
        PEERS_INTERVAL_SECS == 15,
{
}

/// The name under which the manifest of a file is written.
pub fn manifest_file_name(filename: &str) -> (res: String)
    ensures
        res@ == filename@ || (seq!['.'] + MANIFEST_FILE_EXT@).is_suffix_of(res@),
        is_plain_path(filename@) && ends_in_name(filename@) ==> res@ == with_extension(
            filename@,
            MANIFEST_FILE_EXT@,
        ),
        is_plain_path(filename@) && file_name_of(filename@) is None ==> res@ == filename@,
{
    proof {
        reveal_strlit("manifest");
    }
    path_set_extension(filename, MANIFEST_FILE_EXT)
}

/// A manifest is written under a name by which it is taken for a manifest.
pub proof fn law_manifest_name_is_accepted(filename: Seq<char>)
    requires
        is_plain_path(filename),
        ends_in_name(filename),
    ensures
        is_plain_path(with_extension(filename, MANIFEST_FILE_EXT@)),
        extension_of(with_extension(filename, MANIFEST_FILE_EXT@)) == Some(MANIFEST_FILE_EXT@),
{
    reveal_strlit("manifest");
    law_given_extension_is_found(filename, MANIFEST_FILE_EXT@);
}

/// A file that the node shares or downloads, and what manages it.
#[derive(Debug)]
pub struct ManagedFile<T> {
    pub manifest: ManifestsT,
    pub manager: T,
}

/// The files that the node shares or downloads.
#[derive(Debug)]
pub struct FileManagers<T> {
    pub files: Vec<ManagedFile<T>>,
}

/// Whether one of the files has this description.
pub open spec fn has_manifest<T>(files: Seq<ManagedFile<T>>, inner: ManifestView) -> bool {
    exists|k: int| 0 <= k < files.len() && (#[trigger] files[k]).manifest.inner@ == inner
}

/// Whether one of the files has this infohash.
pub open spec fn has_infohash<T>(files: Seq<ManagedFile<T>>, infohash: Seq<u8>) -> bool {
    exists|k: int| 0 <= k < files.len() && (#[trigger] files[k]).manifest.infohash@ == infohash
}

impl<T> FileManagers<T> {
    /// No file is managed twice.
    pub open spec fn wf(&self) -> bool {
        forall|i: int, j: int|
            0 <= i < j < self.files@.len() ==> (#[trigger] self.files@[i]).manifest.inner@ != (
            #[trigger] self.files@[j]).manifest.inner@
    }

    /// A node without files.
    pub fn new() -> (res: Self)
        ensures
            res.files@.len() == 0,
            res.wf(),
    {
        FileManagers { files: Vec::new() }
    }

    /// Whether the file of this manifest is managed.
    pub fn contains(&self, manifest: &Manifest) -> (res: bool)
        ensures
            res == has_manifest(self.files@, manifest.inner@),
            res <==> exists|k: int|
                0 <= k < self.files@.len() && (#[trigger] self.files@[k]).manifest.inner@
                    == manifest.inner@,
    {
        let mut i: usize = 0;
        while i < self.files.len()
            invariant
                i <= self.files@.len(),
                forall|k: int|
                    0 <= k < i ==> (#[trigger] self.files@[k]).manifest.inner@ != manifest.inner@,
            decreases self.files@.len() - i,
        {
            if self.files[i].manifest.inner == manifest.inner {
                return true;
            }
            i += 1;
        }
        false
    }

    /// Adds a file, unless it is managed already: then nothing changes.
    pub fn insert(&mut self, manifest: ManifestsT, manager: T) -> (res: bool)
        requires
            old(self).wf(),
        ensures
            final(self).wf(),
            res == !has_manifest(old(self).files@, manifest.inner@),
            res <==> forall|k: int|
                0 <= k < old(self).files@.len() ==> (#[trigger] old(self).files@[k]).manifest.inner@
                    != manifest.inner@,
            final(self).files@ == (if res {
                old(self).files@.push(ManagedFile { manifest, manager })
            } else {
                old(self).files@
            }),
    {
        if self.contains(&manifest) {
            return false;
        }
        let ghost before = self.files@;
        self.files.push(ManagedFile { manifest, manager });
        assert forall|i: int, j: int| 0 <= i < j < self.files@.len() implies (
        #[trigger] self.files@[i]).manifest.inner@ != (
        #[trigger] self.files@[j]).manifest.inner@ by {
            assert(self.files@[i] == before[i]);
            if j < before.len() {
                assert(self.files@[j] == before[j]);
            }
        }
        true
    }

    /// The position of the file with this infohash.
    pub fn find(&self, infohash: &[u8]) -> (res: Option<usize>)
        ensures
            match res {
                Some(i) => {
                    &&& i < self.files@.len()
                    &&& self.files@[i as int].manifest.infohash@ == infohash@
                    &&& forall|k: int|
                        0 <= k < i ==> (#[trigger] self.files@[k]).manifest.infohash@ != infohash@
                },
                None => {
                    &&& !has_infohash(self.files@, infohash@)
                    &&& forall|k: int|
                        0 <= k < self.files@.len() ==> (#[trigger] self.files@[k]).manifest.infohash@
                            != infohash@
                },
            },
    {
        let mut i: usize = 0;
        while i < self.files.len()
            invariant
                i <= self.files@.len(),
                forall|k: int|
                    0 <= k < i ==> (#[trigger] self.files@[k]).manifest.infohash@ != infohash@,
            decreases self.files@.len() - i,
        {
            if same_bytes(self.files[i].manifest.infohash.as_slice(), infohash) {
                return Some(i);
            }
            i += 1;
        }
        None
    }
}

/// What a peer is told whose first message does not ask for a file.
pub open spec fn wrong_greeting_text(message: Proto) -> Seq<char> {
    "incorrect first message(expected Init with desired file hash, but got "@ + proto_debug(
        message,
    )
}

/// What a peer is told that asks for a file which the node does not have.
pub open spec fn unknown_file_text(infohash: Seq<u8>) -> Seq<char> {
    "i don't have a file with "@ + bytes_hex_debug(infohash) + " infohash"@
}

/// How the node answers a peer that has just connected.
#[derive(Debug)]
pub enum Greeting {
    /// Share the file at this position.
    Share(usize),
    /// Send this message and nothing more.
    Refuse(Proto),
}

/// Answers the first message of a peer.
pub fn greet<T>(managers: &FileManagers<T>, message: Proto) -> (res: Greeting)
    ensures
        match message {
            Proto::Init(infohash) => match res {
                Greeting::Share(i) => {
                    &&& i < managers.files@.len()
                    &&& managers.files@[i as int].manifest.infohash@ == infohash@
                    &&& forall|k: int|
                        0 <= k < i ==> (#[trigger] managers.files@[k]).manifest.infohash@
                            != infohash@
                },
                Greeting::Refuse(answer) => {
                    &&& !has_infohash(managers.files@, infohash@)
                    &&& forall|k: int|
                        0 <= k < managers.files@.len() ==> (
                        #[trigger] managers.files@[k]).manifest.infohash@ != infohash@
                    &&& answer matches Proto::Error(text)
                    &&& text@ == unknown_file_text(infohash@)
                    &&& text@ == "i don't have a file with "@ + bytes_hex_debug(infohash@)
                        + " infohash"@
                },
            },
            _ => {
                &&& res matches Greeting::Refuse(Proto::Error(text))
                &&& text@ == wrong_greeting_text(message)
                &&& text@
                    == "incorrect first message(expected Init with desired file hash, but got "@
                    + proto_debug(message)
            },
        },
{
    match message {
        Proto::Init(infohash) => match managers.find(infohash.as_slice()) {
            Some(i) => Greeting::Share(i),
            None => {
                let mut text = String::from_str("i don't have a file with ");
                text.append(hex_debug_bytes(infohash.as_slice()).as_str());
                text.append(" infohash");
                Greeting::Refuse(Proto::Error(text))
            },
        },
        message => {
            let mut text = String::from_str(
                "incorrect first message(expected Init with desired file hash, but got ",
            );
            text.append(message.debug().as_str());
            Greeting::Refuse(Proto::Error(text))
        },
    }
}

/// A file that has been added is shared with a peer that asks for it.
pub proof fn law_added_file_is_found<T>(files: Seq<ManagedFile<T>>, added: ManagedFile<T>)
    ensures
        has_manifest(files.push(added), added.manifest.inner@),
        has_infohash(files.push(added), added.manifest.infohash@),
{
    assert(files.push(added)[files.len() as int] == added);
}

/// Files that were there stay there when one is added.
pub proof fn law_files_stay<T>(
    files: Seq<ManagedFile<T>>,
    added: ManagedFile<T>,
    infohash: Seq<u8>,
)
    requires
        has_infohash(files, infohash),
    ensures
        has_infohash(files.push(added), infohash),
{
    let k = choose|k: int|
        0 <= k < files.len() && (#[trigger] files[k]).manifest.infohash@ == infohash;
    assert(files.push(added)[k] == files[k]);
}

/// If the node has the file with a description, a file is found under the
/// infohash of that description.
pub proof fn law_described_file_is_found<T>(files: Seq<ManagedFile<T>>, inner: ManifestView)
    requires
        forall|k: int| 0 <= k < files.len() ==> (#[trigger] files[k]).manifest.wf(),
        has_manifest(files, inner),
    ensures
        has_infohash(files, infohash_of(inner)),
{
    let k = choose|k: int|
        0 <= k < files.len() && (#[trigger] files[k]).manifest.inner@ == inner;
    assert(files[k].manifest.infohash@ == infohash_of(inner));
}

/// The file that is found under the infohash of a description has that
/// description, unless the two documents are different texts with one digest.
pub proof fn law_infohash_names_the_file<T>(
    files: Seq<ManagedFile<T>>,
    i: int,
    inner: ManifestView,
)
    requires
        0 <= i < files.len(),
        files[i].manifest.wf(),
        files[i].manifest.infohash@ == infohash_of(inner),
        sha1_digest(json_of(files[i].manifest.inner@)) == sha1_digest(json_of(inner)) ==> json_of(
            files[i].manifest.inner@,
        ) == json_of(inner),
    ensures
        files[i].manifest.inner@ == inner,
{
    if files[i].manifest.inner@ != inner {
        law_infohash_tells_manifests_apart(files[i].manifest.inner@, inner);
    }
}

/// What a download waits for.
#[derive(Clone, Copy, Debug, PartialEq, Eq, Structural)]
pub enum DownloadStage {
    /// The file to be set up.
    Creating,
    /// Whether the node is about to stop.
    Checking,
    /// The peers that have the file.
    Asking,
    /// Sessions with them have been started.
    Starting,
    /// The time to ask again.
    Sleeping,
    /// Nothing: the download is over.
    Finished,
}

/// What is to be done next for a download.
#[derive(Debug)]
pub enum DownloadAction {
    /// Set up the file, and add it to those that are managed.
    CreateManager,
    CheckStop,
    GetPeers,
    /// Start a session with each of these peers.
    StartSessions(Vec<SocketAddr>),
    /// Wait so many seconds.
    Sleep(u64),
    Finish(Result<(), String>),
}

/// What became of a [`DownloadAction`].
#[derive(Debug)]
pub enum DownloadEvent {
    Created(Result<(), String>),
    Stop(bool),
    Peers(Result<Vec<SocketAddr>, String>),
    Started,
    Slept,
}

/// The search for peers that have a file.
#[derive(Debug)]
pub struct FileDownload {
    pub stage: DownloadStage,
}

/// How `event` takes a download from `before` to `after`, and what is to be
/// done then.
pub open spec fn download_step(
    before: DownloadStage,
    event: DownloadEvent,
    after: DownloadStage,
    action: DownloadAction,
) -> bool {
    match (before, event) {
        (DownloadStage::Creating, DownloadEvent::Created(Ok(_))) => {
            &&& after == DownloadStage::Checking
            &&& action is CheckStop
        },
        (DownloadStage::Creating, DownloadEvent::Created(Err(text))) => {
            &&& after == DownloadStage::Finished
            &&& action == DownloadAction::Finish(Err(text))
        },
        (DownloadStage::Checking, DownloadEvent::Stop(stop)) => if stop {
            &&& after == DownloadStage::Finished
            &&& action matches DownloadAction::Finish(Ok(_))
        } else {
            &&& after == DownloadStage::Asking
            &&& action is GetPeers
        },
        (DownloadStage::Asking, DownloadEvent::Peers(Ok(peers))) => if peers@.len() > 0 {
            &&& after == DownloadStage::Starting
            &&& action == DownloadAction::StartSessions(peers)
        } else {
            &&& after == DownloadStage::Sleeping
            &&& action == DownloadAction::Sleep(PEERS_INTERVAL_SECS)
        },
        (DownloadStage::Asking, DownloadEvent::Peers(Err(text))) => {
            &&& after == DownloadStage::Finished
            &&& action == DownloadAction::Finish(Err(text))
        },
        (DownloadStage::Starting, DownloadEvent::Started) => {
            &&& after == DownloadStage::Sleeping
            &&& action == DownloadAction::Sleep(PEERS_INTERVAL_SECS)
        },
        (DownloadStage::Sleeping, DownloadEvent::Slept) => {
            &&& after == DownloadStage::Checking
            &&& action is CheckStop
        },
        _ => false,
    }
}

impl FileDownload {
    /// Whether `event` is what the download waits for.
    pub open spec fn expects(&self, event: DownloadEvent) -> bool {
        match self.stage {
            DownloadStage::Creating => event is Created,
            DownloadStage::Checking => event is Stop,
            DownloadStage::Asking => event is Peers,
            DownloadStage::Starting => event is Started,
            DownloadStage::Sleeping => event is Slept,
            DownloadStage::Finished => false,
        }
    }

    /// Starts the download of a file, unless the node manages it already: then
    /// there is nothing to do.
    pub fn start<T>(managers: &FileManagers<T>, manifest: &Manifest) -> (res: (Self, DownloadAction))
        ensures
            has_manifest(managers.files@, manifest.inner@) <==> res.0.stage
                == DownloadStage::Finished,
            if exists|k: int|
                0 <= k < managers.files@.len() && (#[trigger] managers.files@[k]).manifest.inner@
                    == manifest.inner@ {
                &&& res.0.stage == DownloadStage::Finished
                &&& res.1 matches DownloadAction::Finish(Ok(_))
            } else {
                &&& res.0.stage == DownloadStage::Creating
                &&& res.1 is CreateManager
            },
    {
        if managers.contains(manifest) {
            (FileDownload { stage: DownloadStage::Finished }, DownloadAction::Finish(Ok(())))
        } else {
            (FileDownload { stage: DownloadStage::Creating }, DownloadAction::CreateManager)
        }
    }

    /// Goes on with the download.
    pub fn resume(&mut self, event: DownloadEvent) -> (action: DownloadAction)
        requires
            old(self).expects(event),
        ensures
            download_step(old(self).stage, event, final(self).stage, action),
            match event {
                DownloadEvent::Created(Ok(_)) => action is CheckStop,
                DownloadEvent::Created(Err(text)) => action == DownloadAction::Finish(Err(text)),
                DownloadEvent::Stop(stop) => if stop {
                    action matches DownloadAction::Finish(Ok(_))
                } else {
                    action is GetPeers
                },
                DownloadEvent::Peers(Ok(peers)) => if peers@.len() > 0 {
                    action == DownloadAction::StartSessions(peers)
                } else {
                    action == DownloadAction::Sleep(15)
                },
                DownloadEvent::Peers(Err(text)) => action == DownloadAction::Finish(Err(text)),
                DownloadEvent::Started => action == DownloadAction::Sleep(15),
                DownloadEvent::Slept => action is CheckStop,
            },
            forall|outcome: DownloadEvent| #[trigger]
                final(self).expects(outcome) <==> match action {
                    DownloadAction::CreateManager => outcome is Created,
                    DownloadAction::CheckStop => outcome is Stop,
                    DownloadAction::GetPeers => outcome is Peers,
                    DownloadAction::StartSessions(_) => outcome is Started,
                    DownloadAction::Sleep(_) => outcome is Slept,
                    DownloadAction::Finish(_) => false,
                },
    {
        match (self.stage, event) {
            (DownloadStage::Creating, DownloadEvent::Created(Ok(_))) => {
                self.stage = DownloadStage::Checking;
                DownloadAction::CheckStop
            },
            (DownloadStage::Creating, DownloadEvent::Created(Err(text))) => {
                self.stage = DownloadStage::Finished;
                DownloadAction::Finish(Err(text))
            },
            (DownloadStage::Checking, DownloadEvent::Stop(stop)) => {
                if stop {
                    self.stage = DownloadStage::Finished;
                    DownloadAction::Finish(Ok(()))
                } else {
                    self.stage = DownloadStage::Asking;
                    DownloadAction::GetPeers
                }
            },
            (DownloadStage::Asking, DownloadEvent::Peers(Ok(peers))) => {
                if peers.is_empty() {
                    self.stage = DownloadStage::Sleeping;
                    DownloadAction::Sleep(PEERS_INTERVAL_SECS)
                } else {
                    self.stage = DownloadStage::Starting;
                    DownloadAction::StartSessions(peers)
                }
            },
            (DownloadStage::Asking, DownloadEvent::Peers(Err(text))) => {
                self.stage = DownloadStage::Finished;
                DownloadAction::Finish(Err(text))
            },
            (DownloadStage::Starting, DownloadEvent::Started) => {
                self.stage = DownloadStage::Sleeping;
                DownloadAction::Sleep(PEERS_INTERVAL_SECS)
            },
            _ => {
                self.stage = DownloadStage::Checking;
                DownloadAction::CheckStop
            },
        }
    }
}

/// Whether the event says that the node is about to stop, or that something
/// failed.
pub open spec fn ends_download(event: DownloadEvent) -> bool {
    match event {
        DownloadEvent::Created(created) => created is Err,
        DownloadEvent::Stop(stop) => stop,
        DownloadEvent::Peers(peers) => peers is Err,
        _ => false,
    }
}

/// A download goes on looking for peers until the node stops or something fails,
/// and it ends well only where the node stops.
pub proof fn law_download_goes_on(
    before: DownloadStage,
    event: DownloadEvent,
    after: DownloadStage,
    action: DownloadAction,
)
    requires
        download_step(before, event, after, action),
    ensures
        after == DownloadStage::Finished <==> action is Finish,
        action is Finish <==> ends_download(event),
        action matches DownloadAction::Finish(Ok(_)) ==> event == DownloadEvent::Stop(true),
{
}

/// What a download does next follows from what happened: it looks for peers while
/// the node runs, starts sessions with all it finds, and waits a quarter of a
/// minute before it looks again.
pub proof fn law_download_follows_events(
    before: DownloadStage,
    event: DownloadEvent,
    after: DownloadStage,
    action: DownloadAction,
)
    requires
        download_step(before, event, after, action),
    ensures
        event == DownloadEvent::Stop(false) <==> action is GetPeers,
        event matches DownloadEvent::Created(Ok(_)) ==> action is CheckStop,
        event matches DownloadEvent::Created(Err(text)) ==> action == DownloadAction::Finish(
            Err(text),
        ),
        event == DownloadEvent::Stop(true) ==> (action matches DownloadAction::Finish(Ok(_))),
        event matches DownloadEvent::Peers(Ok(peers)) ==> if peers@.len() > 0 {
            action == DownloadAction::StartSessions(peers)
        } else {
            action == DownloadAction::Sleep(15)
        },
        event matches DownloadEvent::Peers(Err(text)) ==> action == DownloadAction::Finish(
            Err(text),
        ),
        event is Started ==> action == DownloadAction::Sleep(15),
        event is Slept ==> action is CheckStop,
{
}

/// A download starts sessions with all the peers that were found, and only with
/// those; then it waits before it asks again.
pub proof fn law_found_peers_get_sessions(
    before: DownloadStage,
    event: DownloadEvent,
    after: DownloadStage,
    action: DownloadAction,
    peers: Vec<SocketAddr>,
)
    requires
        download_step(before, event, after, action),
    ensures
        (action == DownloadAction::StartSessions(peers)) <==> (peers@.len() > 0 && event
            == DownloadEvent::Peers(Ok(peers))),
{
}

/// What the listening for peers waits for.
#[derive(Clone, Copy, Debug, PartialEq, Eq, Structural)]
pub enum ListenStage {
    /// The address to be bound.
    Binding,
    /// Whether the node is about to stop.
    Checking,
    /// A peer.
    Accepting,
    /// The peer has been handed to a task of its own.
    Greeting,
    /// Nothing: the listening is over.
    Finished,
}

/// What is to be done next to listen for peers.
#[derive(Debug)]
pub enum ListenAction {
    Bind(SocketAddr),
    CheckStop,
    Accept,
    /// Have the accepted peer greeted by a task of its own.
    Greet,
    Finish(Result<(), String>),
}

/// What became of a [`ListenAction`].
#[derive(Debug)]
pub enum ListenEvent {
    Bound(Result<(), String>),
    Stop(bool),
    /// Whether a peer was accepted.
    Accepted(bool),
    Greeted,
}

/// The listening for peers.
#[derive(Debug)]
pub struct PeersListening {
    pub stage: ListenStage,
}

/// How `event` takes the listening from `before` to `after`, and what is to be
/// done then. While peers can be accepted, nothing asks whether the node is about
/// to stop.
pub open spec fn listen_step(
    before: ListenStage,
    event: ListenEvent,
    after: ListenStage,
    action: ListenAction,
) -> bool {
    match (before, event) {
        (ListenStage::Binding, ListenEvent::Bound(Ok(_))) => {
            &&& after == ListenStage::Checking
            &&& action is CheckStop
        },
        (ListenStage::Binding, ListenEvent::Bound(Err(text))) => {
            &&& after == ListenStage::Finished
            &&& action == ListenAction::Finish(Err(text))
        },
        (ListenStage::Checking, ListenEvent::Stop(stop)) => if stop {
            &&& after == ListenStage::Finished
            &&& action matches ListenAction::Finish(Ok(_))
        } else {
            &&& after == ListenStage::Accepting
            &&& action is Accept
        },
        (ListenStage::Accepting, ListenEvent::Accepted(accepted)) => if accepted {
            &&& after == ListenStage::Greeting
            &&& action is Greet
        } else {
            &&& after == ListenStage::Checking
            &&& action is CheckStop
        },
        (ListenStage::Greeting, ListenEvent::Greeted) => {
            &&& after == ListenStage::Accepting
            &&& action is Accept
        },
        _ => false,
    }
}

impl PeersListening {
    /// Whether `event` is what the listening waits for.
    pub open spec fn expects(&self, event: ListenEvent) -> bool {
        match self.stage {
            ListenStage::Binding => event is Bound,
            ListenStage::Checking => event is Stop,
            ListenStage::Accepting => event is Accepted,
            ListenStage::Greeting => event is Greeted,
            ListenStage::Finished => false,
        }
    }

    /// Starts to listen on an address.
    pub fn start(node_address: SocketAddr) -> (res: (Self, ListenAction))
        ensures
            res.0.stage == ListenStage::Binding,
            res.1 == ListenAction::Bind(node_address),
    {
        (PeersListening { stage: ListenStage::Binding }, ListenAction::Bind(node_address))
    }

    /// Goes on with the listening.
    pub fn resume(&mut self, event: ListenEvent) -> (action: ListenAction)
        requires
            old(self).expects(event),
        ensures
            listen_step(old(self).stage, event, final(self).stage, action),
            match event {
                ListenEvent::Bound(Ok(_)) => action is CheckStop,
                ListenEvent::Bound(Err(text)) => action == ListenAction::Finish(Err(text)),
                ListenEvent::Stop(stop) => if stop {
                    action matches ListenAction::Finish(Ok(_))
                } else {
                    action is Accept
                },
                ListenEvent::Accepted(accepted) => if accepted {
                    action is Greet
                } else {
                    action is CheckStop
                },
                ListenEvent::Greeted => action is Accept,
            },
            forall|outcome: ListenEvent| #[trigger]
                final(self).expects(outcome) <==> match action {
                    ListenAction::Bind(_) => outcome is Bound,
                    ListenAction::CheckStop => outcome is Stop,
                    ListenAction::Accept => outcome is Accepted,
                    ListenAction::Greet => outcome is Greeted,
                    ListenAction::Finish(_) => false,
                },
    {
        match event {
            ListenEvent::Bound(Ok(_)) => {
                self.stage = ListenStage::Checking;
                ListenAction::CheckStop
            },
            ListenEvent::Bound(Err(text)) => {
                self.stage = ListenStage::Finished;
                ListenAction::Finish(Err(text))
            },
            ListenEvent::Stop(true) => {
                self.stage = ListenStage::Finished;
                ListenAction::Finish(Ok(()))
            },
            ListenEvent::Accepted(true) => {
                self.stage = ListenStage::Greeting;
                ListenAction::Greet
            },
            ListenEvent::Accepted(false) => {
                self.stage = ListenStage::Checking;
                ListenAction::CheckStop
            },
            ListenEvent::Stop(false) | ListenEvent::Greeted => {
                self.stage = ListenStage::Accepting;
                ListenAction::Accept
            },
        }
    }
}

/// What the listening does next follows from what happened: it accepts peers until
/// none can be accepted, and only then asks whether the node is about to stop.
pub proof fn law_listening_follows_events(
    before: ListenStage,
    event: ListenEvent,
    after: ListenStage,
    action: ListenAction,
)
    requires
        listen_step(before, event, after, action),
    ensures
        event matches ListenEvent::Bound(Ok(_)) ==> action is CheckStop,
        event matches ListenEvent::Bound(Err(text)) ==> action == ListenAction::Finish(Err(text)),
        event == ListenEvent::Stop(true) ==> (action matches ListenAction::Finish(Ok(_))),
        event == ListenEvent::Stop(false) || event is Greeted <==> action is Accept,
        event == ListenEvent::Accepted(true) <==> action is Greet,
        event == ListenEvent::Accepted(false) ==> action is CheckStop,
{
}

/// Every peer that is accepted is greeted, and none besides.
pub proof fn law_accepted_peer_is_greeted(
    before: ListenStage,
    event: ListenEvent,
    after: ListenStage,
    action: ListenAction,
)
    requires
        listen_step(before, event, after, action),
    ensures
        action is Greet <==> event == ListenEvent::Accepted(true),
{
}

} // verus!
