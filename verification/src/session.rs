//! Sessions: the conversation of two peers about one file. A session says what
//! is to be done next; whoever runs it does that and reports what came of it.

use crate::proto::{proto_debug, read_error_text, Proto, ReadError};
use crate::text::{decimal, push_decimal};
use vstd::prelude::*;
use vstd::slice::slice_to_vec;

verus! {

/// Which side of the conversation this is.
#[derive(Clone, Copy, Debug, PartialEq, Eq, Structural)]
pub enum Role {
    Sharing,
    Downloading,
}

/// What a session waits for.
#[derive(Debug)]
pub enum Stage {
    /// The file has been asked for.
    SendingInit,
    /// Whether the node is about to stop.
    Checking,
    /// A message of the peer.
    Reading,
    /// The chunk with this index.
    Fetching(usize),
    /// A chunk has been sent.
    SendingData,
    /// The peer has been told that a chunk cannot be had.
    SendingChunkError,
    /// A chunk of the peer has been filled in.
    Filling,
    /// The peer has been told that its chunk cannot be used.
    SendingFillError,
    /// The end has been announced because of that.
    SendingFillFin,
    /// The chunk that has to be downloaded next.
    Picking,
    /// A chunk has been asked for.
    SendingRequest,
    /// The peer has been told that its message was not expected.
    SendingUnexpected,
    /// The peer has been told that its message could not be read.
    SendingReadError(ReadError),
    /// The end has been announced because of that.
    SendingReadFin(ReadError),
    /// The end has been announced.
    SendingFin,
    /// The connection has been shut down.
    Closing,
    /// Nothing: the session is over.
    Finished,
}

/// Why a session failed.
#[derive(Debug)]
pub enum SessionError {
    /// The file could not be asked for.
    Init(String),
    /// No message could be read.
    Read(ReadError),
    /// A message could not be sent.
    Write(String),
    /// The connection could not be shut down.
    Close(String),
}

/// What a failed session is reported with.
pub open spec fn session_error_text(error: SessionError) -> Seq<char> {
    match error {
        SessionError::Init(_) => "failed to send Init proto message"@,
        SessionError::Read(error) => read_error_text(error),
        SessionError::Write(text) => text@,
        SessionError::Close(text) => text@,
    }
}

impl SessionError {
    /// What the failed session is reported with.
    pub fn text(&self) -> (res: String)
        ensures
            res@ == session_error_text(*self),
            match *self {
                SessionError::Init(_) => res@ == "failed to send Init proto message"@,
                SessionError::Read(error) => res@ == read_error_text(error),
                SessionError::Write(text) => res@ == text@,
                SessionError::Close(text) => res@ == text@,
            },
    {
        match self {
            SessionError::Init(_) => String::from_str("failed to send Init proto message"),
            SessionError::Read(error) => error.text(),
            SessionError::Write(text) => text.clone(),
            SessionError::Close(text) => text.clone(),
        }
    }
}

/// What is to be done next in a session.
#[derive(Debug)]
pub enum SessionAction {
    /// Find out whether the node is about to stop.
    CheckStop,
    /// Read a message of the peer.
    Read,
    /// Send a message to the peer.
    Send(Proto),
    /// Get the chunk with this index.
    FetchChunk(usize),
    /// Fill in a chunk of the file.
    FillChunk(Vec<u8>),
    /// Pick a chunk that has to be downloaded.
    PickAbsent,
    /// Shut the connection down.
    Close,
    /// The session is over.
    Finish(Result<(), SessionError>),
}

/// What became of a [`SessionAction`].
#[derive(Debug)]
pub enum SessionEvent {
    Stop(bool),
    Received(Result<Proto, ReadError>),
    Sent(Result<(), String>),
    Chunk(Result<Option<Vec<u8>>, String>),
    Filled(Result<(), String>),
    Absent(Option<usize>),
    Closed(Result<(), String>),
}

/// One side of a conversation.
#[derive(Debug)]
pub struct Session {
    pub role: Role,
    pub stage: Stage,
}

/// What a peer is told of a message that could not be read.
pub open spec fn unreadable_text(error: ReadError) -> Seq<char> {
    "failed to deserialize a message: "@ + read_error_text(error)
}

/// What a peer is told of a message that was not expected.
pub open spec fn unexpected_text(message: Proto) -> Seq<char> {
    "unexpected message "@ + proto_debug(message)
}

/// What a peer is told of a chunk that cannot be had.
pub open spec fn chunk_error_text(index: usize, error: Seq<char>) -> Seq<char> {
    "error occurred while trying to get a chunk undex "@ + decimal(index as nat) + " index: "@
        + error
}

/// What a peer is told of a chunk that cannot be used.
pub open spec fn fill_error_text(error: Seq<char>) -> Seq<char> {
    "an error happened when trying to fill a chunk of data: "@ + error
}

/// `action` tells the peer `text` in an error message.
pub open spec fn tells(action: SessionAction, text: Seq<char>) -> bool {
    action matches SessionAction::Send(Proto::Error(sent)) && sent@ == text
}

/// The session turns to the next message.
pub open spec fn turns(after: Session, action: SessionAction) -> bool {
    after.stage is Checking && action is CheckStop
}

/// The session announces its end.
pub open spec fn leaves(after: Session, action: SessionAction) -> bool {
    after.stage is SendingFin && action == SessionAction::Send(Proto::Fin)
}

/// The session is over.
pub open spec fn fails(after: Session, action: SessionAction, error: SessionError) -> bool {
    after.stage is Finished && action == SessionAction::Finish(Err(error))
}

/// What a session makes of a message.
pub open spec fn reception(
    role: Role,
    message: Proto,
    after: Session,
    action: SessionAction,
) -> bool {
    match (role, message) {
        (Role::Sharing, Proto::Request(index)) => {
            &&& after.stage == Stage::Fetching(index)
            &&& action == SessionAction::FetchChunk(index)
        },
        (Role::Downloading, Proto::Data(Some(data))) => {
            &&& after.stage is Filling
            &&& action == SessionAction::FillChunk(data)
        },
        (Role::Downloading, Proto::Data(None)) => {
            &&& after.stage is Picking
            &&& action is PickAbsent
        },
        (_, Proto::Fin) => leaves(after, action),
        (_, Proto::Error(_)) => turns(after, action),
        _ => {
            &&& after.stage is SendingUnexpected
            &&& tells(action, unexpected_text(message))
        },
    }
}

/// How `event` takes a session from `before` to `after`, and what is to be done
/// then.
pub open spec fn session_step(
    before: Session,
    event: SessionEvent,
    after: Session,
    action: SessionAction,
) -> bool {
    &&& after.role == before.role
    &&& match (before.stage, event) {
        (Stage::SendingInit, SessionEvent::Sent(Ok(_))) => turns(after, action),
        (Stage::SendingInit, SessionEvent::Sent(Err(text))) => fails(
            after,
            action,
            SessionError::Init(text),
        ),
        (Stage::Checking, SessionEvent::Stop(stop)) => if stop {
            leaves(after, action)
        } else {
            after.stage is Reading && action is Read
        },
        (Stage::Reading, SessionEvent::Received(Ok(message))) => reception(
            before.role,
            message,
            after,
            action,
        ),
        (Stage::Reading, SessionEvent::Received(Err(error))) => {
            &&& after.stage == Stage::SendingReadError(error)
            &&& tells(action, unreadable_text(error))
        },
        (Stage::SendingReadError(error), SessionEvent::Sent(_)) => {
            &&& after.stage == Stage::SendingReadFin(error)
            &&& action == SessionAction::Send(Proto::Fin)
        },
        (Stage::SendingReadFin(error), SessionEvent::Sent(Ok(_))) => fails(
            after,
            action,
            SessionError::Read(error),
        ),
        (Stage::Fetching(_), SessionEvent::Chunk(Ok(data))) => {
            &&& after.stage is SendingData
            &&& action == SessionAction::Send(Proto::Data(data))
        },
        (Stage::Fetching(index), SessionEvent::Chunk(Err(text))) => {
            &&& after.stage is SendingChunkError
            &&& tells(action, chunk_error_text(index, text@))
        },
        (Stage::SendingData, SessionEvent::Sent(Ok(_))) => turns(after, action),
        (Stage::SendingData, SessionEvent::Sent(Err(_))) => leaves(after, action),
        (Stage::SendingChunkError, SessionEvent::Sent(_)) => leaves(after, action),
        (Stage::Filling, SessionEvent::Filled(Ok(_))) => {
            &&& after.stage is Picking
            &&& action is PickAbsent
        },
        (Stage::Filling, SessionEvent::Filled(Err(text))) => {
            &&& after.stage is SendingFillError
            &&& tells(action, fill_error_text(text@))
        },
        (Stage::SendingFillError, SessionEvent::Sent(_)) => {
            &&& after.stage is SendingFillFin
            &&& action == SessionAction::Send(Proto::Fin)
        },
        (Stage::SendingFillFin, SessionEvent::Sent(Ok(_))) => {
            &&& after.stage is Picking
            &&& action is PickAbsent
        },
        (Stage::Picking, SessionEvent::Absent(Some(index))) => {
            &&& after.stage is SendingRequest
            &&& action == SessionAction::Send(Proto::Request(index))
        },
        (Stage::Picking, SessionEvent::Absent(None)) => leaves(after, action),
        (Stage::SendingRequest, SessionEvent::Sent(Ok(_))) => turns(after, action),
        (Stage::SendingUnexpected, SessionEvent::Sent(Ok(_))) => leaves(after, action),
        (Stage::SendingFin, SessionEvent::Sent(Ok(_))) => {
            &&& after.stage is Closing
            &&& action is Close
        },
        (Stage::SendingReadFin(_), SessionEvent::Sent(Err(text)))
        | (Stage::SendingFillFin, SessionEvent::Sent(Err(text)))
        | (Stage::SendingRequest, SessionEvent::Sent(Err(text)))
        | (Stage::SendingUnexpected, SessionEvent::Sent(Err(text)))
        | (Stage::SendingFin, SessionEvent::Sent(Err(text))) => fails(
            after,
            action,
            SessionError::Write(text),
        ),
        (Stage::Closing, SessionEvent::Closed(Ok(_))) => {
            &&& after.stage is Finished
            &&& action matches SessionAction::Finish(Ok(_))
        },
        (Stage::Closing, SessionEvent::Closed(Err(text))) => fails(
            after,
            action,
            SessionError::Close(text),
        ),
        _ => false,
    }
}

impl Session {
    /// Whether `event` is what the session waits for.
    pub open spec fn expects(&self, event: SessionEvent) -> bool {
        match self.stage {
            Stage::Checking => event is Stop,
            Stage::Reading => event is Received,
            Stage::Fetching(_) => event is Chunk,
            Stage::Filling => event is Filled,
            Stage::Picking => event is Absent,
            Stage::Closing => event is Closed,
            Stage::Finished => false,
            _ => event is Sent,
        }
    }

    /// Starts to share a file with a peer.
    pub fn serve_sharing() -> (res: (Session, SessionAction))
        ensures
            res.0.role == Role::Sharing,
            res.0.stage is Checking,
            res.1 is CheckStop,
            turns(res.0, res.1),
            begins(res.0, res.1),
    {
        (Session { role: Role::Sharing, stage: Stage::Checking }, SessionAction::CheckStop)
    }

    /// Starts to download the file with this infohash from a peer.
    pub fn serve_downloading(infohash: &[u8]) -> (res: (Session, SessionAction))
        ensures
            res.0.role == Role::Downloading,
            res.0.stage is SendingInit,
            res.1 matches SessionAction::Send(Proto::Init(asked)) && asked@ == infohash@,
            begins(res.0, res.1),
    {
        (
            Session { role: Role::Downloading, stage: Stage::SendingInit },
            SessionAction::Send(Proto::Init(slice_to_vec(infohash))),
        )
    }

    fn turn(&mut self) -> (action: SessionAction)
        ensures
            final(self).role == old(self).role,
            turns(*final(self), action),
    {
        self.stage = Stage::Checking;
        SessionAction::CheckStop
    }

    fn leave(&mut self) -> (action: SessionAction)
        ensures
            final(self).role == old(self).role,
            leaves(*final(self), action),
    {
        self.stage = Stage::SendingFin;
        SessionAction::Send(Proto::Fin)
    }

    fn fail(&mut self, error: SessionError) -> (action: SessionAction)
        ensures
            final(self).role == old(self).role,
            fails(*final(self), action, error),
    {
        self.stage = Stage::Finished;
        SessionAction::Finish(Err(error))
    }

    fn pick(&mut self) -> (action: SessionAction)
        ensures
            final(self).role == old(self).role,
            final(self).stage is Picking,
            action is PickAbsent,
    {
        self.stage = Stage::Picking;
        SessionAction::PickAbsent
    }

    /// Takes in a message of the peer.
    fn receive(&mut self, message: Proto) -> (action: SessionAction)
        ensures
            final(self).role == old(self).role,
            reception(old(self).role, message, *final(self), action),
    {
        match (self.role, message) {
            (Role::Sharing, Proto::Request(index)) => {
                self.stage = Stage::Fetching(index);
                SessionAction::FetchChunk(index)
            },
            (Role::Downloading, Proto::Data(Some(data))) => {
                self.stage = Stage::Filling;
                SessionAction::FillChunk(data)
            },
            (Role::Downloading, Proto::Data(None)) => self.pick(),
            (_, Proto::Fin) => self.leave(),
            (_, Proto::Error(_)) => self.turn(),
            (_, message) => {
                self.stage = Stage::SendingUnexpected;
                let mut text = String::from_str("unexpected message ");
                text.append(message.debug().as_str());
                SessionAction::Send(Proto::Error(text))
            },
        }
    }

    /// Goes on with the session.
    pub fn resume(&mut self, event: SessionEvent) -> (action: SessionAction)
        requires
            old(self).expects(event),
        ensures
            session_step(*old(self), event, *final(self), action),
            final(self).role == old(self).role,
            match event {
                SessionEvent::Stop(stop) => if stop {
                    action == SessionAction::Send(Proto::Fin)
                } else {
                    action is Read
                },
                SessionEvent::Received(Ok(Proto::Request(index))) => old(self).role
                    == Role::Sharing ==> action == SessionAction::FetchChunk(index),
                SessionEvent::Received(Ok(Proto::Data(Some(data)))) => old(self).role
                    == Role::Downloading ==> action == SessionAction::FillChunk(data),
                SessionEvent::Received(Ok(Proto::Data(None))) => old(self).role
                    == Role::Downloading ==> action is PickAbsent,
                SessionEvent::Received(Ok(Proto::Error(_))) => action is CheckStop,
                SessionEvent::Received(Ok(Proto::Fin)) => action == SessionAction::Send(Proto::Fin),
                SessionEvent::Received(Err(error)) => {
                    &&& action matches SessionAction::Send(Proto::Error(text))
                    &&& text@ == "failed to deserialize a message: "@ + read_error_text(error)
                },
                SessionEvent::Chunk(Ok(data)) => action == SessionAction::Send(Proto::Data(data)),
                SessionEvent::Chunk(Err(_)) => action matches SessionAction::Send(Proto::Error(_)),
                SessionEvent::Filled(Ok(_)) => action is PickAbsent,
                SessionEvent::Filled(Err(error)) => {
                    &&& action matches SessionAction::Send(Proto::Error(text))
                    &&& text@ == "an error happened when trying to fill a chunk of data: "@
                        + error@
                },
                SessionEvent::Absent(Some(index)) => action == SessionAction::Send(
                    Proto::Request(index),
                ),
                SessionEvent::Absent(None) => action == SessionAction::Send(Proto::Fin),
                SessionEvent::Closed(Ok(_)) => action matches SessionAction::Finish(Ok(_)),
                SessionEvent::Closed(Err(text)) => action == SessionAction::Finish(
                    Err(SessionError::Close(text)),
                ),
                _ => true,
            },
    {
        let mut stage = Stage::Finished;
        std::mem::swap(&mut self.stage, &mut stage);
        match (stage, event) {
            (Stage::SendingInit, SessionEvent::Sent(Ok(_))) => self.turn(),
            (Stage::SendingInit, SessionEvent::Sent(Err(text))) => self.fail(
                SessionError::Init(text),
            ),
            (Stage::Checking, SessionEvent::Stop(stop)) => {
                if stop {
                    self.leave()
                } else {
                    self.stage = Stage::Reading;
                    SessionAction::Read
                }
            },
            (Stage::Reading, SessionEvent::Received(Ok(message))) => self.receive(message),
            (Stage::Reading, SessionEvent::Received(Err(error))) => {
                self.stage = Stage::SendingReadError(error);
                let mut text = String::from_str("failed to deserialize a message: ");
                text.append(error.text().as_str());
                SessionAction::Send(Proto::Error(text))
            },
            (Stage::SendingReadError(error), SessionEvent::Sent(_)) => {
                self.stage = Stage::SendingReadFin(error);
                SessionAction::Send(Proto::Fin)
            },
            (Stage::SendingReadFin(error), SessionEvent::Sent(Ok(_))) => self.fail(
                SessionError::Read(error),
            ),
            (Stage::Fetching(_), SessionEvent::Chunk(Ok(data))) => {
                self.stage = Stage::SendingData;
                SessionAction::Send(Proto::Data(data))
            },
            (Stage::Fetching(index), SessionEvent::Chunk(Err(error))) => {
                self.stage = Stage::SendingChunkError;
                let mut text = String::from_str(
                    "error occurred while trying to get a chunk undex ",
                );
                push_decimal(&mut text, index);
                text.append(" index: ");
                text.append(error.as_str());
                SessionAction::Send(Proto::Error(text))
            },
            (Stage::SendingData, SessionEvent::Sent(Ok(_))) => self.turn(),
            (Stage::SendingData, SessionEvent::Sent(Err(_))) => self.leave(),
            (Stage::SendingChunkError, SessionEvent::Sent(_)) => self.leave(),
            (Stage::Filling, SessionEvent::Filled(Ok(_))) => self.pick(),
            (Stage::Filling, SessionEvent::Filled(Err(error))) => {
                self.stage = Stage::SendingFillError;
                let mut text = String::from_str(
                    "an error happened when trying to fill a chunk of data: ",
                );
                text.append(error.as_str());
                SessionAction::Send(Proto::Error(text))
            },
            (Stage::SendingFillError, SessionEvent::Sent(_)) => {
                self.stage = Stage::SendingFillFin;
                SessionAction::Send(Proto::Fin)
            },
            (Stage::SendingFillFin, SessionEvent::Sent(Ok(_))) => self.pick(),
            (Stage::Picking, SessionEvent::Absent(Some(index))) => {
                self.stage = Stage::SendingRequest;
                SessionAction::Send(Proto::Request(index))
            },
            (Stage::Picking, SessionEvent::Absent(None)) => self.leave(),
            (Stage::SendingRequest, SessionEvent::Sent(Ok(_))) => self.turn(),
            (Stage::SendingUnexpected, SessionEvent::Sent(Ok(_))) => self.leave(),
            (Stage::SendingFin, SessionEvent::Sent(Ok(_))) => {
                self.stage = Stage::Closing;
                SessionAction::Close
            },
            (Stage::Closing, SessionEvent::Closed(Ok(_))) => SessionAction::Finish(Ok(())),
            (Stage::Closing, SessionEvent::Closed(Err(text))) => self.fail(
                SessionError::Close(text),
            ),
            (_, SessionEvent::Sent(Err(text))) => self.fail(SessionError::Write(text)),
            _ => {
                assert(false);
                SessionAction::Close
            },
        }
    }
}

/// A session has just begun.
pub open spec fn begins(session: Session, action: SessionAction) -> bool {
    match session.role {
        Role::Sharing => turns(session, action),
        Role::Downloading => {
            &&& session.stage is SendingInit
            &&& action matches SessionAction::Send(Proto::Init(_))
        },
    }
}

/// The event with this number took the session one step on.
pub open spec fn step_at(
    sessions: Seq<Session>,
    events: Seq<SessionEvent>,
    actions: Seq<SessionAction>,
    i: int,
) -> bool {
    session_step(sessions[i], events[i], sessions[i + 1], actions[i + 1])
}

/// A session went through `sessions` and did `actions`, the first of each at
/// its beginning and one more for each of `events`.
pub open spec fn is_run(
    sessions: Seq<Session>,
    events: Seq<SessionEvent>,
    actions: Seq<SessionAction>,
) -> bool {
    &&& sessions.len() == events.len() + 1
    &&& actions.len() == sessions.len()
    &&& begins(sessions[0], actions[0])
    &&& forall|i: int| 0 <= i < events.len() ==> #[trigger] step_at(sessions, events, actions, i)
}

/// The session stands where one of its role can stand.
pub open spec fn fits_role(session: Session) -> bool {
    match session.role {
        Role::Sharing => {
            &&& !(session.stage is SendingInit)
            &&& !(session.stage is Filling)
            &&& !(session.stage is SendingFillError)
            &&& !(session.stage is SendingFillFin)
            &&& !(session.stage is Picking)
            &&& !(session.stage is SendingRequest)
        },
        Role::Downloading => {
            &&& !(session.stage is Fetching)
            &&& !(session.stage is SendingData)
            &&& !(session.stage is SendingChunkError)
        },
    }
}

/// A session keeps its role, and stands only where one of this role can.
pub proof fn law_role_is_kept(
    sessions: Seq<Session>,
    events: Seq<SessionEvent>,
    actions: Seq<SessionAction>,
    i: int,
)
    requires
        is_run(sessions, events, actions),
        0 <= i < sessions.len(),
    ensures
        sessions[i].role == sessions[0].role,
        fits_role(sessions[i]),
    decreases i,
{
    if i > 0 {
        law_role_is_kept(sessions, events, actions, i - 1);
        assert(step_at(sessions, events, actions, i - 1));
    }
}

/// A session that ends well has announced its end and shut the connection down
/// right before.
pub proof fn law_good_end_says_goodbye(
    sessions: Seq<Session>,
    events: Seq<SessionEvent>,
    actions: Seq<SessionAction>,
    i: int,
)
    requires
        is_run(sessions, events, actions),
        0 <= i < actions.len(),
        actions[i] matches SessionAction::Finish(Ok(_)),
    ensures
        i >= 2,
        actions[i - 1] is Close,
        actions[i - 2] == SessionAction::Send(Proto::Fin),
{
    assert(step_at(sessions, events, actions, i - 1));
    assert(sessions[i - 1].stage is Closing);
    assert(step_at(sessions, events, actions, i - 2));
    assert(sessions[i - 2].stage is SendingFin);
    if i > 2 {
        assert(step_at(sessions, events, actions, i - 3));
    }
}

/// A session does nothing once it is over.
pub proof fn law_over_is_over(
    sessions: Seq<Session>,
    events: Seq<SessionEvent>,
    actions: Seq<SessionAction>,
    i: int,
)
    requires
        is_run(sessions, events, actions),
        0 <= i < actions.len(),
        actions[i] is Finish,
    ensures
        i == actions.len() - 1,
{
    assert(step_at(sessions, events, actions, i - 1));
    assert(sessions[i].stage is Finished);
    if i < actions.len() - 1 {
        assert(step_at(sessions, events, actions, i));
    }
}

/// Data is sent only to a peer that has just asked for a chunk, and it is what
/// was found under the index that the peer asked for.
pub proof fn law_data_answers_a_request(
    sessions: Seq<Session>,
    events: Seq<SessionEvent>,
    actions: Seq<SessionAction>,
    i: int,
    data: Option<Vec<u8>>,
)
    requires
        is_run(sessions, events, actions),
        0 <= i < actions.len(),
        actions[i] == SessionAction::Send(Proto::Data(data)),
    ensures
        sessions[i].role == Role::Sharing,
        i >= 2,
        exists|index: usize|
            {
                &&& events[i - 2] == SessionEvent::Received(Ok(Proto::Request(index)))
                &&& #[trigger] wants(actions[i - 1], index)
                &&& events[i - 1] == SessionEvent::Chunk(Ok(data))
            },
{
    law_role_is_kept(sessions, events, actions, i);
    assert(step_at(sessions, events, actions, i - 1));
    assert(sessions[i - 1].stage is Fetching);
    let index = sessions[i - 1].stage->Fetching_0;
    law_role_is_kept(sessions, events, actions, i - 1);
    assert(step_at(sessions, events, actions, i - 2));
    assert(wants(actions[i - 1], index));
}

/// `action` gets the chunk with this index.
pub open spec fn wants(action: SessionAction, index: usize) -> bool {
    action == SessionAction::FetchChunk(index)
}

/// A chunk is asked for only by a downloading session, and it is the one that
/// was picked.
pub proof fn law_picked_chunk_is_requested(
    sessions: Seq<Session>,
    events: Seq<SessionEvent>,
    actions: Seq<SessionAction>,
    i: int,
    index: usize,
)
    requires
        is_run(sessions, events, actions),
        0 <= i < actions.len(),
        actions[i] == SessionAction::Send(Proto::Request(index)),
    ensures
        sessions[i].role == Role::Downloading,
        i >= 1,
        events[i - 1] == SessionEvent::Absent(Some(index)),
{
    law_role_is_kept(sessions, events, actions, i);
    assert(step_at(sessions, events, actions, i - 1));
}

/// A sharing session that has announced its end sends nothing more.
pub proof fn law_sharer_is_silent_after_fin(
    sessions: Seq<Session>,
    events: Seq<SessionEvent>,
    actions: Seq<SessionAction>,
    i: int,
    j: int,
)
    requires
        is_run(sessions, events, actions),
        sessions[0].role == Role::Sharing,
        0 <= i < j < actions.len(),
        actions[i] == SessionAction::Send(Proto::Fin),
    ensures
        !(actions[j] is Send),
{
    assert(step_at(sessions, events, actions, i - 1));
    law_role_is_kept(sessions, events, actions, i);
    assert(sessions[i].stage is SendingFin || sessions[i].stage is SendingReadFin);
    assert(step_at(sessions, events, actions, i));
    if j > i + 1 {
        assert(step_at(sessions, events, actions, i + 1));
        assert(sessions[i + 2].stage is Finished);
        if j > i + 2 {
            assert(step_at(sessions, events, actions, i + 2));
        }
    }
}

/// A message that could not be read is answered with an error message and the
/// announcement of the end, and the session fails, whatever becomes of the
/// answer.
pub proof fn law_unreadable_message_is_answered(
    sessions: Seq<Session>,
    events: Seq<SessionEvent>,
    actions: Seq<SessionAction>,
    i: int,
    error: ReadError,
)
    requires
        is_run(sessions, events, actions),
        0 <= i,
        i + 2 < events.len(),
        events[i] == SessionEvent::Received(Err(error)),
    ensures
        tells(actions[i + 1], unreadable_text(error)),
        actions[i + 1] matches SessionAction::Send(Proto::Error(text)) && text@
            == "failed to deserialize a message: "@ + (match error {
            ReadError::Receive => "failed to read a proto message"@,
            ReadError::Deserialize => "serde failed to deserialized a proto message"@,
        }),
        actions[i + 2] == SessionAction::Send(Proto::Fin),
        actions[i + 3] matches SessionAction::Finish(Err(_)),
        events[i + 2] matches SessionEvent::Sent(Err(text)) ==> actions[i + 3]
            == SessionAction::Finish(Err(SessionError::Write(text))),
        events[i + 2] matches SessionEvent::Sent(Ok(_)) ==> actions[i + 3]
            == SessionAction::Finish(Err(SessionError::Read(error))),
{
    assert(step_at(sessions, events, actions, i));
    assert(step_at(sessions, events, actions, i + 1));
    assert(step_at(sessions, events, actions, i + 2));
}

/// Whether a message is one that a session of this role has no use for.
pub open spec fn is_unexpected(role: Role, message: Proto) -> bool {
    match role {
        Role::Sharing => message is Init || message is Data,
        Role::Downloading => message is Init || message is Request,
    }
}

/// A message that was not expected is answered with an error message that shows
/// it; then the session announces its end.
pub proof fn law_unexpected_message_is_answered(
    sessions: Seq<Session>,
    events: Seq<SessionEvent>,
    actions: Seq<SessionAction>,
    i: int,
    message: Proto,
)
    requires
        is_run(sessions, events, actions),
        0 <= i,
        i + 1 < events.len(),
        events[i] == SessionEvent::Received(Ok(message)),
        match sessions[0].role {
            Role::Sharing => message is Init || message is Data,
            Role::Downloading => message is Init || message is Request,
        },
    ensures
        is_unexpected(sessions[0].role, message),
        tells(actions[i + 1], unexpected_text(message)),
        actions[i + 1] matches SessionAction::Send(Proto::Error(text)) && text@
            == "unexpected message "@ + proto_debug(message),
        events[i + 1] matches SessionEvent::Sent(Ok(_)) ==> actions[i + 2] == SessionAction::Send(
            Proto::Fin,
        ),
        events[i + 1] matches SessionEvent::Sent(Err(text)) ==> actions[i + 2]
            == SessionAction::Finish(Err(SessionError::Write(text))),
{
    law_role_is_kept(sessions, events, actions, i);
    assert(step_at(sessions, events, actions, i));
    assert(step_at(sessions, events, actions, i + 1));
}

/// A session announces its end when its peer has done so, and when the node is
/// about to stop.
pub proof fn law_end_is_announced(
    sessions: Seq<Session>,
    events: Seq<SessionEvent>,
    actions: Seq<SessionAction>,
    i: int,
)
    requires
        is_run(sessions, events, actions),
        0 <= i < events.len(),
        events[i] == SessionEvent::Received(Ok(Proto::Fin)) || events[i] == SessionEvent::Stop(
            true,
        ),
    ensures
        actions[i + 1] == SessionAction::Send(Proto::Fin),
        sessions[i + 1].stage is SendingFin,
{
    assert(step_at(sessions, events, actions, i));
}

/// A request is answered with one message: the data that was found, or an error
/// message that names the index.
pub proof fn law_request_is_answered(
    sessions: Seq<Session>,
    events: Seq<SessionEvent>,
    actions: Seq<SessionAction>,
    i: int,
    index: usize,
)
    requires
        is_run(sessions, events, actions),
        sessions[0].role == Role::Sharing,
        0 <= i,
        i + 1 < events.len(),
        events[i] == SessionEvent::Received(Ok(Proto::Request(index))),
    ensures
        actions[i + 1] == SessionAction::FetchChunk(index),
        match events[i + 1] {
            SessionEvent::Chunk(Ok(data)) => actions[i + 2] == SessionAction::Send(
                Proto::Data(data),
            ),
            SessionEvent::Chunk(Err(text)) => {
                &&& tells(actions[i + 2], chunk_error_text(index, text@))
                &&& actions[i + 2] matches SessionAction::Send(Proto::Error(sent))
                &&& sent@ == "error occurred while trying to get a chunk undex "@ + decimal(
                    index as nat,
                ) + " index: "@ + text@
                &&& i + 2 < events.len() ==> actions[i + 3] == SessionAction::Send(Proto::Fin)
            },
            _ => false,
        },
{
    law_role_is_kept(sessions, events, actions, i);
    assert(step_at(sessions, events, actions, i));
    assert(step_at(sessions, events, actions, i + 1));
    if i + 2 < events.len() {
        assert(step_at(sessions, events, actions, i + 2));
    }
}

/// Data that cannot be used is answered with an error message and the
/// announcement of the end; then the next chunk is picked all the same.
pub proof fn law_refused_data_is_answered(
    sessions: Seq<Session>,
    events: Seq<SessionEvent>,
    actions: Seq<SessionAction>,
    i: int,
    text: String,
)
    requires
        is_run(sessions, events, actions),
        0 <= i,
        i + 2 < events.len(),
        events[i] == SessionEvent::Filled(Err(text)),
    ensures
        tells(actions[i + 1], fill_error_text(text@)),
        actions[i + 1] matches SessionAction::Send(Proto::Error(sent)) && sent@
            == "an error happened when trying to fill a chunk of data: "@ + text@,
        actions[i + 2] == SessionAction::Send(Proto::Fin),
        events[i + 2] matches SessionEvent::Sent(Ok(_)) ==> actions[i + 3] is PickAbsent,
        events[i + 2] matches SessionEvent::Sent(Err(error)) ==> actions[i + 3]
            == SessionAction::Finish(Err(SessionError::Write(error))),
{
    assert(step_at(sessions, events, actions, i));
    assert(step_at(sessions, events, actions, i + 1));
    assert(step_at(sessions, events, actions, i + 2));
}

/// An error message of the peer is passed over.
pub proof fn law_error_message_is_passed_over(
    sessions: Seq<Session>,
    events: Seq<SessionEvent>,
    actions: Seq<SessionAction>,
    i: int,
    text: String,
)
    requires
        is_run(sessions, events, actions),
        0 <= i < events.len(),
        events[i] == SessionEvent::Received(Ok(Proto::Error(text))),
    ensures
        actions[i + 1] is CheckStop,
{
    assert(step_at(sessions, events, actions, i));
}

/// Where a session has just begun, that is a run of it.
pub proof fn law_run_begins(session: Session, action: SessionAction)
    requires
        match session.role {
            Role::Sharing => session.stage is Checking && action is CheckStop,
            Role::Downloading => {
                &&& session.stage is SendingInit
                &&& action matches SessionAction::Send(Proto::Init(_))
            },
        },
    ensures
        is_run(seq![session], Seq::empty(), seq![action]),
{
}

/// A step of a session takes its run one further.
pub proof fn law_run_goes_on(
    sessions: Seq<Session>,
    events: Seq<SessionEvent>,
    actions: Seq<SessionAction>,
    event: SessionEvent,
    next: Session,
    action: SessionAction,
)
    requires
        is_run(sessions, events, actions),
        session_step(sessions.last(), event, next, action),
    ensures
        is_run(sessions.push(next), events.push(event), actions.push(action)),
{
    let all_sessions = sessions.push(next);
    let all_events = events.push(event);
    let all_actions = actions.push(action);
    assert forall|i: int| 0 <= i < all_events.len() implies #[trigger] step_at(
        all_sessions,
        all_events,
        all_actions,
        i,
    ) by {
        if i < events.len() {
            assert(step_at(sessions, events, actions, i));
        }
    }
}

/// All data that a peer sends to a downloading session is filled in, whatever its
/// length; where the peer has none, the next chunk is picked.
pub proof fn law_received_data_is_filled_in(
    sessions: Seq<Session>,
    events: Seq<SessionEvent>,
    actions: Seq<SessionAction>,
    i: int,
    data: Option<Vec<u8>>,
)
    requires
        is_run(sessions, events, actions),
        sessions[0].role == Role::Downloading,
        0 <= i < events.len(),
        events[i] == SessionEvent::Received(Ok(Proto::Data(data))),
    ensures
        data matches Some(bytes) ==> actions[i + 1] == SessionAction::FillChunk(bytes),
        data is None ==> actions[i + 1] is PickAbsent,
{
    law_role_is_kept(sessions, events, actions, i);
    assert(step_at(sessions, events, actions, i));
}

/// Only data that the peer has just sent is filled in.
pub proof fn law_filled_data_was_received(
    sessions: Seq<Session>,
    events: Seq<SessionEvent>,
    actions: Seq<SessionAction>,
    i: int,
    data: Vec<u8>,
)
    requires
        is_run(sessions, events, actions),
        0 <= i < actions.len(),
        actions[i] == SessionAction::FillChunk(data),
    ensures
        sessions[0].role == Role::Downloading,
        i >= 1,
        events[i - 1] == SessionEvent::Received(Ok(Proto::Data(Some(data)))),
{
    law_role_is_kept(sessions, events, actions, i);
    assert(step_at(sessions, events, actions, i - 1));
}

/// Once data has been filled in, a chunk is picked; one that is picked is asked
/// for, and where none is left the end is announced.
pub proof fn law_missing_chunks_are_asked_for(
    sessions: Seq<Session>,
    events: Seq<SessionEvent>,
    actions: Seq<SessionAction>,
    i: int,
)
    requires
        is_run(sessions, events, actions),
        0 <= i < events.len(),
    ensures
        events[i] matches SessionEvent::Filled(Ok(_)) ==> actions[i + 1] is PickAbsent,
        events[i] matches SessionEvent::Absent(Some(index)) ==> actions[i + 1]
            == SessionAction::Send(Proto::Request(index)),
        events[i] matches SessionEvent::Absent(None) ==> actions[i + 1] == SessionAction::Send(
            Proto::Fin,
        ),
{
    assert(step_at(sessions, events, actions, i));
}

/// Before each message a session asks whether the node is about to stop, and reads
/// only where it is not.
pub proof fn law_session_reads_until_the_node_stops(
    sessions: Seq<Session>,
    events: Seq<SessionEvent>,
    actions: Seq<SessionAction>,
    i: int,
)
    requires
        is_run(sessions, events, actions),
        0 <= i < events.len(),
    ensures
        events[i] == SessionEvent::Stop(false) <==> actions[i + 1] is Read,
        events[i] == SessionEvent::Stop(true) ==> actions[i + 1] == SessionAction::Send(Proto::Fin),
        events[i] matches SessionEvent::Stop(_) ==> actions[i] is CheckStop,
{
    assert(step_at(sessions, events, actions, i));
    if i > 0 {
        assert(step_at(sessions, events, actions, i - 1));
    }
}

/// What becomes of the messages that carry the exchange: the session goes on to
/// the next message where one was sent. Where it was not, a sharer announces its
/// end, and a downloader fails.
pub proof fn law_sent_messages_are_followed_up(
    sessions: Seq<Session>,
    events: Seq<SessionEvent>,
    actions: Seq<SessionAction>,
    i: int,
    message: Proto,
)
    requires
        is_run(sessions, events, actions),
        0 <= i < events.len(),
        actions[i] == SessionAction::Send(message),
        message is Init || message is Request || message is Data,
    ensures
        match events[i] {
            SessionEvent::Sent(Ok(_)) => actions[i + 1] is CheckStop,
            SessionEvent::Sent(Err(text)) => match message {
                Proto::Init(_) => actions[i + 1] == SessionAction::Finish(
                    Err(SessionError::Init(text)),
                ),
                Proto::Request(_) => actions[i + 1] == SessionAction::Finish(
                    Err(SessionError::Write(text)),
                ),
                _ => actions[i + 1] == SessionAction::Send(Proto::Fin),
            },
            _ => false,
        },
{
    if i > 0 {
        assert(step_at(sessions, events, actions, i - 1));
    }
    assert(step_at(sessions, events, actions, i));
}

/// An end that is announced is followed by the shutting down of the connection, and
/// that by the end of the session. Only where a message could not be read, or data
/// could not be used, does the announcement lead elsewhere.
pub proof fn law_announced_end_closes(
    sessions: Seq<Session>,
    events: Seq<SessionEvent>,
    actions: Seq<SessionAction>,
    i: int,
)
    requires
        is_run(sessions, events, actions),
        0 <= i < events.len(),
        actions[i] == SessionAction::Send(Proto::Fin),
        i >= 2 ==> !(events[i - 2] matches SessionEvent::Received(Err(_))) && !(events[i
            - 2] matches SessionEvent::Filled(Err(_))),
    ensures
        match events[i] {
            SessionEvent::Sent(Ok(_)) => actions[i + 1] is Close,
            SessionEvent::Sent(Err(text)) => actions[i + 1] == SessionAction::Finish(
                Err(SessionError::Write(text)),
            ),
            _ => false,
        },
        i + 1 < events.len() ==> match events[i + 1] {
            SessionEvent::Closed(Ok(_)) => actions[i + 2] matches SessionAction::Finish(Ok(_)),
            SessionEvent::Closed(Err(text)) => actions[i + 2] == SessionAction::Finish(
                Err(SessionError::Close(text)),
            ),
            _ => false,
        },
{
    if i > 0 {
        assert(step_at(sessions, events, actions, i - 1));
    }
    if i > 1 {
        assert(step_at(sessions, events, actions, i - 2));
    }
    assert(step_at(sessions, events, actions, i));
    if i + 1 < events.len() {
        assert(step_at(sessions, events, actions, i + 1));
    }
}

/// Whatever comes of an action, the session takes it.
pub proof fn law_every_outcome_is_expected(
    sessions: Seq<Session>,
    events: Seq<SessionEvent>,
    actions: Seq<SessionAction>,
    i: int,
    outcome: SessionEvent,
)
    requires
        is_run(sessions, events, actions),
        0 <= i < actions.len(),
    ensures
        sessions[i].expects(outcome) <==> match actions[i] {
            SessionAction::CheckStop => outcome is Stop,
            SessionAction::Read => outcome is Received,
            SessionAction::Send(_) => outcome is Sent,
            SessionAction::FetchChunk(_) => outcome is Chunk,
            SessionAction::FillChunk(_) => outcome is Filled,
            SessionAction::PickAbsent => outcome is Absent,
            SessionAction::Close => outcome is Closed,
            SessionAction::Finish(_) => false,
        },
{
    if i > 0 {
        law_role_is_kept(sessions, events, actions, i - 1);
        assert(step_at(sessions, events, actions, i - 1));
    }
}

} // verus!
