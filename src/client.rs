//! The clients that stand between a session's owner and its watchers.
//!
//! A client's loop runs with the caller, which owns the threads and channels.
//! Each thing that happens is handed to the client as a [`ClientEvent`]; the
//! client answers with the [`ClientCommand`]s to carry out, in order.

use vstd::prelude::*;
use crate::message::{Message, MessageView};

verus! {

/// What happened around a client.
#[derive(Debug, PartialEq, Eq)]
pub enum ClientEvent {
    /// The directory watcher selected this file.
    FileSelected(String),
    /// The file watcher produced this message.
    FromWatcher(Message),
    /// A watcher went away: its channel was disconnected.
    WatcherGone,
    /// The owner's stop channel gave this value.
    StopSignal(bool),
    /// The owner's message sink is gone.
    OwnerGone,
}

/// What a client asks the caller to do.
#[derive(Debug, PartialEq, Eq)]
pub enum ClientCommand {
    /// Send this message to the owner.
    Emit(Message),
    /// Signal the current file watcher to stop, and let go of it.
    StopFileWatch,
    /// Start a file watcher on this path.
    StartFileWatch(String),
    /// Signal the directory watcher to stop.
    StopDirWatch,
    /// End the client's loop.
    Exit,
}

pub enum EventView {
    FileSelected(Seq<char>),
    FromWatcher(MessageView),
    WatcherGone,
    StopSignal(bool),
    OwnerGone,
}

pub enum CommandView {
    Emit(MessageView),
    StopFileWatch,
    StartFileWatch(Seq<char>),
    StopDirWatch,
    Exit,
}

impl View for ClientEvent {
    type V = EventView;

    open spec fn view(&self) -> EventView {
        match self {
            ClientEvent::FileSelected(p) => EventView::FileSelected(p@),
            ClientEvent::FromWatcher(m) => EventView::FromWatcher(m@),
            ClientEvent::WatcherGone => EventView::WatcherGone,
            ClientEvent::StopSignal(b) => EventView::StopSignal(*b),
            ClientEvent::OwnerGone => EventView::OwnerGone,
        }
    }
}

impl View for ClientCommand {
    type V = CommandView;

    open spec fn view(&self) -> CommandView {
        match self {
            ClientCommand::Emit(m) => CommandView::Emit(m@),
            ClientCommand::StopFileWatch => CommandView::StopFileWatch,
            ClientCommand::StartFileWatch(p) => CommandView::StartFileWatch(p@),
            ClientCommand::StopDirWatch => CommandView::StopDirWatch,
            ClientCommand::Exit => CommandView::Exit,
        }
    }
}

pub open spec fn commands_view(v: Seq<ClientCommand>) -> Seq<CommandView> {
    v.map_values(|c: ClientCommand| c@)
}

/// The state of a client, as the contracts see it.
pub struct ClientState {
    /// The file whose watcher runs now, if any.
    pub active_file: Option<Seq<char>>,
    /// The client's loop has ended.
    pub terminated: bool,
}

/// The events that end a client: a stop from the owner, or a broken channel
/// on either side.
pub open spec fn ends_client(e: EventView) -> bool {
    match e {
        EventView::WatcherGone | EventView::OwnerGone => true,
        EventView::StopSignal(b) => b,
        _ => false,
    }
}

/// Stopping the running file watcher, if there is one.
pub open spec fn stop_active(s: ClientState) -> Seq<CommandView> {
    if s.active_file is Some {
        seq![CommandView::StopFileWatch]
    } else {
        seq![]
    }
}

/// One step of a client that follows a single file.
pub open spec fn file_client_step(s: ClientState, e: EventView) -> (ClientState, Seq<CommandView>) {
    if s.terminated {
        (s, seq![])
    } else if ends_client(e) {
        (
            ClientState { active_file: None, terminated: true },
            stop_active(s) + seq![CommandView::Exit],
        )
    } else {
        match e {
            EventView::FromWatcher(m) => (s, seq![CommandView::Emit(m)]),
            _ => (s, seq![]),
        }
    }
}

/// One step of a client that follows a directory.
pub open spec fn dir_client_step(s: ClientState, e: EventView) -> (ClientState, Seq<CommandView>) {
    if s.terminated {
        (s, seq![])
    } else if ends_client(e) {
        (
            ClientState { active_file: None, terminated: true },
            stop_active(s) + seq![CommandView::StopDirWatch, CommandView::Exit],
        )
    } else {
        match e {
            EventView::FileSelected(p) => (
                ClientState { active_file: Some(p), ..s },
                stop_active(s) + seq![
                    CommandView::Emit(MessageView::NewFile(p)),
                    CommandView::StartFileWatch(p),
                ],
            ),
            EventView::FromWatcher(m) => if s.active_file is Some {
                (s, seq![CommandView::Emit(m)])
            } else {
                (s, seq![])
            },
            _ => (s, seq![]),
        }
    }
}

/// The commands that a directory client gives over a run of events, in order.
pub open spec fn dir_client_run(s: ClientState, es: Seq<EventView>) -> (ClientState, Seq<CommandView>)
    decreases es.len(),
{
    if es.len() == 0 {
        (s, seq![])
    } else {
        let (s1, c1) = dir_client_step(s, es[0]);
        let (s2, c2) = dir_client_run(s1, es.drop_first());
        (s2, c1 + c2)
    }
}

/// The commands that a file client gives over a run of events, in order.
pub open spec fn file_client_run(s: ClientState, es: Seq<EventView>) -> (ClientState, Seq<CommandView>)
    decreases es.len(),
{
    if es.len() == 0 {
        (s, seq![])
    } else {
        let (s1, c1) = file_client_step(s, es[0]);
        let (s2, c1b) = file_client_run(s1, es.drop_first());
        (s2, c1 + c1b)
    }
}

/// Once a client has ended it gives no command at all, whatever comes next:
/// in particular nothing more reaches its owner.
pub proof fn lemma_terminated_client_silent(s: ClientState, es: Seq<EventView>)
    requires
        s.terminated,
    ensures
        dir_client_run(s, es) == (s, Seq::<CommandView>::empty()),
        file_client_run(s, es) == (s, Seq::<CommandView>::empty()),
    decreases es.len(),
{
    if es.len() > 0 {
        lemma_terminated_client_silent(s, es.drop_first());
        assert(Seq::<CommandView>::empty() + Seq::<CommandView>::empty() =~= Seq::<CommandView>::empty());
    }
}

/// A stop from the owner ends a running client in one step: that step sends
/// the owner nothing and ends with the command to exit, and the client gives
/// no command after it, whatever comes next.
pub proof fn lemma_stop_ends_client(s: ClientState, es: Seq<EventView>)
    requires
        !s.terminated,
    ensures
        ({
            let (s1, c) = dir_client_step(s, EventView::StopSignal(true));
            &&& s1.terminated
            &&& c.len() > 0 && c.last() == CommandView::Exit
            &&& forall|i: int| 0 <= i < c.len() ==> !(#[trigger] c[i] is Emit)
            &&& dir_client_run(s1, es).1 == Seq::<CommandView>::empty()
        }),
        ({
            let (s1, c) = file_client_step(s, EventView::StopSignal(true));
            &&& s1.terminated
            &&& c.len() > 0 && c.last() == CommandView::Exit
            &&& forall|i: int| 0 <= i < c.len() ==> !(#[trigger] c[i] is Emit)
            &&& file_client_run(s1, es).1 == Seq::<CommandView>::empty()
        }),
{
    lemma_terminated_client_silent(dir_client_step(s, EventView::StopSignal(true)).0, es);
    lemma_terminated_client_silent(file_client_step(s, EventView::StopSignal(true)).0, es);
}

/// When a directory client switches to a newly selected file, the first thing
/// it sends its owner is `NewFile` for that file, and the watcher of that file
/// is started only after it: the new file's lines come after the switch.
pub proof fn lemma_new_file_announced_first(s: ClientState, p: Seq<char>, es: Seq<EventView>)
    requires
        !s.terminated,
    ensures
        ({
            let c = dir_client_run(s, seq![EventView::FileSelected(p)] + es).1;
            exists|k: int|
                0 <= k && k + 1 < c.len() && #[trigger] c[k] == CommandView::Emit(MessageView::NewFile(p))
                    && c[k + 1] == CommandView::StartFileWatch(p) && forall|j: int|
                    0 <= j < k ==> !(#[trigger] c[j] is Emit)
        }),
{
    let all = seq![EventView::FileSelected(p)] + es;
    assert(all[0] == EventView::FileSelected(p));
    assert(all.drop_first() =~= es);
    let (s1, c1) = dir_client_step(s, EventView::FileSelected(p));
    let c = dir_client_run(s, all).1;
    let k = stop_active(s).len() as int;
    assert(c == c1 + dir_client_run(s1, es).1);
    assert(c[k] == c1[k]);
    assert(c[k + 1] == c1[k + 1]);
    assert forall|j: int| 0 <= j < k implies !(#[trigger] c[j] is Emit) by {
        assert(c[j] == c1[j]);
    }
}

fn stop_active_commands(active: bool) -> (r: Vec<ClientCommand>)
    ensures
        commands_view(r@) == (if active {
            seq![CommandView::StopFileWatch]
        } else {
            Seq::<CommandView>::empty()
        }),
{
    let mut r: Vec<ClientCommand> = Vec::new();
    if active {
        r.push(ClientCommand::StopFileWatch);
    }
    proof {
        assert(commands_view(r@) =~= (if active {
            seq![CommandView::StopFileWatch]
        } else {
            Seq::<CommandView>::empty()
        }));
    }
    r
}

/// Forwards what the watcher of one file produces.
pub struct FileWatchClient {
    path: String,
    terminated: bool,
}

impl View for FileWatchClient {
    type V = ClientState;

    closed spec fn view(&self) -> ClientState {
        ClientState {
            active_file: if self.terminated {
                None
            } else {
                Some(self.path@)
            },
            terminated: self.terminated,
        }
    }
}

impl FileWatchClient {
    /// The path of the file followed.
    pub closed spec fn path_view(&self) -> Seq<char> {
        self.path@
    }

    /// A client whose file watcher on `path` has just been started.
    pub fn new(path: &str) -> (r: FileWatchClient)
        ensures
            r@ == (ClientState { active_file: Some(path@), terminated: false }),
            !r@.terminated ==> r@.active_file is Some,
            r.path_view() == path@,
    {
        FileWatchClient { path: path.to_owned(), terminated: false }
    }

    /// The path of the file followed.
    pub fn get_path(&self) -> (r: &String)
        ensures
            r@ == self.path_view(),
    {
        &self.path
    }

    /// The client's loop has ended.
    pub fn is_terminated(&self) -> (r: bool)
        ensures
            r == self@.terminated,
    {
        self.terminated
    }

    /// Takes one event; gives the commands to carry out, in order.
    pub fn handle(&mut self, event: ClientEvent) -> (cmds: Vec<ClientCommand>)
        ensures
            (final(self)@, commands_view(cmds@)) == file_client_step(old(self)@, event@),
            !final(self)@.terminated ==> final(self)@.active_file is Some,
            !old(self)@.terminated ==> old(self)@.active_file is Some,
    {
        if self.terminated {
            return Vec::new();
        }
        let ends = match &event {
            ClientEvent::WatcherGone | ClientEvent::OwnerGone => true,
            ClientEvent::StopSignal(b) => *b,
            _ => false,
        };
        if ends {
            let mut cmds = stop_active_commands(true);
            cmds.push(ClientCommand::Exit);
            self.terminated = true;
            proof {
                assert(commands_view(cmds@) =~= stop_active(old(self)@) + seq![CommandView::Exit]);
            }
            return cmds;
        }
        match event {
            ClientEvent::FromWatcher(m) => {
                let cmds = vec![ClientCommand::Emit(m)];
                proof {
                    assert(commands_view(cmds@) =~= seq![cmds@[0]@]);
                }
                cmds
            },
            _ => Vec::new(),
        }
    }
}

/// Follows the file that a directory watcher selects, and swaps the file
/// watcher whenever the selection changes.
pub struct DirWatchClient {
    path: String,
    active_file: Option<String>,
    terminated: bool,
}

impl View for DirWatchClient {
    type V = ClientState;

    closed spec fn view(&self) -> ClientState {
        ClientState {
            active_file: match &self.active_file {
                Some(p) => Some(p@),
                None => None,
            },
            terminated: self.terminated,
        }
    }
}

impl DirWatchClient {
    /// The path of the directory followed.
    pub closed spec fn path_view(&self) -> Seq<char> {
        self.path@
    }

    /// A client whose directory watcher on `path` has just been started.
    pub fn new(path: &str) -> (r: DirWatchClient)
        ensures
            r@ == (ClientState { active_file: None, terminated: false }),
            r.path_view() == path@,
    {
        DirWatchClient { path: path.to_owned(), active_file: None, terminated: false }
    }

    /// The path of the directory followed.
    pub fn get_path(&self) -> (r: &String)
        ensures
            r@ == self.path_view(),
    {
        &self.path
    }

    /// The client's loop has ended.
    pub fn is_terminated(&self) -> (r: bool)
        ensures
            r == self@.terminated,
    {
        self.terminated
    }

    /// Takes one event; gives the commands to carry out, in order.
    pub fn handle(&mut self, event: ClientEvent) -> (cmds: Vec<ClientCommand>)
        ensures
            (final(self)@, commands_view(cmds@)) == dir_client_step(old(self)@, event@),
    {
        if self.terminated {
            return Vec::new();
        }
        let ends = match &event {
            ClientEvent::WatcherGone | ClientEvent::OwnerGone => true,
            ClientEvent::StopSignal(b) => *b,
            _ => false,
        };
        let active = self.active_file.is_some();
        if ends {
            let mut cmds = stop_active_commands(active);
            cmds.push(ClientCommand::StopDirWatch);
            cmds.push(ClientCommand::Exit);
            self.active_file = None;
            self.terminated = true;
            proof {
                assert(commands_view(cmds@) =~= stop_active(old(self)@) + seq![
                    CommandView::StopDirWatch,
                    CommandView::Exit,
                ]);
            }
            return cmds;
        }
        match event {
            ClientEvent::FileSelected(p) => {
                let mut cmds = stop_active_commands(active);
                cmds.push(ClientCommand::Emit(Message::NewFile(p.clone())));
                cmds.push(ClientCommand::StartFileWatch(p.clone()));
                self.active_file = Some(p);
                proof {
                    assert(commands_view(cmds@) =~= stop_active(old(self)@) + seq![
                        CommandView::Emit(MessageView::NewFile(p@)),
                        CommandView::StartFileWatch(p@),
                    ]);
                }
                cmds
            },
            ClientEvent::FromWatcher(m) => {
                if active {
                    let cmds = vec![ClientCommand::Emit(m)];
                    proof {
                        assert(commands_view(cmds@) =~= seq![cmds@[0]@]);
                    }
                    cmds
                } else {
                    Vec::new()
                }
            },
            _ => Vec::new(),
        }
    }
}

} // verus!
