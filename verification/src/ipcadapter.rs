//! The interfaces through which the workspace logic talks to the compositor,
//! and plain-value implementations of them.
use vstd::prelude::*;

verus! {

/// A command that the compositor did not carry out.
#[derive(Debug)]
pub enum IpcError {
    Command(String),
}

/// The replies of the commands that were run, or the error that stopped them.
pub type IpcResult = Result<Vec<String>, IpcError>;

////////////////////////////////////////////////////////////////////////////////
// INTERFACES
////////////////////////////////////////////////////////////////////////////////

/// A connection that runs commands in the compositor.
pub trait ConnectionProxy {
    /// Whether the connection keeps the record `history` of the commands it is
    /// handed. One that keeps none claims nothing of `history`.
    open spec fn keeps_history(&self) -> bool {
        false
    }

    /// Every command handed to the connection so far, each with whether the
    /// compositor carried it out.
    open spec fn history(&self) -> Seq<(Seq<char>, bool)> {
        Seq::empty()
    }

    /// Runs one command. A connection that keeps a record adds the command to
    /// it, with whether it was carried out; on success the reply is the
    /// command itself.
    fn run_command(&mut self, payload: String) -> (r: IpcResult)
        ensures
            old(self).keeps_history() ==> final(self).keeps_history() && final(self).history()
                == old(self).history().push((payload@, r is Ok)),
            r matches Ok(v) ==> v@.len() == 1 && v@[0]@ == payload@,
    ;
}

/// The two records report the same workspace: the same number, name, output
/// and focus.
pub open spec fn same_workspace(a: MockWorkspace, b: MockWorkspace) -> bool {
    &&& a.num == b.num
    &&& a.name@ == b.name@
    &&& a.output@ == b.output@
    &&& a.focused == b.focused
}

/// The two records report the same output: the same name and focus.
pub open spec fn same_output(a: MockOutput, b: MockOutput) -> bool {
    a.name@ == b.name@ && a.focused == b.focused
}

/// A workspace as the compositor reports it.
pub trait WorkspaceProxy {
    /// Whether `record` holds what the getters report. One for which it does
    /// not claims nothing of `record`.
    open spec fn reports_record(&self) -> bool {
        false
    }

    /// The workspace reported, as plain values.
    open spec fn record(&self) -> MockWorkspace {
        vstd::pervasive::arbitrary()
    }

    fn get_num(&self) -> (r: Option<usize>)
        ensures
            self.reports_record() ==> r == self.record().num,
    ;

    fn get_name(&self) -> (r: &str)
        ensures
            self.reports_record() ==> r@ == self.record().name@,
    ;

    fn get_output(&self) -> (r: &str)
        ensures
            self.reports_record() ==> r@ == self.record().output@,
    ;

    fn get_focused(&self) -> (r: bool)
        ensures
            self.reports_record() ==> r == self.record().focused,
    ;
}

/// An output (screen) as the compositor reports it.
pub trait OutputProxy {
    /// Whether `record` holds what the getters report. One for which it does
    /// not claims nothing of `record`.
    open spec fn reports_record(&self) -> bool {
        false
    }

    /// The output reported, as plain values.
    open spec fn record(&self) -> MockOutput {
        vstd::pervasive::arbitrary()
    }

    fn get_name(&self) -> (r: &str)
        ensures
            self.reports_record() ==> r@ == self.record().name@,
    ;

    fn get_focused(&self) -> (r: bool)
        ensures
            self.reports_record() ==> r == self.record().focused,
    ;
}

/// Provides workspaces, outputs, and a connection from/to the compositor.
pub trait IPCAdapter: Sized {
    type Connection: ConnectionProxy;

    type Workspace: WorkspaceProxy;

    type Output: OutputProxy;

    /// Whether `reported_workspaces` and `reported_outputs` hold what the parts
    /// report. One for which they do not claims nothing of them.
    open spec fn reports(&self) -> bool {
        false
    }

    /// The workspaces reported, as plain values.
    open spec fn reported_workspaces(&self) -> Seq<MockWorkspace> {
        vstd::pervasive::arbitrary()
    }

    /// The outputs reported, as plain values.
    open spec fn reported_outputs(&self) -> Seq<MockOutput> {
        vstd::pervasive::arbitrary()
    }

    /// The connection the adapter hands on.
    open spec fn reported_connection(&self) -> Self::Connection {
        vstd::pervasive::arbitrary()
    }

    fn new() -> Self;

    /// Breaks the adapter up into its parts and hands on their ownership.
    fn explode(self) -> (r: (Self::Connection, Vec<Self::Workspace>, Vec<Self::Output>))
        ensures
            self.reports() ==> r.0 == self.reported_connection(),
            self.reports() ==> r.1@.len() == self.reported_workspaces().len() && (forall|i: int|
                0 <= i < r.1@.len() ==> #[trigger] r.1@[i].reports_record() && same_workspace(
                    r.1@[i].record(),
                    self.reported_workspaces()[i],
                )) && r.2@.len() == self.reported_outputs().len() && (forall|i: int|
                0 <= i < r.2@.len() ==> #[trigger] r.2@[i].reports_record() && same_output(
                    r.2@[i].record(),
                    self.reported_outputs()[i],
                )),
    ;
}

////////////////////////////////////////////////////////////////////////////////
// PLAIN-VALUE IMPLEMENTATION
////////////////////////////////////////////////////////////////////////////////

/// A connection that records every command it is given and always succeeds.
#[derive(Debug)]
pub struct MockConnection {
    pub commandhistory: Vec<String>,
}

impl ConnectionProxy for MockConnection {
    /// The connection keeps every command it is handed.
    open spec fn keeps_history(&self) -> bool {
        true
    }

    /// The recorded commands, each carried out.
    open spec fn history(&self) -> Seq<(Seq<char>, bool)> {
        self.commandhistory@.map_values(|c: String| (c@, true))
    }

    fn run_command(&mut self, payload: String) -> (r: IpcResult)
        ensures
            final(self).commandhistory@ == old(self).commandhistory@.push(payload),
            r matches Ok(v) && v@ == seq![payload],
    {
        let reply = payload.clone();
        self.commandhistory.push(payload);
        assert(self.commandhistory@.map_values(|c: String| (c@, true)) =~= old(self).commandhistory@.map_values(|c: String| (c@, true)).push((reply@, true)));
        let mut v: Vec<String> = Vec::new();
        v.push(reply);
        Ok(v)
    }
}

/// A workspace held as plain values: its number, name, output and whether it
/// has the focus.
#[derive(Debug)]
pub struct MockWorkspace {
    pub num: Option<usize>,
    pub name: String,
    pub output: String,
    pub focused: bool,
}

impl WorkspaceProxy for MockWorkspace {
    /// The record reports itself.
    open spec fn reports_record(&self) -> bool {
        true
    }

    open spec fn record(&self) -> MockWorkspace {
        *self
    }

    fn get_num(&self) -> (r: Option<usize>)
        ensures
            r == self.num,
    {
        self.num
    }

    fn get_name(&self) -> (r: &str)
        ensures
            r@ == self.name@,
    {
        self.name.as_str()
    }

    fn get_output(&self) -> (r: &str)
        ensures
            r@ == self.output@,
    {
        self.output.as_str()
    }

    fn get_focused(&self) -> (r: bool)
        ensures
            r == self.focused,
    {
        self.focused
    }
}

/// An output held as plain values: its name and whether it has the focus.
#[derive(Debug)]
pub struct MockOutput {
    pub name: String,
    pub focused: bool,
}

impl OutputProxy for MockOutput {
    /// The record reports itself.
    open spec fn reports_record(&self) -> bool {
        true
    }

    open spec fn record(&self) -> MockOutput {
        *self
    }

    fn get_name(&self) -> (r: &str)
        ensures
            r@ == self.name@,
    {
        self.name.as_str()
    }

    fn get_focused(&self) -> (r: bool)
        ensures
            r == self.focused,
    {
        self.focused
    }
}

/// An adapter made of a recording connection and workspaces and outputs held
/// as plain values.
pub struct MockIPCAdapter {
    pub connection: MockConnection,
    pub workspaces: Vec<MockWorkspace>,
    pub outputs: Vec<MockOutput>,
}

impl IPCAdapter for MockIPCAdapter {
    type Connection = MockConnection;

    type Workspace = MockWorkspace;

    type Output = MockOutput;

    /// The adapter reports the workspaces and outputs it holds.
    open spec fn reports(&self) -> bool {
        true
    }

    open spec fn reported_workspaces(&self) -> Seq<MockWorkspace> {
        self.workspaces@
    }

    open spec fn reported_outputs(&self) -> Seq<MockOutput> {
        self.outputs@
    }

    open spec fn reported_connection(&self) -> MockConnection {
        self.connection
    }

    /// A basic environment: the workspaces "Foo" (number 1, focused) and
    /// "Bar" (number 2) on the one output "eDP-1", which has the focus.
    fn new() -> (r: Self)
        ensures
            r.connection.commandhistory@.len() == 0,
            r.workspaces@.len() == 2,
            r.workspaces@[0].num == Some(1usize),
            r.workspaces@[0].name@ == "Foo"@,
            r.workspaces@[0].output@ == "eDP-1"@,
            r.workspaces@[0].focused,
            r.workspaces@[1].num == Some(2usize),
            r.workspaces@[1].name@ == "Bar"@,
            r.workspaces@[1].output@ == "eDP-1"@,
            !r.workspaces@[1].focused,
            r.outputs@.len() == 1,
            r.outputs@[0].name@ == "eDP-1"@,
            r.outputs@[0].focused,
    {
        let mut workspaces: Vec<MockWorkspace> = Vec::new();
        workspaces.push(
            MockWorkspace {
                num: Some(1),
                name: String::from_str("Foo"),
                output: String::from_str("eDP-1"),
                focused: true,
            },
        );
        workspaces.push(
            MockWorkspace {
                num: Some(2),
                name: String::from_str("Bar"),
                output: String::from_str("eDP-1"),
                focused: false,
            },
        );
        let mut outputs: Vec<MockOutput> = Vec::new();
        outputs.push(MockOutput { focused: true, name: String::from_str("eDP-1") });
        MockIPCAdapter {
            connection: MockConnection { commandhistory: Vec::new() },
            workspaces,
            outputs,
        }
    }

    /// Hands on the connection, the workspaces and the outputs.
    fn explode(self) -> (r: (MockConnection, Vec<MockWorkspace>, Vec<MockOutput>))
        ensures
            r.0 == self.connection,
            r.1 == self.workspaces,
            r.2 == self.outputs,
    {
        (self.connection, self.workspaces, self.outputs)
    }
}

} // verus!
