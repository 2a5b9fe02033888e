//! The system tools that the procedure relies on, as plain values: which
//! program to start with which arguments, and what became of a run.
//!
//! Nothing here starts a program. A caller starts the program that a
//! [`ToolCommand`] describes and reports the run as a [`ToolOutcome`].

use crate::text::{numeral, push_numeral};
use vstd::prelude::*;

verus! {

/// The family of operating systems whose tools are used.
#[derive(Clone, Copy, Debug, PartialEq, Eq, Structural)]
pub enum Platform {
    /// `netstat` lists the sockets and `taskkill` ends a process.
    Windows,
    /// `lsof` lists the owners of a port and `kill` ends a process.
    Unix,
}

/// A program to start, with its arguments.
#[derive(Debug, PartialEq, Eq)]
pub struct ToolCommand {
    /// The program's name, to be found on the search path.
    pub program: String,
    /// The arguments, in order.
    pub args: Vec<String>,
    /// Whether what the program writes to its standard output is to be
    /// collected and reported; where it is not, only the exit status is.
    pub capture: bool,
}

/// A [`ToolCommand`] as a mathematical value.
pub struct CommandView {
    pub program: Seq<char>,
    pub args: Seq<Seq<char>>,
    pub capture: bool,
}

impl View for ToolCommand {
    type V = CommandView;

    open spec fn view(&self) -> CommandView {
        CommandView {
            program: self.program@,
            args: self.args.deep_view(),
            capture: self.capture,
        }
    }
}

/// What became of the run of a tool.
#[derive(Debug, PartialEq, Eq)]
pub enum ToolOutcome {
    /// The program could not be started. `reason` says why, in words.
    NotStarted { reason: String },
    /// The program ran and ended. `success` tells whether it reported
    /// success; `code` is its exit code, if it ended with one; `output` is
    /// what it wrote to its standard output, empty where that was not
    /// collected.
    Exited { success: bool, code: Option<i32>, output: String },
}

/// A [`ToolOutcome`] as a mathematical value.
pub enum OutcomeView {
    NotStarted { reason: Seq<char> },
    Exited { success: bool, code: Option<i32>, output: Seq<char> },
}

impl View for ToolOutcome {
    type V = OutcomeView;

    open spec fn view(&self) -> OutcomeView {
        match self {
            ToolOutcome::NotStarted { reason } => OutcomeView::NotStarted { reason: reason@ },
            ToolOutcome::Exited { success, code, output } => OutcomeView::Exited {
                success: *success,
                code: *code,
                output: output@,
            },
        }
    }
}

/// The name of the tool that finds the listeners.
pub open spec fn discovery_tool(platform: Platform) -> Seq<char> {
    match platform {
        Platform::Windows => "netstat"@,
        Platform::Unix => "lsof"@,
    }
}

/// The name of the tool that ends a process.
pub open spec fn termination_tool(platform: Platform) -> Seq<char> {
    match platform {
        Platform::Windows => "taskkill"@,
        Platform::Unix => "kill"@,
    }
}

/// The command that finds the listeners on `port`: on Windows the table
/// of all TCP sockets with their owners, on Unix the list of the owners of
/// the port. Its output is collected.
pub open spec fn discovery_command(platform: Platform, port: u16) -> CommandView {
    match platform {
        Platform::Windows => CommandView {
            program: discovery_tool(platform),
            args: seq!["-ano"@, "-p"@, "tcp"@],
            capture: true,
        },
        Platform::Unix => CommandView {
            program: discovery_tool(platform),
            args: seq!["-ti"@, "tcp:"@ + numeral(port as nat)],
            capture: true,
        },
    }
}

/// The command that ends the process `id` by force. Its output is not
/// collected.
pub open spec fn termination_command(platform: Platform, id: Seq<char>) -> CommandView {
    match platform {
        Platform::Windows => CommandView {
            program: termination_tool(platform),
            args: seq!["/PID"@, id, "/F"@],
            capture: false,
        },
        Platform::Unix => CommandView {
            program: termination_tool(platform),
            args: seq!["-9"@, id],
            capture: false,
        },
    }
}

impl Platform {
    /// The name of the tool that finds the listeners.
    pub fn discovery_tool(self) -> (name: &'static str)
        ensures
            name@ == discovery_tool(self),
    {
        match self {
            Platform::Windows => "netstat",
            Platform::Unix => "lsof",
        }
    }

    /// The name of the tool that ends a process.
    pub fn termination_tool(self) -> (name: &'static str)
        ensures
            name@ == termination_tool(self),
    {
        match self {
            Platform::Windows => "taskkill",
            Platform::Unix => "kill",
        }
    }
}

impl ToolCommand {
    /// The command that finds the listeners on `port`.
    pub fn discover(platform: Platform, port: u16) -> (command: ToolCommand)
        ensures
            command@ == discovery_command(platform, port),
    {
        let program = String::from_str(platform.discovery_tool());
        let mut args: Vec<String> = Vec::new();
        match platform {
            Platform::Windows => {
                args.push(String::from_str("-ano"));
                args.push(String::from_str("-p"));
                args.push(String::from_str("tcp"));
                assert(args.deep_view() =~= seq!["-ano"@, "-p"@, "tcp"@]);
            },
            Platform::Unix => {
                let mut target = String::from_str("tcp:");
                push_numeral(&mut target, port as u64);
                args.push(String::from_str("-ti"));
                args.push(target);
                assert(args.deep_view() =~= seq!["-ti"@, "tcp:"@ + numeral(port as nat)]);
            },
        }
        ToolCommand { program, args, capture: true }
    }

    /// The command that ends the process `id` by force.
    pub fn terminate(platform: Platform, id: &str) -> (command: ToolCommand)
        ensures
            command@ == termination_command(platform, id@),
    {
        let program = String::from_str(platform.termination_tool());
        let mut args: Vec<String> = Vec::new();
        match platform {
            Platform::Windows => {
                args.push(String::from_str("/PID"));
                args.push(String::from_str(id));
                args.push(String::from_str("/F"));
                assert(args.deep_view() =~= seq!["/PID"@, id@, "/F"@]);
            },
            Platform::Unix => {
                args.push(String::from_str("-9"));
                args.push(String::from_str(id));
                assert(args.deep_view() =~= seq!["-9"@, id@]);
            },
        }
        ToolCommand { program, args, capture: false }
    }
}

} // verus!
