//! The decoded output unit: one record per data line, plus the options a
//! caller hands to a listing operation.

use vstd::prelude::*;
use crate::field::{Command, Field};

verus! {

/// One decoded process.  Every attribute is optional because the caller
/// chooses which columns to request; a column that was not requested stays
/// absent rather than zero or empty.
#[derive(Debug, Clone, PartialEq, Eq)]
pub struct Process {
    /// The user id.
    pub uid: Option<u32>,
    /// The process id.
    pub pid: Option<u32>,
    /// The parent process id.
    pub parent_pid: Option<u32>,
    /// The command that started the process: the full path or the
    /// executable name alone, depending on the requested command field.
    pub command: Option<String>,
    /// Elapsed time since the process started, in whole seconds.
    pub time_started: Option<usize>,
    /// The terminal the process is running on, if any.
    pub tty: Option<String>,
    /// The port the process listens on, if any; filled only by the
    /// port-correlation collaborator, never by the decoder.
    pub port: Option<u16>,
}

/// The mathematical shape of a [`Process`], with text as `Seq<char>`.
pub ghost struct ProcessV {
    pub uid: Option<u32>,
    pub pid: Option<u32>,
    pub parent_pid: Option<u32>,
    pub command: Option<Seq<char>>,
    pub time_started: Option<usize>,
    pub tty: Option<Seq<char>>,
    pub port: Option<u16>,
}

impl ProcessV {
    /// The record every decode starts from: all attributes absent.
    pub open spec fn blank() -> ProcessV {
        ProcessV {
            uid: None,
            pid: None,
            parent_pid: None,
            command: None,
            time_started: None,
            tty: None,
            port: None,
        }
    }
}

impl View for Process {
    type V = ProcessV;

    open spec fn view(&self) -> ProcessV {
        ProcessV {
            uid: self.uid,
            pid: self.pid,
            parent_pid: self.parent_pid,
            command: match self.command {
                Some(c) => Some(c@),
                None => None,
            },
            time_started: self.time_started,
            tty: match self.tty {
                Some(t) => Some(t@),
                None => None,
            },
            port: self.port,
        }
    }
}

impl Process {
    /// A record with every attribute absent, ready to be populated while
    /// one data line is decoded.
    pub(crate) fn blank_new() -> (p: Process)
        ensures
            p@ == ProcessV::blank(),
    {
        Process {
            uid: None,
            pid: None,
            parent_pid: None,
            command: None,
            tty: None,
            time_started: None,
            port: None,
        }
    }
}

/// What a listing operation should fetch.
pub struct ListOpts {
    /// The fields to include in the output.
    pub fields: Vec<Field>,
    /// Whether to correlate listening ports as well; may be expensive.
    pub with_ports: bool,
}

impl ListOpts {
    pub fn new(fields: Vec<Field>, with_ports: bool) -> (r: ListOpts)
        ensures
            r.fields == fields,
            r.with_ports == with_ports,
    {
        ListOpts { fields, with_ports }
    }
}

impl Default for ListOpts {
    /// The default request: pid, parent pid, elapsed time and the
    /// executable name, without port correlation.
    fn default() -> (r: ListOpts)
        ensures
            r.fields@ == seq![
                Field::Pid,
                Field::Ppid,
                Field::Time,
                Field::Comm(Command::ExecutableName),
            ],
            r.with_ports == false,
    {
        let fields = vec![
            Field::Pid,
            Field::Ppid,
            Field::Time,
            Field::Comm(Command::ExecutableName),
        ];
        ListOpts { fields, with_ports: false }
    }
}

/// The port a process listens on.  Port correlation is the excluded
/// collaborator: the decoder never learns one, so the answer is absent.
pub fn get_pid_by_port(_port: u16) -> (r: Option<u32>)
    ensures
        r is None,
{
    None
}

} // verus!
