//! Milter command and macro identifiers: the one-byte codes the MTA sends,
//! and the names this filter reports them under.

use vstd::prelude::*;

verus! {

/// A Milter macro identifier, the first byte of a macro name.
#[derive(Debug, Clone, Copy, PartialEq, Eq, Structural)]
pub enum MilterMacro {
    Connect,
    Helo,
    Mail,
    Rcpt,
    Eob,
    Data,
    Soh,
    Header,
    Body,
    Quit,
    Hostname,
    QueueId,
    DaemonName,
    ClientName,
    ClientAddr,
    BodyType,
    Version,
    Space,
    Vender,
    Unknown(u8),
}

/// The macro identifier a byte denotes.
pub open spec fn spec_macro_from_u8(b: u8) -> MilterMacro {
    match b {
        0x43 => MilterMacro::Connect,
        0x48 => MilterMacro::Helo,
        0x4d => MilterMacro::Mail,
        0x52 => MilterMacro::Rcpt,
        0x45 => MilterMacro::Eob,
        0x44 => MilterMacro::Data,
        0x54 => MilterMacro::Soh,
        0x4c => MilterMacro::Header,
        0x42 => MilterMacro::Body,
        0x51 => MilterMacro::Quit,
        0x6a => MilterMacro::Hostname,
        0x69 => MilterMacro::QueueId,
        0x6e => MilterMacro::DaemonName,
        0x73 => MilterMacro::ClientName,
        0x72 => MilterMacro::ClientAddr,
        0x62 => MilterMacro::BodyType,
        0x76 => MilterMacro::Version,
        0x5f => MilterMacro::Space,
        0x7b => MilterMacro::Vender,
        _ => MilterMacro::Unknown(b),
    }
}

/// The descriptive name of a macro identifier.
pub open spec fn spec_macro_name(m: MilterMacro) -> Seq<char> {
    match m {
        MilterMacro::Connect => "MACRO_Connect"@,
        MilterMacro::Helo => "MACRO_Helo"@,
        MilterMacro::Mail => "MACRO_Mail"@,
        MilterMacro::Rcpt => "MACRO_Rcpt"@,
        MilterMacro::Eob => "MACRO_Eob"@,
        MilterMacro::Data => "MACRO_Data"@,
        MilterMacro::Soh => "MACRO_Soh"@,
        MilterMacro::Header => "MACRO_Header"@,
        MilterMacro::Body => "MACRO_Body"@,
        MilterMacro::Quit => "MACRO_Quit"@,
        MilterMacro::Hostname => "MACRO_Hostname"@,
        MilterMacro::QueueId => "MACRO_QueueId"@,
        MilterMacro::DaemonName => "MACRO_DaemonName"@,
        MilterMacro::ClientName => "MACRO_ClientName"@,
        MilterMacro::ClientAddr => "MACRO_ClientAddr"@,
        MilterMacro::BodyType => "MACRO_BodyType"@,
        MilterMacro::Version => "MACRO_Version"@,
        MilterMacro::Space => "MACRO_Space"@,
        MilterMacro::Vender => "MACRO_Vender"@,
        MilterMacro::Unknown(_) => "MACRO_Unknown"@,
    }
}

impl MilterMacro {
    /// Maps a one-byte macro identifier to its symbol; bytes outside the
    /// table are kept as `Unknown`.
    pub fn from_u8(b: u8) -> (r: Self)
        ensures
            r == spec_macro_from_u8(b),
    {
        match b {
            0x43 => MilterMacro::Connect,
            0x48 => MilterMacro::Helo,
            0x4d => MilterMacro::Mail,
            0x52 => MilterMacro::Rcpt,
            0x45 => MilterMacro::Eob,
            0x44 => MilterMacro::Data,
            0x54 => MilterMacro::Soh,
            0x4c => MilterMacro::Header,
            0x42 => MilterMacro::Body,
            0x51 => MilterMacro::Quit,
            0x6a => MilterMacro::Hostname,
            0x69 => MilterMacro::QueueId,
            0x6e => MilterMacro::DaemonName,
            0x73 => MilterMacro::ClientName,
            0x72 => MilterMacro::ClientAddr,
            0x62 => MilterMacro::BodyType,
            0x76 => MilterMacro::Version,
            0x5f => MilterMacro::Space,
            0x7b => MilterMacro::Vender,
            _ => MilterMacro::Unknown(b),
        }
    }

    /// The descriptive name of this macro identifier.
    pub fn as_str(&self) -> (r: &'static str)
        ensures
            r@ == spec_macro_name(*self),
    {
        match self {
            MilterMacro::Connect => "MACRO_Connect",
            MilterMacro::Helo => "MACRO_Helo",
            MilterMacro::Mail => "MACRO_Mail",
            MilterMacro::Rcpt => "MACRO_Rcpt",
            MilterMacro::Eob => "MACRO_Eob",
            MilterMacro::Data => "MACRO_Data",
            MilterMacro::Soh => "MACRO_Soh",
            MilterMacro::Header => "MACRO_Header",
            MilterMacro::Body => "MACRO_Body",
            MilterMacro::Quit => "MACRO_Quit",
            MilterMacro::Hostname => "MACRO_Hostname",
            MilterMacro::QueueId => "MACRO_QueueId",
            MilterMacro::DaemonName => "MACRO_DaemonName",
            MilterMacro::ClientName => "MACRO_ClientName",
            MilterMacro::ClientAddr => "MACRO_ClientAddr",
            MilterMacro::BodyType => "MACRO_BodyType",
            MilterMacro::Version => "MACRO_Version",
            MilterMacro::Space => "MACRO_Space",
            MilterMacro::Vender => "MACRO_Vender",
            MilterMacro::Unknown(_) => "MACRO_Unknown",
        }
    }
}

/// A Milter protocol command. The byte 0x45 serves both as end-of-headers
/// and as end-of-body; `Eoh` stands for either, and the session state
/// decides which applies. The byte 0x4d likewise serves both EOM and MACRO
/// and is kept as `Eom`.
#[derive(Debug, Clone, Copy, PartialEq, Eq, Structural)]
pub enum MilterCommand {
    Abort,
    Accept,
    AddHeader,
    Body,
    Connect,
    Data,
    DeleteHeader,
    DeleteRcpt,
    Eoh,
    Eom,
    Header,
    HeLO,
    OptNeg,
    Quit,
    Rcpt,
}

/// The command a byte denotes, if any.
pub open spec fn spec_command_from_u8(b: u8) -> Option<MilterCommand> {
    match b {
        0x41 => Some(MilterCommand::Abort),
        0x61 => Some(MilterCommand::Accept),
        0x68 => Some(MilterCommand::AddHeader),
        0x42 => Some(MilterCommand::Body),
        0x43 => Some(MilterCommand::Connect),
        0x44 => Some(MilterCommand::Data),
        0x64 => Some(MilterCommand::DeleteHeader),
        0x72 => Some(MilterCommand::DeleteRcpt),
        0x45 => Some(MilterCommand::Eoh),
        0x4d => Some(MilterCommand::Eom),
        0x4c => Some(MilterCommand::Header),
        0x48 => Some(MilterCommand::HeLO),
        0x4f => Some(MilterCommand::OptNeg),
        0x51 => Some(MilterCommand::Quit),
        0x52 => Some(MilterCommand::Rcpt),
        _ => None,
    }
}

/// The protocol name of a command.
pub open spec fn spec_command_name(c: MilterCommand) -> Seq<char> {
    match c {
        MilterCommand::Abort => "SMFIC_ABORT"@,
        MilterCommand::Accept => "SMFIC_ACCEPT"@,
        MilterCommand::AddHeader => "SMFIC_ADDHEADER"@,
        MilterCommand::Body => "SMFIC_BODY"@,
        MilterCommand::Connect => "SMFIC_CONNECT"@,
        MilterCommand::Data => "SMFIC_DATA"@,
        MilterCommand::DeleteHeader => "SMFIC_DELHEADER"@,
        MilterCommand::DeleteRcpt => "SMFIC_DELRCPT"@,
        MilterCommand::Eoh => "SMFIC_EOH"@,
        MilterCommand::Eom => "SMFIC_EOM"@,
        MilterCommand::Header => "SMFIC_HEADER"@,
        MilterCommand::HeLO => "SMFIC_HELO"@,
        MilterCommand::OptNeg => "SMFIC_OPTNEG"@,
        MilterCommand::Quit => "SMFIC_QUIT"@,
        MilterCommand::Rcpt => "SMFIC_RCPT"@,
    }
}

/// The name a command is reported under when the session phase is known:
/// the shared byte 0x45 is end-of-body exactly when a body chunk has been
/// seen since the last end-of-message.
pub open spec fn spec_command_name_eoh(c: MilterCommand, is_body_eob: bool) -> Seq<char> {
    match (c, is_body_eob) {
        (MilterCommand::Eoh, true) => "SMFIC_BODYEOB"@,
        (MilterCommand::Eom, false) => "SMFIC_EOH"@,
        _ => spec_command_name(c),
    }
}

impl MilterCommand {
    /// The name of this command with the 0x45 overload resolved by phase.
    pub fn as_str_eoh(&self, is_body_eob: bool) -> (r: &'static str)
        ensures
            r@ == spec_command_name_eoh(*self, is_body_eob),
    {
        match (self, is_body_eob) {
            (MilterCommand::Eoh, true) => "SMFIC_BODYEOB",
            (MilterCommand::Eom, false) => "SMFIC_EOH",
            _ => self.as_str(),
        }
    }

    /// The protocol name of this command.
    pub fn as_str(&self) -> (r: &'static str)
        ensures
            r@ == spec_command_name(*self),
    {
        match self {
            MilterCommand::Abort => "SMFIC_ABORT",
            MilterCommand::Accept => "SMFIC_ACCEPT",
            MilterCommand::AddHeader => "SMFIC_ADDHEADER",
            MilterCommand::Body => "SMFIC_BODY",
            MilterCommand::Connect => "SMFIC_CONNECT",
            MilterCommand::Data => "SMFIC_DATA",
            MilterCommand::DeleteHeader => "SMFIC_DELHEADER",
            MilterCommand::DeleteRcpt => "SMFIC_DELRCPT",
            MilterCommand::Eoh => "SMFIC_EOH",
            MilterCommand::Eom => "SMFIC_EOM",
            MilterCommand::Header => "SMFIC_HEADER",
            MilterCommand::HeLO => "SMFIC_HELO",
            MilterCommand::OptNeg => "SMFIC_OPTNEG",
            MilterCommand::Quit => "SMFIC_QUIT",
            MilterCommand::Rcpt => "SMFIC_RCPT",
        }
    }

    /// Maps a one-byte command code to its symbol; unknown bytes map to `None`.
    pub fn from_u8(val: u8) -> (r: Option<Self>)
        ensures
            r == spec_command_from_u8(val),
    {
        match val {
            0x41 => Some(MilterCommand::Abort),
            0x61 => Some(MilterCommand::Accept),
            0x68 => Some(MilterCommand::AddHeader),
            0x42 => Some(MilterCommand::Body),
            0x43 => Some(MilterCommand::Connect),
            0x44 => Some(MilterCommand::Data),
            0x64 => Some(MilterCommand::DeleteHeader),
            0x72 => Some(MilterCommand::DeleteRcpt),
            0x45 => Some(MilterCommand::Eoh),
            0x4d => Some(MilterCommand::Eom),
            0x4c => Some(MilterCommand::Header),
            0x48 => Some(MilterCommand::HeLO),
            0x4f => Some(MilterCommand::OptNeg),
            0x51 => Some(MilterCommand::Quit),
            0x52 => Some(MilterCommand::Rcpt),
            _ => None,
        }
    }
}

} // verus!
