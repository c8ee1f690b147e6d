//! The commands of the command-line frontend: one line of whitespace-separated
//! words, the first naming the command.
use vstd::prelude::*;

use crate::text::{str_eq, parse_uint, push_str, spec_parse_uint, split_whitespace, string_views, tokens};
use crate::Position;

verus! {

/// The identifier of a client.
pub type ClientHandle = u64;

/// A command, as its first word names it.
#[derive(Clone, Copy, Debug, PartialEq, Eq, Structural)]
pub enum CommandType {
    NoCommand,
    Help,
    Connect,
    Disconnect,
    Activate,
    Deactivate,
    List,
    SetHost,
    SetPort,
}

/// The command named by `w`, if any.
pub open spec fn spec_command_type(w: Seq<char>) -> Option<CommandType> {
    if w == "connect"@ {
        Some(CommandType::Connect)
    } else if w == "disconnect"@ {
        Some(CommandType::Disconnect)
    } else if w == "activate"@ {
        Some(CommandType::Activate)
    } else if w == "deactivate"@ {
        Some(CommandType::Deactivate)
    } else if w == "list"@ {
        Some(CommandType::List)
    } else if w == "set-host"@ {
        Some(CommandType::SetHost)
    } else if w == "set-port"@ {
        Some(CommandType::SetPort)
    } else if w == "help"@ {
        Some(CommandType::Help)
    } else {
        None
    }
}

pub open spec fn spec_usage(t: CommandType) -> Seq<char> {
    match t {
        CommandType::Help => "help"@,
        CommandType::NoCommand => ""@,
        CommandType::Connect => "connect left|right|top|bottom <host> [<port>]"@,
        CommandType::Disconnect => "disconnect <id>"@,
        CommandType::Activate => "activate <id>"@,
        CommandType::Deactivate => "deactivate <id>"@,
        CommandType::List => "list"@,
        CommandType::SetHost => "set-host <id> <host>"@,
        CommandType::SetPort => "set-port <id> <host>"@,
    }
}

/// A word that names no command.
#[derive(Debug)]
pub struct InvalidCommand {
    pub cmd: String,
}

impl InvalidCommand {
    /// The error's message.
    pub fn message(&self) -> (r: String)
        ensures
            r@ == "invalid command: \""@ + self.cmd@ + "\""@,
    {
        let mut r = String::new();
        push_str(&mut r, "invalid command: \"");
        push_str(&mut r, self.cmd.as_str());
        push_str(&mut r, "\"");
        r
    }
}

impl CommandType {
    /// How the command is used.
    pub fn usage(&self) -> (r: &'static str)
        ensures
            r@ == spec_usage(*self),
    {
        match self {
            CommandType::Help => "help",
            CommandType::NoCommand => "",
            CommandType::Connect => "connect left|right|top|bottom <host> [<port>]",
            CommandType::Disconnect => "disconnect <id>",
            CommandType::Activate => "activate <id>",
            CommandType::Deactivate => "deactivate <id>",
            CommandType::List => "list",
            CommandType::SetHost => "set-host <id> <host>",
            CommandType::SetPort => "set-port <id> <host>",
        }
    }

    /// The command named by the word `s`.
    pub fn from_word(s: &str) -> (r: Result<CommandType, InvalidCommand>)
        ensures
            match spec_command_type(s@) {
                Some(t) => r matches Ok(u) && u == t,
                None => r matches Err(e) && e.cmd@ == s@,
            },
    {
        if str_eq(s, "connect") {
            Ok(CommandType::Connect)
        } else if str_eq(s, "disconnect") {
            Ok(CommandType::Disconnect)
        } else if str_eq(s, "activate") {
            Ok(CommandType::Activate)
        } else if str_eq(s, "deactivate") {
            Ok(CommandType::Deactivate)
        } else if str_eq(s, "list") {
            Ok(CommandType::List)
        } else if str_eq(s, "set-host") {
            Ok(CommandType::SetHost)
        } else if str_eq(s, "set-port") {
            Ok(CommandType::SetPort)
        } else if str_eq(s, "help") {
            Ok(CommandType::Help)
        } else {
            Err(InvalidCommand { cmd: String::from_str(s) })
        }
    }
}

/// A command of the command-line frontend.
#[derive(Debug)]
pub enum Command {
    Empty,
    Help,
    Connect(Position, String, Option<u16>),
    Disconnect(ClientHandle),
    Activate(ClientHandle),
    Deactivate(ClientHandle),
    List,
    SetHost(ClientHandle, String),
    SetPort(ClientHandle, Option<u16>),
}

/// A command, with its strings taken by their text.
pub enum CommandModel {
    Empty,
    Help,
    Connect(Position, Seq<char>, Option<u16>),
    Disconnect(u64),
    Activate(u64),
    Deactivate(u64),
    List,
    SetHost(u64, Seq<char>),
    SetPort(u64, Option<u16>),
}

impl View for Command {
    type V = CommandModel;

    open spec fn view(&self) -> CommandModel {
        match self {
            Command::Empty => CommandModel::Empty,
            Command::Help => CommandModel::Help,
            Command::Connect(p, h, port) => CommandModel::Connect(*p, h@, *port),
            Command::Disconnect(id) => CommandModel::Disconnect(*id),
            Command::Activate(id) => CommandModel::Activate(*id),
            Command::Deactivate(id) => CommandModel::Deactivate(*id),
            Command::List => CommandModel::List,
            Command::SetHost(id, h) => CommandModel::SetHost(*id, h@),
            Command::SetPort(id, port) => CommandModel::SetPort(*id, *port),
        }
    }
}

/// Why a line is no command.
#[derive(Debug)]
pub enum CommandParseError {
    /// the command's arguments do not fit its usage
    Usage(CommandType),
    /// the first word names no command
    Invalid(InvalidCommand),
}

/// A parse failure, with the invalid word taken by its text.
pub enum ParseErrorModel {
    Usage(CommandType),
    Invalid(Seq<char>),
}

impl View for CommandParseError {
    type V = ParseErrorModel;

    open spec fn view(&self) -> ParseErrorModel {
        match self {
            CommandParseError::Usage(t) => ParseErrorModel::Usage(*t),
            CommandParseError::Invalid(e) => ParseErrorModel::Invalid(e.cmd@),
        }
    }
}

impl CommandParseError {
    /// The error's message.
    pub fn message(&self) -> (r: String)
        ensures
            r@ == match self {
                CommandParseError::Usage(t) => "usage: "@ + spec_usage(*t),
                CommandParseError::Invalid(e) => "invalid command: \""@ + e.cmd@ + "\""@,
            },
    {
        match self {
            CommandParseError::Usage(t) => {
                let mut r = String::new();
                push_str(&mut r, "usage: ");
                push_str(&mut r, t.usage());
                r
            },
            CommandParseError::Invalid(e) => e.message(),
        }
    }
}

/// The position a word names: `left`, `right`, `top` or `bottom`.
pub open spec fn spec_position(w: Seq<char>) -> Option<Position> {
    if w == "left"@ {
        Some(Position::Left)
    } else if w == "right"@ {
        Some(Position::Right)
    } else if w == "top"@ {
        Some(Position::Top)
    } else if w == "bottom"@ {
        Some(Position::Bottom)
    } else {
        None
    }
}

/// A position's name reads back as the position.
pub proof fn lemma_position_name_round_trip(p: Position)
    ensures
        spec_position(p.spec_name()) == Some(p),
{
    reveal_strlit("left");
    reveal_strlit("right");
    reveal_strlit("top");
    reveal_strlit("bottom");
    assert("left"@.len() == 4 && "right"@.len() == 5 && "top"@.len() == 3 && "bottom"@.len() == 6);
    match p {
        Position::Left => {},
        Position::Right => assert("right"@ != "left"@),
        Position::Top => assert("top"@ != "left"@ && "top"@ != "right"@),
        Position::Bottom => assert("bottom"@ != "left"@ && "bottom"@ != "right"@ && "bottom"@ != "top"@),
    }
}

/// The position the word `w` names, if any.
pub fn parse_position(w: &str) -> (r: Option<Position>)
    ensures
        r == spec_position(w@),
{
    if str_eq(w, "left") {
        Some(Position::Left)
    } else if str_eq(w, "right") {
        Some(Position::Right)
    } else if str_eq(w, "top") {
        Some(Position::Top)
    } else if str_eq(w, "bottom") {
        Some(Position::Bottom)
    } else {
        None
    }
}

pub open spec fn opt_u16(o: Option<nat>) -> Option<u16> {
    match o {
        Some(n) => Some(n as u16),
        None => None,
    }
}

/// The client id the word `w` writes.
pub open spec fn spec_id(w: Seq<char>) -> Option<nat> {
    spec_parse_uint(w, u64::MAX as nat)
}

/// The optional port of the `i`-th word: absent, or not a port, is none.
pub open spec fn spec_port_at(ws: Seq<Seq<char>>, i: int) -> Option<u16> {
    if i < ws.len() {
        opt_u16(spec_parse_uint(ws[i], u16::MAX as nat))
    } else {
        None
    }
}

/// What a line of words `ws` means.
pub open spec fn spec_parse_command(ws: Seq<Seq<char>>) -> Result<CommandModel, ParseErrorModel> {
    if ws.len() == 0 {
        Ok(CommandModel::Empty)
    } else {
        match spec_command_type(ws[0]) {
            None => Err(ParseErrorModel::Invalid(ws[0])),
            Some(t) => match t {
                CommandType::Help => Ok(CommandModel::Help),
                CommandType::NoCommand => Ok(CommandModel::Empty),
                CommandType::List => Ok(CommandModel::List),
                CommandType::Connect => if ws.len() >= 3 && spec_position(ws[1]) is Some {
                    Ok(CommandModel::Connect(spec_position(ws[1])->0, ws[2], spec_port_at(ws, 3)))
                } else if ws.len() >= 3 && spec_position(ws[2]) is Some {
                    Ok(CommandModel::Connect(spec_position(ws[2])->0, ws[1], spec_port_at(ws, 3)))
                } else {
                    Err(ParseErrorModel::Usage(t))
                },
                CommandType::Disconnect => if ws.len() >= 2 && spec_id(ws[1]) is Some {
                    Ok(CommandModel::Disconnect(spec_id(ws[1])->0 as u64))
                } else {
                    Err(ParseErrorModel::Usage(t))
                },
                CommandType::Activate => if ws.len() >= 2 && spec_id(ws[1]) is Some {
                    Ok(CommandModel::Activate(spec_id(ws[1])->0 as u64))
                } else {
                    Err(ParseErrorModel::Usage(t))
                },
                CommandType::Deactivate => if ws.len() >= 2 && spec_id(ws[1]) is Some {
                    Ok(CommandModel::Deactivate(spec_id(ws[1])->0 as u64))
                } else {
                    Err(ParseErrorModel::Usage(t))
                },
                CommandType::SetHost => if ws.len() >= 3 && spec_id(ws[1]) is Some {
                    Ok(CommandModel::SetHost(spec_id(ws[1])->0 as u64, ws[2]))
                } else {
                    Err(ParseErrorModel::Usage(t))
                },
                CommandType::SetPort => if ws.len() >= 2 && spec_id(ws[1]) is Some {
                    Ok(CommandModel::SetPort(spec_id(ws[1])->0 as u64, spec_port_at(ws, 2)))
                } else {
                    Err(ParseErrorModel::Usage(t))
                },
            },
        }
    }
}

pub open spec fn result_view(r: Result<Command, CommandParseError>) -> Result<CommandModel, ParseErrorModel> {
    match r {
        Ok(c) => Ok(c@),
        Err(e) => Err(e@),
    }
}

fn parse_id(w: &String) -> (r: Option<u64>)
    ensures
        match spec_id(w@) {
            Some(n) => r == Some(n as u64),
            None => r is None,
        },
{
    parse_uint(w.as_str(), u64::MAX)
}

fn parse_port(words: &Vec<String>, i: usize) -> (r: Option<u16>)
    ensures
        r == spec_port_at(string_views(words@), i as int),
{
    if i < words.len() {
        match parse_uint(words[i].as_str(), 0xffff) {
            Some(p) => Some(p as u16),
            None => None,
        }
    } else {
        None
    }
}

fn clone_string(s: &String) -> (r: String)
    ensures
        r@ == s@,
{
    String::from_str(s.as_str())
}

impl Command {
    /// Reads a command line: the first word names the command, the others
    /// are its arguments; words after those the command takes are ignored,
    /// as is a port that is not a number. `connect` takes its position and
    /// host in either order: `connect left <host>` or `connect <host> left`.
    pub fn parse(cmd: &str) -> (r: Result<Command, CommandParseError>)
        ensures
            result_view(r) == spec_parse_command(tokens(cmd@)),
    {
        let words = split_whitespace(cmd);
        let ghost ws = string_views(words@);
        assert(ws == tokens(cmd@));
        if words.len() == 0 {
            return Ok(Command::Empty);
        }
        assert(ws[0] == words@[0]@);
        let t = match CommandType::from_word(words[0].as_str()) {
            Ok(t) => t,
            Err(e) => return Err(CommandParseError::Invalid(e)),
        };
        if words.len() >= 2 {
            assert(ws[1] == words@[1]@);
        }
        if words.len() >= 3 {
            assert(ws[2] == words@[2]@);
        }
        if words.len() >= 4 {
            assert(ws[3] == words@[3]@);
        }
        match t {
            CommandType::Help => Ok(Command::Help),
            CommandType::NoCommand => Ok(Command::Empty),
            CommandType::List => Ok(Command::List),
            CommandType::Connect => {
                if words.len() < 3 {
                    return Err(CommandParseError::Usage(t));
                }
                // `connect <position> <host>`, or `connect <host> <position>`
                let (pos, host) = match parse_position(words[1].as_str()) {
                    Some(p) => (p, clone_string(&words[2])),
                    None => match parse_position(words[2].as_str()) {
                        Some(p) => (p, clone_string(&words[1])),
                        None => return Err(CommandParseError::Usage(t)),
                    },
                };
                let port = parse_port(&words, 3);
                Ok(Command::Connect(pos, host, port))
            },
            CommandType::Disconnect => {
                if words.len() < 2 {
                    return Err(CommandParseError::Usage(t));
                }
                match parse_id(&words[1]) {
                    Some(id) => Ok(Command::Disconnect(id)),
                    None => Err(CommandParseError::Usage(t)),
                }
            },
            CommandType::Activate => {
                if words.len() < 2 {
                    return Err(CommandParseError::Usage(t));
                }
                match parse_id(&words[1]) {
                    Some(id) => Ok(Command::Activate(id)),
                    None => Err(CommandParseError::Usage(t)),
                }
            },
            CommandType::Deactivate => {
                if words.len() < 2 {
                    return Err(CommandParseError::Usage(t));
                }
                match parse_id(&words[1]) {
                    Some(id) => Ok(Command::Deactivate(id)),
                    None => Err(CommandParseError::Usage(t)),
                }
            },
            CommandType::SetHost => {
                if words.len() < 2 {
                    return Err(CommandParseError::Usage(t));
                }
                let id = match parse_id(&words[1]) {
                    Some(id) => id,
                    None => return Err(CommandParseError::Usage(t)),
                };
                if words.len() < 3 {
                    return Err(CommandParseError::Usage(t));
                }
                Ok(Command::SetHost(id, clone_string(&words[2])))
            },
            CommandType::SetPort => {
                if words.len() < 2 {
                    return Err(CommandParseError::Usage(t));
                }
                let id = match parse_id(&words[1]) {
                    Some(id) => id,
                    None => return Err(CommandParseError::Usage(t)),
                };
                Ok(Command::SetPort(id, parse_port(&words, 2)))
            },
        }
    }
}

/// The port a new client gets when the command names none.
pub const DEFAULT_PORT: u16 = 4242;

/// A request of the command-line frontend to the daemon.
#[derive(Debug)]
pub enum CliRequest {
    /// create a client; the daemon answers with its handle
    Create,
    UpdateHostname(ClientHandle, Option<String>),
    UpdatePort(ClientHandle, u16),
    UpdatePosition(ClientHandle, Position),
    Delete(ClientHandle),
    Activate(ClientHandle, bool),
    /// list the clients
    Enumerate,
    /// ask for a client's state, which the frontend then shows
    GetState(ClientHandle),
}

/// A request, with its host name taken by its text.
pub enum CliRequestModel {
    Create,
    UpdateHostname(ClientHandle, Option<Seq<char>>),
    UpdatePort(ClientHandle, u16),
    UpdatePosition(ClientHandle, Position),
    Delete(ClientHandle),
    Activate(ClientHandle, bool),
    Enumerate,
    GetState(ClientHandle),
}

impl View for CliRequest {
    type V = CliRequestModel;

    open spec fn view(&self) -> CliRequestModel {
        match self {
            CliRequest::Create => CliRequestModel::Create,
            CliRequest::UpdateHostname(h, Some(n)) => CliRequestModel::UpdateHostname(*h, Some(n@)),
            CliRequest::UpdateHostname(h, None) => CliRequestModel::UpdateHostname(*h, None),
            CliRequest::UpdatePort(h, p) => CliRequestModel::UpdatePort(*h, *p),
            CliRequest::UpdatePosition(h, p) => CliRequestModel::UpdatePosition(*h, *p),
            CliRequest::Delete(h) => CliRequestModel::Delete(*h),
            CliRequest::Activate(h, a) => CliRequestModel::Activate(*h, *a),
            CliRequest::Enumerate => CliRequestModel::Enumerate,
            CliRequest::GetState(h) => CliRequestModel::GetState(*h),
        }
    }
}

pub open spec fn port_or_default(p: Option<u16>) -> u16 {
    match p {
        Some(p) => p,
        None => DEFAULT_PORT,
    }
}

/// The requests a command sends, in order. `connect` first sends `Create`
/// alone (`created` is `None`); once the daemon has answered with the new
/// client's handle (`created`), it sends the host, the port (the default
/// where none was given) and the position, then asks for the client's
/// state. `disconnect` deletes; `activate` and `deactivate` switch the
/// client and ask for its state; `list` enumerates; `set-host` and
/// `set-port` update and ask for the state. An empty line and `help` send
/// nothing.
pub open spec fn spec_command_requests(cmd: CommandModel, created: Option<ClientHandle>) -> Seq<CliRequestModel> {
    match cmd {
        CommandModel::Empty | CommandModel::Help => Seq::empty(),
        CommandModel::Connect(pos, host, port) => match created {
            None => seq![CliRequestModel::Create],
            Some(h) => seq![
                CliRequestModel::UpdateHostname(h, Some(host)),
                CliRequestModel::UpdatePort(h, port_or_default(port)),
                CliRequestModel::UpdatePosition(h, pos),
                CliRequestModel::GetState(h),
            ],
        },
        CommandModel::Disconnect(id) => seq![CliRequestModel::Delete(id)],
        CommandModel::Activate(id) => seq![CliRequestModel::Activate(id, true), CliRequestModel::GetState(id)],
        CommandModel::Deactivate(id) => seq![CliRequestModel::Activate(id, false), CliRequestModel::GetState(id)],
        CommandModel::List => seq![CliRequestModel::Enumerate],
        CommandModel::SetHost(id, host) => seq![
            CliRequestModel::UpdateHostname(id, Some(host)),
            CliRequestModel::GetState(id),
        ],
        CommandModel::SetPort(id, port) => seq![
            CliRequestModel::UpdatePort(id, port_or_default(port)),
            CliRequestModel::GetState(id),
        ],
    }
}

pub open spec fn requests_view(v: Seq<CliRequest>) -> Seq<CliRequestModel> {
    Seq::new(v.len(), |i: int| v[i]@)
}

/// The requests `cmd` sends to the daemon, in order (`spec_command_requests`);
/// `created` is the handle of the client that a `connect` had created.
pub fn command_requests(cmd: &Command, created: Option<ClientHandle>) -> (r: Vec<CliRequest>)
    ensures
        requests_view(r@) == spec_command_requests(cmd@, created),
{
    let mut out: Vec<CliRequest> = Vec::new();
    match cmd {
        Command::Empty | Command::Help => {},
        Command::Connect(pos, host, port) => match created {
            None => out.push(CliRequest::Create),
            Some(h) => {
                out.push(CliRequest::UpdateHostname(h, Some(clone_string(host))));
                out.push(CliRequest::UpdatePort(h, match port {
                    Some(p) => *p,
                    None => DEFAULT_PORT,
                }));
                out.push(CliRequest::UpdatePosition(h, *pos));
                out.push(CliRequest::GetState(h));
            },
        },
        Command::Disconnect(id) => out.push(CliRequest::Delete(*id)),
        Command::Activate(id) => {
            out.push(CliRequest::Activate(*id, true));
            out.push(CliRequest::GetState(*id));
        },
        Command::Deactivate(id) => {
            out.push(CliRequest::Activate(*id, false));
            out.push(CliRequest::GetState(*id));
        },
        Command::List => out.push(CliRequest::Enumerate),
        Command::SetHost(id, host) => {
            out.push(CliRequest::UpdateHostname(*id, Some(clone_string(host))));
            out.push(CliRequest::GetState(*id));
        },
        Command::SetPort(id, port) => {
            out.push(CliRequest::UpdatePort(*id, match port {
                Some(p) => *p,
                None => DEFAULT_PORT,
            }));
            out.push(CliRequest::GetState(*id));
        },
    }
    assert(requests_view(out@) =~= spec_command_requests(cmd@, created));
    out
}

/// The usage lines `help` prints, in order: list, connect, disconnect,
/// activate, deactivate, set-host, set-port.
pub fn help_lines() -> (r: Vec<&'static str>)
    ensures
        r@.len() == 7,
        r@[0]@ == spec_usage(CommandType::List),
        r@[1]@ == spec_usage(CommandType::Connect),
        r@[2]@ == spec_usage(CommandType::Disconnect),
        r@[3]@ == spec_usage(CommandType::Activate),
        r@[4]@ == spec_usage(CommandType::Deactivate),
        r@[5]@ == spec_usage(CommandType::SetHost),
        r@[6]@ == spec_usage(CommandType::SetPort),
{
    let mut out: Vec<&'static str> = Vec::new();
    out.push(CommandType::List.usage());
    out.push(CommandType::Connect.usage());
    out.push(CommandType::Disconnect.usage());
    out.push(CommandType::Activate.usage());
    out.push(CommandType::Deactivate.usage());
    out.push(CommandType::SetHost.usage());
    out.push(CommandType::SetPort.usage());
    out
}

/// The port a request for a command's port carries: that port, else 4242.
pub open spec fn port_or_4242(p: Option<u16>) -> u16 {
    match p {
        Some(q) => q,
        None => 4242u16,
    }
}

/// A request that `cmd` may send, given the client `created` for a
/// connect: it is about the command's own client and carries the command's
/// own values.
pub open spec fn request_fits(cmd: CommandModel, created: Option<ClientHandle>, r: CliRequestModel) -> bool {
    match r {
        CliRequestModel::Create => cmd is Connect && created is None,
        CliRequestModel::UpdateHostname(h, name) => match cmd {
            CommandModel::SetHost(id, host) => h == id && name == Some(host),
            CommandModel::Connect(_, host, _) => created == Some(h) && name == Some(host),
            _ => false,
        },
        CliRequestModel::UpdatePort(h, p) => match cmd {
            CommandModel::SetPort(id, port) => h == id && p == port_or_4242(port),
            CommandModel::Connect(_, _, port) => created == Some(h) && p == port_or_4242(port),
            _ => false,
        },
        CliRequestModel::UpdatePosition(h, pos) => match cmd {
            CommandModel::Connect(p2, _, _) => created == Some(h) && pos == p2,
            _ => false,
        },
        CliRequestModel::Delete(h) => cmd == CommandModel::Disconnect(h),
        CliRequestModel::Activate(h, on) => (on && cmd == CommandModel::Activate(h)) || (!on && cmd
            == CommandModel::Deactivate(h)),
        CliRequestModel::Enumerate => cmd is List,
        CliRequestModel::GetState(h) => match cmd {
            CommandModel::Activate(id) | CommandModel::Deactivate(id) | CommandModel::SetHost(id, _)
            | CommandModel::SetPort(id, _) => h == id,
            CommandModel::Connect(_, _, _) => created == Some(h),
            _ => false,
        },
    }
}

/// What a command asks of the daemon. Every request it sends is about its
/// own client and carries its own values: a host name is always `Some` of
/// exactly the host the command names, a port the command's port or 4242,
/// a position the command's position. And it sends what it is for: `set-host`
/// and a created `connect` name the host, `set-port` and `connect` the port,
/// `connect` the position, `activate` and `deactivate` switch the client
/// on and off, `disconnect` deletes it, `list` enumerates; a command that
/// changes a client asks for its state last; an empty line and `help` send
/// nothing.
pub proof fn lemma_requests_carry_the_command(cmd: CommandModel, created: Option<ClientHandle>)
    ensures
        forall|k: int|
            0 <= k < spec_command_requests(cmd, created).len() ==> request_fits(
                cmd,
                created,
                #[trigger] spec_command_requests(cmd, created)[k],
            ),
        cmd is Empty || cmd is Help ==> spec_command_requests(cmd, created).len() == 0,
        match cmd {
            CommandModel::SetHost(id, host) => spec_command_requests(cmd, created).contains(
                CliRequestModel::UpdateHostname(id, Some(host)),
            ) && spec_command_requests(cmd, created).last() == CliRequestModel::GetState(id),
            CommandModel::SetPort(id, port) => spec_command_requests(cmd, created).contains(
                CliRequestModel::UpdatePort(id, port_or_4242(port)),
            ) && spec_command_requests(cmd, created).last() == CliRequestModel::GetState(id),
            CommandModel::Activate(id) => spec_command_requests(cmd, created).contains(
                CliRequestModel::Activate(id, true),
            ) && spec_command_requests(cmd, created).last() == CliRequestModel::GetState(id),
            CommandModel::Deactivate(id) => spec_command_requests(cmd, created).contains(
                CliRequestModel::Activate(id, false),
            ) && spec_command_requests(cmd, created).last() == CliRequestModel::GetState(id),
            CommandModel::Disconnect(id) => spec_command_requests(cmd, created).contains(CliRequestModel::Delete(id)),
            CommandModel::List => spec_command_requests(cmd, created).contains(CliRequestModel::Enumerate),
            CommandModel::Connect(pos, host, port) => match created {
                None => spec_command_requests(cmd, created).len() == 1 && spec_command_requests(cmd, created)[0]
                    == CliRequestModel::Create,
                Some(h) => {
                    &&& spec_command_requests(cmd, created).contains(CliRequestModel::UpdateHostname(h, Some(host)))
                    &&& spec_command_requests(cmd, created).contains(CliRequestModel::UpdatePort(h, port_or_4242(port)))
                    &&& spec_command_requests(cmd, created).contains(CliRequestModel::UpdatePosition(h, pos))
                    &&& spec_command_requests(cmd, created).last() == CliRequestModel::GetState(h)
                },
            },
            _ => true,
        },
{
    let rs = spec_command_requests(cmd, created);
    match cmd {
        CommandModel::SetHost(id, host) => {
            assert(rs[0] == CliRequestModel::UpdateHostname(id, Some(host)));
        },
        CommandModel::SetPort(id, port) => {
            assert(rs[0] == CliRequestModel::UpdatePort(id, port_or_4242(port)));
        },
        CommandModel::Activate(id) => {
            assert(rs[0] == CliRequestModel::Activate(id, true));
        },
        CommandModel::Deactivate(id) => {
            assert(rs[0] == CliRequestModel::Activate(id, false));
        },
        CommandModel::Disconnect(id) => {
            assert(rs[0] == CliRequestModel::Delete(id));
        },
        CommandModel::List => {
            assert(rs[0] == CliRequestModel::Enumerate);
        },
        CommandModel::Connect(pos, host, port) => {
            if let Some(h) = created {
                assert(rs[0] == CliRequestModel::UpdateHostname(h, Some(host)));
                assert(rs[1] == CliRequestModel::UpdatePort(h, port_or_4242(port)));
                assert(rs[2] == CliRequestModel::UpdatePosition(h, pos));
            }
        },
        _ => {},
    }
}

} // verus!
