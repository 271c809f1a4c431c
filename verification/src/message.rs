//! The wire protocol: one message per line, a command word followed by its
//! arguments, single spaces between them and a newline at the end.
//!
//! `parse` and `render` say on sequences of characters what a line means and
//! how a message is written; `parse_message` and `create_message_text` are
//! the executable forms, and `lemma_parse_render` shows that a rendered
//! message parses back to itself.

use vstd::prelude::*;
use vstd::string::StringExecFns;
use crate::text::{
    chars_of, free_of, join, lemma_split_free_of, lemma_split_join, lemma_split_nonempty, spells,
    split, split_chars, texts, upper, upper_chars, upper_text,
};

verus! {

/// A protocol message with its arguments.
#[derive(Debug, PartialEq)]
pub enum MessageType {
    // sent by clients
    /// Handshake attempt: identity, password.
    CONNECT(String, String),
    /// Request to close the session.
    DISCONNECT,
    /// Liveness beat.
    PING,
    /// Notification: to the named partner when a client sends it, from the
    /// named sender when the server delivers it.
    BOOP(String),
    /// Presence query for the named partner.
    AYT(String),
    // sent by the server
    /// Handshake accepted.
    HEY,
    /// Handshake refused.
    NO,
    /// Answer to `DISCONNECT`.
    BYE,
    /// Answer to `PING`.
    PONG,
    /// Protocol error; the session ends.
    ERROR(MessageErrorKind),
    /// Answer to `AYT`: the partner has a session.
    ONLINE(String),
    /// Answer to `AYT`: the partner has none.
    AFK(String),
}

/// The error codes of the protocol.
#[derive(Debug, PartialEq, Eq, Clone, Copy, Structural)]
pub enum MessageErrorKind {
    /// Reserved; the server does not send it.
    NotAvailable,
    /// The command word is not one of the protocol.
    MalformedCommand,
    /// Wrong number of arguments, or an empty one.
    MalformedArguments,
    /// A well-formed message that is not allowed in the session's state.
    ProtocolMismatch,
}

/// Why a line is not a message.
#[derive(Debug, PartialEq, Eq, Clone, Copy, Structural)]
pub enum ParserError {
    /// The first word is no command.
    UnknownMessageType,
    /// The arguments do not fit the command.
    UnknownArguments,
}

/// The command words.
#[derive(Debug, PartialEq, Eq, Clone, Copy, Structural)]
pub enum Command {
    Connect,
    Disconnect,
    Ping,
    Boop,
    Ayt,
    Hey,
    No,
    Bye,
    Pong,
    Error,
    Online,
    Afk,
}

/// The mathematical value of a `MessageType`: the same variants over
/// sequences of characters.
pub enum Message {
    Connect(Seq<char>, Seq<char>),
    Disconnect,
    Ping,
    Boop(Seq<char>),
    Ayt(Seq<char>),
    Hey,
    No,
    Bye,
    Pong,
    Error(MessageErrorKind),
    Online(Seq<char>),
    Afk(Seq<char>),
}

impl View for MessageType {
    type V = Message;

    open spec fn view(&self) -> Message {
        match self {
            MessageType::CONNECT(key, password) => Message::Connect(key@, password@),
            MessageType::DISCONNECT => Message::Disconnect,
            MessageType::PING => Message::Ping,
            MessageType::BOOP(partner) => Message::Boop(partner@),
            MessageType::AYT(partner) => Message::Ayt(partner@),
            MessageType::HEY => Message::Hey,
            MessageType::NO => Message::No,
            MessageType::BYE => Message::Bye,
            MessageType::PONG => Message::Pong,
            MessageType::ERROR(kind) => Message::Error(*kind),
            MessageType::ONLINE(partner) => Message::Online(partner@),
            MessageType::AFK(partner) => Message::Afk(partner@),
        }
    }
}

impl Clone for MessageType {
    fn clone(&self) -> (copy: Self)
        ensures
            copy@ == self@,
    {
        match self {
            MessageType::CONNECT(key, password) => MessageType::CONNECT(
                key.clone(),
                password.clone(),
            ),
            MessageType::DISCONNECT => MessageType::DISCONNECT,
            MessageType::PING => MessageType::PING,
            MessageType::BOOP(partner) => MessageType::BOOP(partner.clone()),
            MessageType::AYT(partner) => MessageType::AYT(partner.clone()),
            MessageType::HEY => MessageType::HEY,
            MessageType::NO => MessageType::NO,
            MessageType::BYE => MessageType::BYE,
            MessageType::PONG => MessageType::PONG,
            MessageType::ERROR(kind) => MessageType::ERROR(*kind),
            MessageType::ONLINE(partner) => MessageType::ONLINE(partner.clone()),
            MessageType::AFK(partner) => MessageType::AFK(partner.clone()),
        }
    }
}

impl From<ParserError> for MessageErrorKind {
    /// The error code that reports a parser failure on the wire.
    fn from(err: ParserError) -> (kind: MessageErrorKind) {
        match err {
            ParserError::UnknownMessageType => MessageErrorKind::MalformedCommand,
            ParserError::UnknownArguments => MessageErrorKind::MalformedArguments,
        }
    }
}

impl vstd::std_specs::convert::FromSpecImpl<ParserError> for MessageErrorKind {
    open spec fn obeys_from_spec() -> bool {
        true
    }

    open spec fn from_spec(err: ParserError) -> MessageErrorKind {
        error_code(err)
    }
}

/// The error code that reports a parser failure on the wire.
pub open spec fn error_code(err: ParserError) -> MessageErrorKind {
    match err {
        ParserError::UnknownMessageType => MessageErrorKind::MalformedCommand,
        ParserError::UnknownArguments => MessageErrorKind::MalformedArguments,
    }
}

/// How a command is spelled on the wire.
pub open spec fn keyword(command: Command) -> Seq<char> {
    match command {
        Command::Connect => "CONNECT"@,
        Command::Disconnect => "DISCONNECT"@,
        Command::Ping => "PING"@,
        Command::Boop => "BOOP"@,
        Command::Ayt => "AYT"@,
        Command::Hey => "HEY"@,
        Command::No => "NO"@,
        Command::Bye => "BYE"@,
        Command::Pong => "PONG"@,
        Command::Error => "ERROR"@,
        Command::Online => "ONLINE"@,
        Command::Afk => "AFK"@,
    }
}

/// How many arguments a command takes.
pub open spec fn arity(command: Command) -> nat {
    match command {
        Command::Connect => 2,
        Command::Boop | Command::Ayt | Command::Error | Command::Online | Command::Afk => 1,
        Command::Disconnect | Command::Ping | Command::Hey | Command::No | Command::Bye
        | Command::Pong => 0,
    }
}

/// The command that a word names, letter case of ASCII letters aside.
pub open spec fn command_of(word: Seq<char>) -> Option<Command> {
    let folded = upper_text(word);
    if folded == keyword(Command::Connect) {
        Some(Command::Connect)
    } else if folded == keyword(Command::Disconnect) {
        Some(Command::Disconnect)
    } else if folded == keyword(Command::Ping) {
        Some(Command::Ping)
    } else if folded == keyword(Command::Boop) {
        Some(Command::Boop)
    } else if folded == keyword(Command::Ayt) {
        Some(Command::Ayt)
    } else if folded == keyword(Command::Hey) {
        Some(Command::Hey)
    } else if folded == keyword(Command::No) {
        Some(Command::No)
    } else if folded == keyword(Command::Bye) {
        Some(Command::Bye)
    } else if folded == keyword(Command::Pong) {
        Some(Command::Pong)
    } else if folded == keyword(Command::Error) {
        Some(Command::Error)
    } else if folded == keyword(Command::Online) {
        Some(Command::Online)
    } else if folded == keyword(Command::Afk) {
        Some(Command::Afk)
    } else {
        None
    }
}

/// How an error code is spelled on the wire.
pub open spec fn error_token(kind: MessageErrorKind) -> Seq<char> {
    match kind {
        MessageErrorKind::NotAvailable => "NOT_AVAILABLE"@,
        MessageErrorKind::MalformedCommand => "MALFORMED_COMMAND"@,
        MessageErrorKind::MalformedArguments => "MALFORMED_ARGUMENTS"@,
        MessageErrorKind::ProtocolMismatch => "PROTOCOL_MISMATCH"@,
    }
}

/// The error code that a token spells, letter for letter.
pub open spec fn error_kind_of(token: Seq<char>) -> Option<MessageErrorKind> {
    if token == error_token(MessageErrorKind::NotAvailable) {
        Some(MessageErrorKind::NotAvailable)
    } else if token == error_token(MessageErrorKind::MalformedCommand) {
        Some(MessageErrorKind::MalformedCommand)
    } else if token == error_token(MessageErrorKind::MalformedArguments) {
        Some(MessageErrorKind::MalformedArguments)
    } else if token == error_token(MessageErrorKind::ProtocolMismatch) {
        Some(MessageErrorKind::ProtocolMismatch)
    } else {
        None
    }
}

/// Every argument has at least one character.
pub open spec fn all_filled(args: Seq<Seq<char>>) -> bool {
    forall|i: int| 0 <= i < args.len() ==> (#[trigger] args[i]).len() > 0
}

/// The message of a command with arguments that fit it in number.
pub open spec fn assemble(command: Command, args: Seq<Seq<char>>) -> Result<Message, ParserError> {
    match command {
        Command::Connect => Ok(Message::Connect(args[0], args[1])),
        Command::Disconnect => Ok(Message::Disconnect),
        Command::Ping => Ok(Message::Ping),
        Command::Boop => Ok(Message::Boop(args[0])),
        Command::Ayt => Ok(Message::Ayt(args[0])),
        Command::Hey => Ok(Message::Hey),
        Command::No => Ok(Message::No),
        Command::Bye => Ok(Message::Bye),
        Command::Pong => Ok(Message::Pong),
        Command::Error => match error_kind_of(args[0]) {
            Some(kind) => Ok(Message::Error(kind)),
            None => Err(ParserError::UnknownArguments),
        },
        Command::Online => Ok(Message::Online(args[0])),
        Command::Afk => Ok(Message::Afk(args[0])),
    }
}

/// What a command makes of its arguments: they must be as many as the
/// command takes and none of them empty.
pub open spec fn with_arguments(command: Command, args: Seq<Seq<char>>) -> Result<
    Message,
    ParserError,
> {
    if args.len() == arity(command) && all_filled(args) {
        assemble(command, args)
    } else {
        Err(ParserError::UnknownArguments)
    }
}

/// What a command word and its arguments mean. An unknown word is reported
/// before the arguments are looked at.
pub open spec fn message_of(word: Seq<char>, args: Seq<Seq<char>>) -> Result<Message, ParserError> {
    match command_of(word) {
        Some(command) => with_arguments(command, args),
        None => Err(ParserError::UnknownMessageType),
    }
}

/// The line without its final newline, if it has one.
pub open spec fn strip_newline(line: Seq<char>) -> Seq<char> {
    if line.len() > 0 && line.last() == '\n' {
        line.drop_last()
    } else {
        line
    }
}

/// What a line means: after one final newline is taken off, the line is
/// split at every space; the first piece is the command word and the others
/// are its arguments.
pub open spec fn parse(line: Seq<char>) -> Result<Message, ParserError> {
    let pieces = split(strip_newline(line), ' ');
    message_of(pieces[0], pieces.drop_first())
}

/// The command of a message.
pub open spec fn command(message: Message) -> Command {
    match message {
        Message::Connect(_, _) => Command::Connect,
        Message::Disconnect => Command::Disconnect,
        Message::Ping => Command::Ping,
        Message::Boop(_) => Command::Boop,
        Message::Ayt(_) => Command::Ayt,
        Message::Hey => Command::Hey,
        Message::No => Command::No,
        Message::Bye => Command::Bye,
        Message::Pong => Command::Pong,
        Message::Error(_) => Command::Error,
        Message::Online(_) => Command::Online,
        Message::Afk(_) => Command::Afk,
    }
}

/// The arguments of a message as they stand on the wire.
pub open spec fn arguments(message: Message) -> Seq<Seq<char>> {
    match message {
        Message::Connect(key, password) => seq![key, password],
        Message::Boop(partner) => seq![partner],
        Message::Ayt(partner) => seq![partner],
        Message::Error(kind) => seq![error_token(kind)],
        Message::Online(partner) => seq![partner],
        Message::Afk(partner) => seq![partner],
        _ => Seq::<Seq<char>>::empty(),
    }
}

/// The line of a message: its command word and arguments with one space
/// between each two, and a newline.
pub open spec fn render(message: Message) -> Seq<char> {
    join(seq![keyword(command(message))] + arguments(message), ' ').push('\n')
}

/// An argument that can stand on a line: not empty, and without a space.
pub open spec fn is_token(text: Seq<char>) -> bool {
    text.len() > 0 && forall|j: int| 0 <= j < text.len() ==> text[j] != ' '
}

/// The strings that the message carries can stand on a line.
pub open spec fn well_formed(message: Message) -> bool {
    match message {
        Message::Connect(key, password) => is_token(key) && is_token(password),
        Message::Boop(partner) => is_token(partner),
        Message::Ayt(partner) => is_token(partner),
        Message::Online(partner) => is_token(partner),
        Message::Afk(partner) => is_token(partner),
        _ => true,
    }
}

/// The outcome of parsing, with the message taken by its view.
pub open spec fn outcome(result: Result<MessageType, ParserError>) -> Result<Message, ParserError> {
    match result {
        Ok(message) => Ok(message@),
        Err(err) => Err(err),
    }
}

/// A command word is not empty, holds no space, and names its own command.
proof fn lemma_keyword(c: Command)
    ensures
        is_token(keyword(c)),
        command_of(keyword(c)) == Some(c),
{
    reveal_strlit("CONNECT");
    reveal_strlit("DISCONNECT");
    reveal_strlit("PING");
    reveal_strlit("BOOP");
    reveal_strlit("AYT");
    reveal_strlit("HEY");
    reveal_strlit("NO");
    reveal_strlit("BYE");
    reveal_strlit("PONG");
    reveal_strlit("ERROR");
    reveal_strlit("ONLINE");
    reveal_strlit("AFK");
    let word = keyword(c);
    assert forall|j: int| 0 <= j < word.len() implies upper(#[trigger] word[j]) == word[j] by {}
    assert(upper_text(word) == word);
    assert forall|other: Command| other != c implies keyword(other) != word by {
        if keyword(other) == word {
            assert(keyword(other).len() == word.len());
            assert(keyword(other)[0] == word[0]);
            assert(keyword(other)[1] == word[1]);
        }
    }
}

/// An error token is not empty, holds no space, and spells its own code.
proof fn lemma_error_token(kind: MessageErrorKind)
    ensures
        is_token(error_token(kind)),
        error_kind_of(error_token(kind)) == Some(kind),
{
    reveal_strlit("NOT_AVAILABLE");
    reveal_strlit("MALFORMED_COMMAND");
    reveal_strlit("MALFORMED_ARGUMENTS");
    reveal_strlit("PROTOCOL_MISMATCH");
    let token = error_token(kind);
    assert forall|other: MessageErrorKind| other != kind implies error_token(other) != token by {
        if error_token(other) == token {
            assert(error_token(other).len() == token.len());
            assert(error_token(other)[0] == token[0]);
        }
    }
}

/// A message whose strings can stand on a line is read back from its own
/// line: `parse(render(m)) == Ok(m)`.
pub proof fn lemma_parse_render(message: Message)
    requires
        well_formed(message),
    ensures
        parse(render(message)) == Ok::<Message, ParserError>(message),
{
    let word = keyword(command(message));
    let args = arguments(message);
    let pieces = seq![word] + args;
    lemma_keyword(command(message));
    if let Message::Error(kind) = message {
        lemma_error_token(kind);
    }
    assert forall|i: int| 0 <= i < pieces.len() implies is_token(#[trigger] pieces[i]) by {
        if i > 0 {
            assert(pieces[i] == args[i - 1]);
        }
    }
    assert(free_of(pieces, ' '));
    lemma_split_join(pieces, ' ');
    let line = render(message);
    assert(strip_newline(line) == join(pieces, ' ')) by {
        assert(line.drop_last() == join(pieces, ' '));
    }
    assert(pieces[0] == word);
    assert(pieces.drop_first() == args);
    assert(all_filled(args)) by {
        assert forall|i: int| 0 <= i < args.len() implies (#[trigger] args[i]).len() > 0 by {
            assert(args[i] == pieces[i + 1]);
        }
    }
}

/// A line that is read as a message gives one that can be written: the
/// strings it carries are not empty and hold no space.
pub proof fn lemma_parsed_is_well_formed(line: Seq<char>)
    ensures
        parse(line) matches Ok(message) ==> well_formed(message),
{
    let pieces = split(strip_newline(line), ' ');
    lemma_split_nonempty(strip_newline(line), ' ');
    lemma_split_free_of(strip_newline(line), ' ');
    let args = pieces.drop_first();
    if let Ok(message) = parse(line) {
        assert forall|i: int| 0 <= i < args.len() implies is_token(#[trigger] args[i]) by {
            assert(args[i] == pieces[i + 1]);
            assert forall|j: int| 0 <= j < args[i].len() implies args[i][j] != ' ' by {
                assert(pieces[i + 1][j] != ' ');
            }
        }
    }
}

/// Recognises a command word, whatever the case of its letters.
pub fn read_command(word: &str) -> (found: Option<Command>)
    ensures
        found == command_of(word@),
{
    let folded = upper_chars(word);
    if spells(&folded, "CONNECT") {
        Some(Command::Connect)
    } else if spells(&folded, "DISCONNECT") {
        Some(Command::Disconnect)
    } else if spells(&folded, "PING") {
        Some(Command::Ping)
    } else if spells(&folded, "BOOP") {
        Some(Command::Boop)
    } else if spells(&folded, "AYT") {
        Some(Command::Ayt)
    } else if spells(&folded, "HEY") {
        Some(Command::Hey)
    } else if spells(&folded, "NO") {
        Some(Command::No)
    } else if spells(&folded, "BYE") {
        Some(Command::Bye)
    } else if spells(&folded, "PONG") {
        Some(Command::Pong)
    } else if spells(&folded, "ERROR") {
        Some(Command::Error)
    } else if spells(&folded, "ONLINE") {
        Some(Command::Online)
    } else if spells(&folded, "AFK") {
        Some(Command::Afk)
    } else {
        None
    }
}

/// The one argument of a command that takes one, if the arguments are one
/// and it is not empty.
fn single(args: &Vec<String>) -> (arg: Option<String>)
    ensures
        arg is Some <==> texts(args@).len() == 1 && all_filled(texts(args@)),
        arg matches Some(text) ==> text@ == texts(args@)[0],
{
    if args.len() == 1 && !args[0].as_str().is_empty() {
        assert(texts(args@)[0] == args@[0]@);
        Some(args[0].clone())
    } else {
        assert(args.len() == 1 ==> texts(args@)[0].len() == 0);
        None
    }
}

/// `CONNECT identity password`.
pub fn connect(args: &Vec<String>) -> (result: Result<MessageType, ParserError>)
    ensures
        outcome(result) == with_arguments(Command::Connect, texts(args@)),
{
    if args.len() == 2 && !args[0].as_str().is_empty() && !args[1].as_str().is_empty() {
        assert(texts(args@)[0] == args@[0]@ && texts(args@)[1] == args@[1]@);
        Ok(MessageType::CONNECT(args[0].clone(), args[1].clone()))
    } else {
        assert(args.len() == 2 ==> texts(args@)[0].len() == 0 || texts(args@)[1].len() == 0);
        Err(ParserError::UnknownArguments)
    }
}

/// `BOOP partner`.
pub fn boop(args: &Vec<String>) -> (result: Result<MessageType, ParserError>)
    ensures
        outcome(result) == with_arguments(Command::Boop, texts(args@)),
{
    match single(args) {
        Some(partner) => Ok(MessageType::BOOP(partner)),
        None => Err(ParserError::UnknownArguments),
    }
}

/// `AYT partner`.
pub fn ayt(args: &Vec<String>) -> (result: Result<MessageType, ParserError>)
    ensures
        outcome(result) == with_arguments(Command::Ayt, texts(args@)),
{
    match single(args) {
        Some(partner) => Ok(MessageType::AYT(partner)),
        None => Err(ParserError::UnknownArguments),
    }
}

/// `ONLINE partner`.
pub fn online(args: &Vec<String>) -> (result: Result<MessageType, ParserError>)
    ensures
        outcome(result) == with_arguments(Command::Online, texts(args@)),
{
    match single(args) {
        Some(partner) => Ok(MessageType::ONLINE(partner)),
        None => Err(ParserError::UnknownArguments),
    }
}

/// `AFK partner`.
pub fn afk(args: &Vec<String>) -> (result: Result<MessageType, ParserError>)
    ensures
        outcome(result) == with_arguments(Command::Afk, texts(args@)),
{
    match single(args) {
        Some(partner) => Ok(MessageType::AFK(partner)),
        None => Err(ParserError::UnknownArguments),
    }
}

/// `ERROR code`, where the code is one of the four error tokens.
pub fn error(args: &Vec<String>) -> (result: Result<MessageType, ParserError>)
    ensures
        outcome(result) == with_arguments(Command::Error, texts(args@)),
{
    match single(args) {
        Some(code) => {
            let token = chars_of(code.as_str());
            if spells(&token, "NOT_AVAILABLE") {
                Ok(MessageType::ERROR(MessageErrorKind::NotAvailable))
            } else if spells(&token, "MALFORMED_COMMAND") {
                Ok(MessageType::ERROR(MessageErrorKind::MalformedCommand))
            } else if spells(&token, "MALFORMED_ARGUMENTS") {
                Ok(MessageType::ERROR(MessageErrorKind::MalformedArguments))
            } else if spells(&token, "PROTOCOL_MISMATCH") {
                Ok(MessageType::ERROR(MessageErrorKind::ProtocolMismatch))
            } else {
                Err(ParserError::UnknownArguments)
            }
        },
        None => Err(ParserError::UnknownArguments),
    }
}

/// A command that takes no argument.
fn bare(message: MessageType, args: &Vec<String>) -> (result: Result<MessageType, ParserError>)
    requires
        arity(command(message@)) == 0,
    ensures
        outcome(result) == with_arguments(command(message@), texts(args@)),
{
    if args.len() == 0 {
        Ok(message)
    } else {
        Err(ParserError::UnknownArguments)
    }
}

/// The message that a command word and its arguments stand for.
pub fn get_message_type_from_text(cmd: &str, args: Vec<String>) -> (result: Result<
    MessageType,
    ParserError,
>)
    ensures
        outcome(result) == message_of(cmd@, texts(args@)),
{
    match read_command(cmd) {
        Some(Command::Connect) => connect(&args),
        Some(Command::Boop) => boop(&args),
        Some(Command::Ayt) => ayt(&args),
        Some(Command::Error) => error(&args),
        Some(Command::Online) => online(&args),
        Some(Command::Afk) => afk(&args),
        Some(Command::Disconnect) => bare(MessageType::DISCONNECT, &args),
        Some(Command::Ping) => bare(MessageType::PING, &args),
        Some(Command::Hey) => bare(MessageType::HEY, &args),
        Some(Command::No) => bare(MessageType::NO, &args),
        Some(Command::Pong) => bare(MessageType::PONG, &args),
        Some(Command::Bye) => bare(MessageType::BYE, &args),
        None => Err(ParserError::UnknownMessageType),
    }
}

/// Reads one line of the protocol. The final newline may be missing.
pub fn parse_message(msg: &String) -> (result: Result<MessageType, ParserError>)
    ensures
        outcome(result) == parse(msg@),
{
    let mut chars = chars_of(msg.as_str());
    let len = chars.len();
    if len > 0 && chars[len - 1] == '\n' {
        chars.pop();
    }
    assert(chars@ == strip_newline(msg@));
    let mut pieces = split_chars(&chars, ' ');
    proof {
        lemma_split_nonempty(strip_newline(msg@), ' ');
    }
    let ghost all = texts(pieces@);
    assert(all.len() == pieces@.len());
    let cmd = pieces.remove(0);
    assert(cmd@ == all[0]);
    assert(texts(pieces@) == all.drop_first());
    get_message_type_from_text(cmd.as_str(), pieces)
}

/// The line of a command without arguments.
fn line_of(word: &str) -> (line: String)
    ensures
        line@ == join(seq![word@], ' ').push('\n'),
{
    let mut line = String::from_str(word);
    line.push('\n');
    line
}

/// The line of a command with one argument.
fn line_with(word: &str, arg: &str) -> (line: String)
    ensures
        line@ == join(seq![word@, arg@], ' ').push('\n'),
{
    let mut line = String::from_str(word);
    line.push(' ');
    line.append(arg);
    line.push('\n');
    proof {
        let pieces = seq![word@, arg@];
        assert(pieces.drop_last() == seq![word@]);
        assert(join(pieces, ' ') == join(seq![word@], ' ').push(' ') + arg@);
    }
    line
}

/// The line of a command with two arguments.
fn line_with_two(word: &str, first: &str, second: &str) -> (line: String)
    ensures
        line@ == join(seq![word@, first@, second@], ' ').push('\n'),
{
    let mut line = String::from_str(word);
    line.push(' ');
    line.append(first);
    line.push(' ');
    line.append(second);
    line.push('\n');
    proof {
        let pieces = seq![word@, first@, second@];
        let front = seq![word@, first@];
        assert(pieces.drop_last() == front);
        assert(front.drop_last() == seq![word@]);
        assert(join(front, ' ') == join(seq![word@], ' ').push(' ') + first@);
        assert(join(pieces, ' ') == join(front, ' ').push(' ') + second@);
    }
    line
}

/// Writes a message as one line of the protocol, newline included.
pub fn create_message_text(msg_type: MessageType) -> (text: String)
    ensures
        text@ == render(msg_type@),
{
    let ghost pieces = seq![keyword(command(msg_type@))] + arguments(msg_type@);
    match msg_type {
        MessageType::CONNECT(key, password) => {
            assert(pieces == seq!["CONNECT"@, key@, password@]);
            line_with_two("CONNECT", key.as_str(), password.as_str())
        },
        MessageType::DISCONNECT => {
            assert(pieces == seq!["DISCONNECT"@]);
            line_of("DISCONNECT")
        },
        MessageType::PING => {
            assert(pieces == seq!["PING"@]);
            line_of("PING")
        },
        MessageType::BOOP(partner_key) => {
            assert(pieces == seq!["BOOP"@, partner_key@]);
            line_with("BOOP", partner_key.as_str())
        },
        MessageType::AYT(partner_key) => {
            assert(pieces == seq!["AYT"@, partner_key@]);
            line_with("AYT", partner_key.as_str())
        },
        MessageType::HEY => {
            assert(pieces == seq!["HEY"@]);
            line_of("HEY")
        },
        MessageType::NO => {
            assert(pieces == seq!["NO"@]);
            line_of("NO")
        },
        MessageType::BYE => {
            assert(pieces == seq!["BYE"@]);
            line_of("BYE")
        },
        MessageType::PONG => {
            assert(pieces == seq!["PONG"@]);
            line_of("PONG")
        },
        MessageType::ERROR(err_kind) => {
            assert(pieces == seq!["ERROR"@, error_token(err_kind)]);
            let code = error_text(err_kind);
            line_with("ERROR", code.as_str())
        },
        MessageType::ONLINE(partner_key) => {
            assert(pieces == seq!["ONLINE"@, partner_key@]);
            line_with("ONLINE", partner_key.as_str())
        },
        MessageType::AFK(partner_key) => {
            assert(pieces == seq!["AFK"@, partner_key@]);
            line_with("AFK", partner_key.as_str())
        },
    }
}

/// The token of an error code.
pub fn error_text(err_kind: MessageErrorKind) -> (text: String)
    ensures
        text@ == error_token(err_kind),
{
    let kind_text = match err_kind {
        MessageErrorKind::NotAvailable => "NOT_AVAILABLE",
        MessageErrorKind::MalformedCommand => "MALFORMED_COMMAND",
        MessageErrorKind::MalformedArguments => "MALFORMED_ARGUMENTS",
        MessageErrorKind::ProtocolMismatch => "PROTOCOL_MISMATCH",
    };
    String::from_str(kind_text)
}

} // verus!
