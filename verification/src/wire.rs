use crate::error::Error;
use crate::transaction::bytes_eq;
use vstd::prelude::*;
use vstd::utf8::{encode_utf8, is_ascii_chars_encode_utf8};

verus! {

/// The width of the command name at the head of a frame.
pub const CMD_LEN: usize = 12;

/// The commands that nodes send each other.
#[derive(Clone, Copy, Debug, PartialEq, Eq, Structural)]
pub enum Command {
    Addr,
    Block,
    Inv,
    GetBlocks,
    GetData,
    Tx,
    Version,
}

/// The name of a command on the wire.
pub open spec fn command_name(command: Command) -> Seq<char> {
    match command {
        Command::Addr => "addr"@,
        Command::Block => "block"@,
        Command::Inv => "inv"@,
        Command::GetBlocks => "get_blocks"@,
        Command::GetData => "get_data"@,
        Command::Tx => "tx"@,
        Command::Version => "version"@,
    }
}

/// The command that a name stands for.
pub open spec fn command_of(name: Seq<u8>) -> Option<Command> {
    if name == encode_utf8("addr"@) {
        Some(Command::Addr)
    } else if name == encode_utf8("block"@) {
        Some(Command::Block)
    } else if name == encode_utf8("inv"@) {
        Some(Command::Inv)
    } else if name == encode_utf8("get_blocks"@) {
        Some(Command::GetBlocks)
    } else if name == encode_utf8("get_data"@) {
        Some(Command::GetData)
    } else if name == encode_utf8("tx"@) {
        Some(Command::Tx)
    } else if name == encode_utf8("version"@) {
        Some(Command::Version)
    } else {
        None
    }
}

/// A name followed by zero bytes up to the width of `CMD_LEN`.
pub open spec fn padded(name: Seq<u8>) -> Seq<u8> {
    Seq::new(
        CMD_LEN as nat,
        |i: int|
            if i < name.len() {
                name[i]
            } else {
                0u8
            },
    )
}

/// The bytes of a string that are not zero, in order.
pub open spec fn without_zeros(bytes: Seq<u8>) -> Seq<u8>
    decreases bytes.len(),
{
    if bytes.len() == 0 {
        Seq::empty()
    } else if bytes.last() == 0u8 {
        without_zeros(bytes.drop_last())
    } else {
        without_zeros(bytes.drop_last()).push(bytes.last())
    }
}

/// A frame: the padded command name, then the payload.
pub open spec fn framed(name: Seq<u8>, payload: Seq<u8>) -> Seq<u8> {
    padded(name) + payload
}

/// What a frame holds: the command that its first `CMD_LEN` bytes name
/// when the zero bytes are left out, and the bytes after them. There is
/// none for a frame that is too short or names no command.
pub open spec fn parsed(bytes: Seq<u8>) -> Option<(Command, Seq<u8>)> {
    if bytes.len() < CMD_LEN {
        None
    } else {
        match command_of(without_zeros(bytes.subrange(0, CMD_LEN as int))) {
            Some(command) => Some((command, bytes.subrange(CMD_LEN as int, bytes.len() as int))),
            None => None,
        }
    }
}

impl Command {
    /// The name of the command on the wire.
    pub fn name(&self) -> (name: &'static str)
        ensures
            name@ == command_name(*self),
    {
        match self {
            Command::Addr => "addr",
            Command::Block => "block",
            Command::Inv => "inv",
            Command::GetBlocks => "get_blocks",
            Command::GetData => "get_data",
            Command::Tx => "tx",
            Command::Version => "version",
        }
    }
}

/// The command name as `CMD_LEN` bytes, padded with zero bytes. The name
/// must not be longer than that.
pub fn cmd_to_bytes(cmd: &str) -> (data: [u8; CMD_LEN])
    requires
        encode_utf8(cmd@).len() <= CMD_LEN,
    ensures
        data@ == padded(encode_utf8(cmd@)),
{
    let mut data: [u8; CMD_LEN] = [0u8; CMD_LEN];
    let bytes = cmd.as_bytes();
    let mut i: usize = 0;
    while i < bytes.len()
        invariant
            i <= bytes@.len() <= CMD_LEN,
            bytes@ == encode_utf8(cmd@),
            forall|k: int| 0 <= k < i ==> data@[k] == bytes@[k],
            forall|k: int| i <= k < CMD_LEN ==> data@[k] == 0u8,
        decreases bytes@.len() - i,
    {
        data[i] = bytes[i];
        i += 1;
    }
    data
}

/// A frame for the wire: the padded command name, then the payload.
pub fn frame(command: Command, payload: &[u8]) -> (bytes: Vec<u8>)
    ensures
        bytes@ == framed(encode_utf8(command_name(command)), payload@),
{
    proof {
        lemma_names(command);
    }
    let head = cmd_to_bytes(command.name());
    let mut bytes: Vec<u8> = Vec::new();
    let mut i: usize = 0;
    while i < CMD_LEN
        invariant
            i <= CMD_LEN,
            bytes@ == head@.subrange(0, i as int),
        decreases CMD_LEN - i,
    {
        bytes.push(head[i]);
        i += 1;
    }
    let mut k: usize = 0;
    while k < payload.len()
        invariant
            k <= payload@.len(),
            bytes@ == head@ + payload@.subrange(0, k as int),
        decreases payload@.len() - k,
    {
        bytes.push(payload[k]);
        k += 1;
    }
    bytes
}

/// Splits a frame into its command and its payload.
pub fn bytes_to_cmd(bytes: &[u8]) -> (parts: Result<(Command, Vec<u8>), Error>)
    ensures
        match parts {
            Ok((command, payload)) => parsed(bytes@) == Some((command, payload@)),
            Err(e) => parsed(bytes@) is None && e == Error::Format,
        },
{
    if bytes.len() < CMD_LEN {
        return Err(Error::Format);
    }
    let mut cmd: Vec<u8> = Vec::new();
    let mut i: usize = 0;
    let ghost head = bytes@.subrange(0, CMD_LEN as int);
    while i < CMD_LEN
        invariant
            i <= CMD_LEN <= bytes@.len(),
            head == bytes@.subrange(0, CMD_LEN as int),
            cmd@ == without_zeros(head.subrange(0, i as int)),
        decreases CMD_LEN - i,
    {
        proof {
            let part = head.subrange(0, i as int + 1);
            assert(part.drop_last() =~= head.subrange(0, i as int));
        }
        if bytes[i] != 0u8 {
            cmd.push(bytes[i]);
        }
        i += 1;
    }
    assert(head.subrange(0, CMD_LEN as int) =~= head);
    let name = cmd.as_slice();
    let command = if bytes_eq(name, "addr".as_bytes()) {
        Command::Addr
    } else if bytes_eq(name, "block".as_bytes()) {
        Command::Block
    } else if bytes_eq(name, "inv".as_bytes()) {
        Command::Inv
    } else if bytes_eq(name, "get_blocks".as_bytes()) {
        Command::GetBlocks
    } else if bytes_eq(name, "get_data".as_bytes()) {
        Command::GetData
    } else if bytes_eq(name, "tx".as_bytes()) {
        Command::Tx
    } else if bytes_eq(name, "version".as_bytes()) {
        Command::Version
    } else {
        return Err(Error::Format);
    };
    let mut payload: Vec<u8> = Vec::new();
    let mut k: usize = CMD_LEN;
    while k < bytes.len()
        invariant
            CMD_LEN <= k <= bytes@.len(),
            payload@ == bytes@.subrange(CMD_LEN as int, k as int),
        decreases bytes@.len() - k,
    {
        payload.push(bytes[k]);
        k += 1;
    }
    Ok((command, payload))
}

/// The name of a command is made of as many bytes as it has characters,
/// none of them zero, and at most `CMD_LEN`.
pub proof fn lemma_names(command: Command)
    ensures
        encode_utf8(command_name(command)).len() == command_name(command).len(),
        command_name(command).len() <= CMD_LEN,
        forall|i: int|
            0 <= i < command_name(command).len() ==> #[trigger] encode_utf8(
                command_name(command),
            )[i] != 0u8,
        command_name(Command::Addr).len() == 4,
        command_name(Command::Block).len() == 5,
        command_name(Command::Inv).len() == 3,
        command_name(Command::GetBlocks).len() == 10,
        command_name(Command::GetData).len() == 8,
        command_name(Command::Tx).len() == 2,
        command_name(Command::Version).len() == 7,
{
    reveal_strlit("addr");
    reveal_strlit("block");
    reveal_strlit("inv");
    reveal_strlit("get_blocks");
    reveal_strlit("get_data");
    reveal_strlit("tx");
    reveal_strlit("version");
    let name = command_name(command);
    is_ascii_chars_encode_utf8(name);
}

/// Leaving the zero bytes out of a name without zero bytes, followed by
/// zero bytes, gives the name.
pub proof fn lemma_without_zeros(name: Seq<u8>, upto: int)
    requires
        name.len() <= CMD_LEN,
        0 <= upto <= CMD_LEN,
        forall|i: int| 0 <= i < name.len() ==> name[i] != 0u8,
    ensures
        without_zeros(padded(name).subrange(0, upto)) == (if upto <= name.len() {
            name.subrange(0, upto)
        } else {
            name
        }),
    decreases upto,
{
    let part = padded(name).subrange(0, upto);
    if upto == 0 {
    } else {
        lemma_without_zeros(name, upto - 1);
        assert(part.drop_last() =~= padded(name).subrange(0, upto - 1));
    }
}

/// Splitting a frame gives back the command and the payload that it was
/// made of.
pub proof fn lemma_frame_parses(command: Command, payload: Seq<u8>)
    ensures
        parsed(framed(encode_utf8(command_name(command)), payload)) == Some((command, payload)),
{
    let name = encode_utf8(command_name(command));
    let bytes = framed(name, payload);
    lemma_names(command);
    lemma_names(Command::Addr);
    lemma_names(Command::Block);
    lemma_names(Command::Inv);
    lemma_names(Command::GetBlocks);
    lemma_names(Command::GetData);
    lemma_names(Command::Tx);
    lemma_names(Command::Version);
    lemma_without_zeros(name, CMD_LEN as int);
    assert(bytes.subrange(0, CMD_LEN as int) =~= padded(name));
    assert(padded(name).subrange(0, CMD_LEN as int) =~= padded(name));
}

} // verus!
