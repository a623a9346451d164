use blockchain::error::Error;
use blockchain::wire::{bytes_to_cmd, cmd_to_bytes, frame, Command, CMD_LEN};

#[test]
fn command_name_is_padded_with_zero_bytes() {
    assert_eq!(CMD_LEN, 12);
    assert_eq!(cmd_to_bytes("tx"), [b't', b'x', 0, 0, 0, 0, 0, 0, 0, 0, 0, 0]);
    assert_eq!(cmd_to_bytes("version"), [b'v', b'e', b'r', b's', b'i', b'o', b'n', 0, 0, 0, 0, 0]);
    assert_eq!(cmd_to_bytes(""), [0u8; 12]);
    assert_eq!(cmd_to_bytes("abcdefghijkl"), *b"abcdefghijkl");
}

#[test]
fn command_names_are_the_protocol_names() {
    assert_eq!(Command::Addr.name(), "addr");
    assert_eq!(Command::Block.name(), "block");
    assert_eq!(Command::Inv.name(), "inv");
    assert_eq!(Command::GetBlocks.name(), "get_blocks");
    assert_eq!(Command::GetData.name(), "get_data");
    assert_eq!(Command::Tx.name(), "tx");
    assert_eq!(Command::Version.name(), "version");
}

#[test]
fn frame_is_the_name_and_the_payload() {
    let bytes = frame(Command::Inv, &[9, 8, 7]);
    assert_eq!(bytes, vec![b'i', b'n', b'v', 0, 0, 0, 0, 0, 0, 0, 0, 0, 9, 8, 7]);
    assert_eq!(frame(Command::GetBlocks, &[]), b"get_blocks\0\0".to_vec());
}

#[test]
fn frame_splits_into_what_it_was_made_of() {
    let commands = [
        Command::Addr,
        Command::Block,
        Command::Inv,
        Command::GetBlocks,
        Command::GetData,
        Command::Tx,
        Command::Version,
    ];
    for command in commands {
        let payload = vec![1u8, 0, 2, 0, 255];
        let bytes = frame(command, &payload);
        assert_eq!(bytes_to_cmd(&bytes), Ok((command, payload)));
        assert_eq!(bytes_to_cmd(&frame(command, &[])), Ok((command, Vec::new())));
    }
}

#[test]
fn zero_bytes_inside_a_name_are_left_out() {
    let bytes = [b't', 0, 0, 0, b'x', 0, 0, 0, 0, 0, 0, 0, 5];
    assert_eq!(bytes_to_cmd(&bytes), Ok((Command::Tx, vec![5])));
}

#[test]
fn unknown_command_is_malformed() {
    let mut bytes = cmd_to_bytes("hello").to_vec();
    bytes.extend([1, 2, 3]);
    assert_eq!(bytes_to_cmd(&bytes), Err(Error::Format));
    assert_eq!(bytes_to_cmd(&[0u8; 12]), Err(Error::Format));
    assert_eq!(bytes_to_cmd(b"get_blockss\0"), Err(Error::Format));
}

#[test]
fn short_frame_is_malformed() {
    assert_eq!(bytes_to_cmd(b"tx"), Err(Error::Format));
    assert_eq!(bytes_to_cmd(&[]), Err(Error::Format));
    assert_eq!(bytes_to_cmd(b"version\0\0\0\0"), Err(Error::Format));
}

#[test]
fn errors_have_their_texts() {
    assert_eq!(Error::InvalidTransaction.message(), "ERROR: Invalid transaction.");
    assert_eq!(Error::InsufficientFunds { balance: 3 }.message(), "ERROR: Not Enough balance.");
    assert_eq!(Error::NotFound.message(), "Not found.");
    assert_eq!(Error::InvalidBlock.message(), "ERROR: Invalid block.");
    assert_eq!(Error::Format.message(), "Malformed input.");
    assert_eq!(Error::Overflow.message(), "Amount out of range.");
    assert_eq!(Error::NonceExhausted.message(), "No nonce meets the target.");
    assert_eq!(Error::Clock.message(), "System clock is before the Unix epoch.");
    assert_eq!(Error::Random.message(), "No random bytes are to be had.");
}
