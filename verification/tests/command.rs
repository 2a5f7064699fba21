use virtio_balloon::command::{is_space_byte, parse_command, Command, CommandError};
use virtio_balloon::device::{Balloon, BalloonArgs};
use vm_memory::{GuestAddress, GuestMemoryMmap};

#[test]
fn balloon_with_a_size_is_parsed() {
    assert_eq!(parse_command(b"balloon 4096"), Ok(Command::Balloon(4096)));
    assert_eq!(parse_command(b"balloon 0"), Ok(Command::Balloon(0)));
    assert_eq!(parse_command(b"  balloon\t007\n"), Ok(Command::Balloon(7)));
    assert_eq!(parse_command(b"balloon +12"), Ok(Command::Balloon(12)));
    assert_eq!(parse_command(b"balloon 5 and more"), Ok(Command::Balloon(5)));
    assert_eq!(
        parse_command(b"balloon 18446744073709551615"),
        Ok(Command::Balloon(u64::MAX))
    );
}

#[test]
fn shutdown_needs_no_number() {
    assert_eq!(parse_command(b"shutdown"), Ok(Command::Shutdown));
    assert_eq!(parse_command(b"shutdown\n"), Ok(Command::Shutdown));
    assert_eq!(parse_command(b" shutdown 0"), Ok(Command::Shutdown));
}

#[test]
fn malformed_lines_are_refused() {
    assert_eq!(parse_command(b""), Err(CommandError::Empty));
    assert_eq!(parse_command(b" \t\r\n"), Err(CommandError::Empty));
    assert_eq!(parse_command(b"balloon"), Err(CommandError::MissingNumber));
    assert_eq!(parse_command(b"balloon   "), Err(CommandError::MissingNumber));
    assert_eq!(parse_command(b"balloon x"), Err(CommandError::InvalidNumber));
    assert_eq!(parse_command(b"balloon -1"), Err(CommandError::InvalidNumber));
    assert_eq!(parse_command(b"balloon +"), Err(CommandError::InvalidNumber));
    assert_eq!(parse_command(b"balloon 12k"), Err(CommandError::InvalidNumber));
    assert_eq!(parse_command(b"balloon 1.5"), Err(CommandError::InvalidNumber));
    assert_eq!(
        parse_command(b"balloon 18446744073709551616"),
        Err(CommandError::InvalidNumber)
    );
    assert_eq!(
        parse_command(b"balloon 99999999999999999999999"),
        Err(CommandError::InvalidNumber)
    );
    assert_eq!(parse_command(b"inflate 4"), Err(CommandError::UnknownCommand));
    assert_eq!(parse_command(b"balloons 4"), Err(CommandError::UnknownCommand));
    assert_eq!(parse_command(b"Balloon 4"), Err(CommandError::UnknownCommand));
    assert_eq!(parse_command(b"shut"), Err(CommandError::UnknownCommand));
    assert_eq!(parse_command(b"4096"), Err(CommandError::UnknownCommand));
}

#[test]
fn separators_are_the_ascii_blanks() {
    for byte in [b' ', b'\t', b'\n', 0x0b, 0x0c, b'\r'] {
        assert!(is_space_byte(byte));
    }
    for byte in [0u8, 0x08, 0x0e, 0x1f, b'a', b'0', 0x7f, 0xa0, 0xff] {
        assert!(!is_space_byte(byte));
    }
}

#[test]
fn balloon_command_then_shutdown_are_both_seen_in_order() {
    let guest_memory = GuestMemoryMmap::<()>::from_ranges(&[(GuestAddress(0), 0x10_0000)]).unwrap();
    let mut balloon = Balloon::new(&BalloonArgs { guest_memory }).unwrap();
    let mut shut_down = false;

    for line in [&b"balloon 4096"[..], &b"shutdown"[..]] {
        assert!(!shut_down);
        match parse_command(line).unwrap() {
            Command::Balloon(size) => balloon.change_config(size),
            Command::Shutdown => shut_down = true,
        }
    }

    assert!(shut_down);
    assert_eq!(balloon.target_size(), 4096);
}
