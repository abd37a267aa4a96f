use net_helper::error::io_message;
use net_helper::Error;
use std::io;

#[test]
fn messages() {
    let cases = [
        (Error::WouldBlock, "Operation would block"),
        (Error::BindFail("x".to_string()), "Failed to bind to interface: x"),
        (Error::InvalidRingIndex(120), "Invalid ring index: 120"),
        (Error::PacketTooLarge(65536), "Packet too large for ring buffer: 65536 bytes"),
        (Error::PacketTooLarge(0), "Packet too large for ring buffer: 0 bytes"),
        (Error::InsufficientSpace, "Not enough space in ring buffer"),
        (Error::UnsupportedPlatform("y".to_string()), "Platform not yet supported: y"),
        (Error::FallbackUnsupported("z".to_string()), "Feature not supported in fallback mode: z"),
    ];
    for (error, text) in cases {
        assert_eq!(error.message(), text);
    }
    assert_eq!(
        Error::InvalidRingIndex(usize::MAX).message(),
        format!("Invalid ring index: {}", usize::MAX)
    );
}

#[test]
fn system_errors_are_carried_through() {
    let error = Error::from(io::Error::new(io::ErrorKind::NotFound, "gone"));
    assert!(matches!(error, Error::Io(_)));
    assert_eq!(error.message(), "I/O error: gone");
    assert_eq!(io_message("gone"), "I/O error: gone");
    let back = io::Error::from(error);
    assert_eq!(back.kind(), io::ErrorKind::NotFound);
    assert_eq!(back.to_string(), "gone");
}

#[test]
fn other_errors_become_system_errors() {
    let error = io::Error::from(Error::PacketTooLarge(9));
    assert_eq!(error.kind(), io::ErrorKind::Other);
    assert_eq!(error.to_string(), "Packet too large for ring buffer: 9 bytes");
}
