use vstd::prelude::*;
use vstd::std_specs::convert::{FromSpec, FromSpecImpl};

use crate::text::{join, join_number};

verus! {

/// `std::io::Error`: an error of the operating system, carried through unread.
#[verifier::external_type_specification]
#[verifier::external_body]
pub struct ExIoError(std::io::Error);

/// The error that `std::io::Error::new` makes of kind `Other` and a text.
pub uninterp spec fn other_io_error(text: Seq<char>) -> std::io::Error;

/// Calls `std::io::Error::new` with `std::io::ErrorKind::Other` and `text`. The result is named
/// after the text: nothing else goes into it.
#[verifier::external_body]
fn new_other_io_error(text: String) -> (e: std::io::Error)
    ensures
        e == other_io_error(text@),
{
    std::io::Error::new(std::io::ErrorKind::Other, text)
}

/// Calls `to_string` of `std::io::Error`. What an error of the operating system is called
/// depends on the machine, so nothing is claimed of the text.
#[verifier::external_body]
fn io_error_text(e: &std::io::Error) -> (text: String) {
    e.to_string()
}

/// What can go wrong with an interface and its rings.
#[derive(Debug)]
pub enum Error {
    /// The system reported an error.
    Io(std::io::Error),
    /// The operation cannot be done without waiting.
    WouldBlock,
    /// The interface could not be opened.
    BindFail(String),
    /// There is no ring, or no packet of a batch, of this number.
    InvalidRingIndex(usize),
    /// The packet does not fit a buffer of the ring.
    PacketTooLarge(usize),
    /// The ring has too few free slots.
    InsufficientSpace,
    /// The platform is not supported.
    UnsupportedPlatform(String),
    /// The fallback rings do not have the feature.
    FallbackUnsupported(String),
}

/// The message of an error of the system that calls itself `what`.
pub fn io_message(what: &str) -> (text: String)
    ensures
        text@ == "I/O error: "@ + what@,
{
    proof {
        reveal_strlit("");
    }
    let text: String = join("I/O error: ", what, "");
    assert(text@ =~= "I/O error: "@ + what@);
    text
}

impl Error {
    /// The message of the error; of `Io` the part before the text of the system.
    pub open spec fn text(self) -> Seq<char> {
        match self {
            Error::Io(_) => "I/O error: "@,
            Error::WouldBlock => "Operation would block"@,
            Error::BindFail(why) => "Failed to bind to interface: "@ + why@,
            Error::InvalidRingIndex(index) => "Invalid ring index: "@ + crate::text::decimal(
                index as nat,
            ),
            Error::PacketTooLarge(size) => "Packet too large for ring buffer: "@
                + crate::text::decimal(size as nat) + " bytes"@,
            Error::InsufficientSpace => "Not enough space in ring buffer"@,
            Error::UnsupportedPlatform(what) => "Platform not yet supported: "@ + what@,
            Error::FallbackUnsupported(what) => "Feature not supported in fallback mode: "@ + what@,
        }
    }

    /// The error as a message to a person. That of `Io` is [`io_message`] of the text of the
    /// system.
    pub fn message(&self) -> (text: String)
        ensures
            self is Io ==> self.text().is_prefix_of(text@),
            !(self is Io) ==> text@ == self.text(),
    {
        proof {
            reveal_strlit("");
        }
        match self {
            Error::Io(e) => io_message(io_error_text(e).as_str()),
            Error::WouldBlock => join("Operation would block", "", ""),
            Error::BindFail(why) => join("Failed to bind to interface: ", why.as_str(), ""),
            Error::InvalidRingIndex(index) => join_number("Invalid ring index: ", *index, ""),
            Error::PacketTooLarge(size) => join_number(
                "Packet too large for ring buffer: ",
                *size,
                " bytes",
            ),
            Error::InsufficientSpace => join("Not enough space in ring buffer", "", ""),
            Error::UnsupportedPlatform(what) => join(
                "Platform not yet supported: ",
                what.as_str(),
                "",
            ),
            Error::FallbackUnsupported(what) => join(
                "Feature not supported in fallback mode: ",
                what.as_str(),
                "",
            ),
        }
    }
}

impl From<std::io::Error> for Error {
    fn from(err: std::io::Error) -> (e: Error) {
        Error::Io(err)
    }
}

impl FromSpecImpl<std::io::Error> for Error {
    open spec fn obeys_from_spec() -> bool {
        true
    }

    open spec fn from_spec(err: std::io::Error) -> Error {
        Error::Io(err)
    }
}

impl From<Error> for std::io::Error {
    fn from(err: Error) -> (e: std::io::Error) {
        match err {
            Error::Io(e) => e,
            e => new_other_io_error(e.message()),
        }
    }
}

impl FromSpecImpl<Error> for std::io::Error {
    open spec fn obeys_from_spec() -> bool {
        true
    }

    open spec fn from_spec(err: Error) -> std::io::Error {
        match err {
            Error::Io(e) => e,
            e => other_io_error(e.text()),
        }
    }
}

/// The message of each error.
pub proof fn law_messages(e: std::io::Error, text: String, n: usize)
    ensures
        Error::Io(e).text() == "I/O error: "@,
        Error::WouldBlock.text() == "Operation would block"@,
        Error::BindFail(text).text() == "Failed to bind to interface: "@ + text@,
        Error::InvalidRingIndex(n).text() == "Invalid ring index: "@ + crate::text::decimal(
            n as nat,
        ),
        Error::PacketTooLarge(n).text() == "Packet too large for ring buffer: "@
            + crate::text::decimal(n as nat) + " bytes"@,
        Error::InsufficientSpace.text() == "Not enough space in ring buffer"@,
        Error::UnsupportedPlatform(text).text() == "Platform not yet supported: "@ + text@,
        Error::FallbackUnsupported(text).text() == "Feature not supported in fallback mode: "@
            + text@,
{
}

/// An error of the system survives the way into the library and back, and any other error becomes
/// one of the system with its message.
pub proof fn law_conversions(e: std::io::Error, other: Error)
    ensures
        <Error as FromSpec<std::io::Error>>::from_spec(e) == Error::Io(e),
        <std::io::Error as FromSpec<Error>>::from_spec(Error::Io(e)) == e,
        !(other is Io) ==> <std::io::Error as FromSpec<Error>>::from_spec(other) == other_io_error(
            other.text(),
        ),
{
}

} // verus!
