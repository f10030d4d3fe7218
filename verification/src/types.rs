//! The values that commands take and give.

use vstd::prelude::*;

use crate::text::{decimal, decimal_string};

verus! {

/// `std::io::Error`: why a connection failed. The client only carries it.
#[verifier::external_type_specification]
#[verifier::external_body]
pub struct ExIoError(std::io::Error);

/// How a text file marks its vertical format.
#[derive(Debug, Clone, Copy, PartialEq, Eq, Structural)]
pub enum FormatControl {
    /// As `NonPrint`.
    Default,
    /// No vertical format information.
    NonPrint,
    /// Telnet format controls.
    Telnet,
    /// ASA carriage control.
    Asa,
}

impl FormatControl {
    /// The letter of the format in a `TYPE` command.
    pub open spec fn letter(self) -> Seq<char> {
        match self {
            FormatControl::Default | FormatControl::NonPrint => "N"@,
            FormatControl::Telnet => "T"@,
            FormatControl::Asa => "C"@,
        }
    }

    /// The letter of the format in a `TYPE` command.
    pub fn to_string(&self) -> (r: String)
        ensures
            r@ == self.letter(),
    {
        match self {
            FormatControl::Default | FormatControl::NonPrint => "N".to_owned(),
            FormatControl::Telnet => "T".to_owned(),
            FormatControl::Asa => "C".to_owned(),
        }
    }
}

/// How the bytes of a transferred file are to be understood.
#[derive(Debug, Clone, Copy, PartialEq, Eq, Structural)]
pub enum FileType {
    /// ASCII text.
    Ascii(FormatControl),
    /// EBCDIC text.
    Ebcdic(FormatControl),
    /// Bytes as they are.
    Image,
    /// The same as `Image`.
    Binary,
    /// Bytes of the given number of bits.
    Local(u8),
}

impl FileType {
    /// The argument of the `TYPE` command that selects the type.
    pub open spec fn argument(self) -> Seq<char> {
        match self {
            FileType::Ascii(format) => "A "@ + format.letter(),
            FileType::Ebcdic(format) => "E "@ + format.letter(),
            FileType::Image | FileType::Binary => "I"@,
            FileType::Local(bits) => "L "@ + decimal(bits as nat),
        }
    }

    /// The argument of the `TYPE` command that selects the type.
    pub fn to_string(&self) -> (r: String)
        ensures
            r@ == self.argument(),
    {
        match self {
            FileType::Ascii(format) => "A ".to_owned().concat(format.to_string().as_str()),
            FileType::Ebcdic(format) => "E ".to_owned().concat(format.to_string().as_str()),
            FileType::Image | FileType::Binary => "I".to_owned(),
            FileType::Local(bits) => "L ".to_owned().concat(decimal_string(*bits as u32).as_str()),
        }
    }
}

/// A reply of the server: its code, and its last line.
#[derive(Debug)]
pub struct Line(pub u32, pub String);

/// What a `Line` holds.
pub struct LineView {
    pub code: u32,
    pub text: Seq<char>,
}

impl View for Line {
    type V = LineView;

    open spec fn view(&self) -> LineView {
        LineView { code: self.0, text: self.1@ }
    }
}

/// The address of a data connection: an IPv4 address and a port.
#[derive(Debug, Clone, Copy, PartialEq, Eq, Structural)]
pub struct SocketAddress {
    pub h1: u8,
    pub h2: u8,
    pub h3: u8,
    pub h4: u8,
    pub port: u16,
}

impl SocketAddress {
    /// The address as it is commonly written: `h1.h2.h3.h4:port`.
    pub open spec fn spelling(self) -> Seq<char> {
        decimal(self.h1 as nat) + "."@ + decimal(self.h2 as nat) + "."@ + decimal(self.h3 as nat)
            + "."@ + decimal(self.h4 as nat) + ":"@ + decimal(self.port as nat)
    }

    /// The address as it is commonly written: `h1.h2.h3.h4:port`.
    pub fn to_string(&self) -> (r: String)
        ensures
            r@ == self.spelling(),
    {
        let mut out: String = decimal_string(self.h1 as u32);
        out.append(".");
        out.append(decimal_string(self.h2 as u32).as_str());
        out.append(".");
        out.append(decimal_string(self.h3 as u32).as_str());
        out.append(".");
        out.append(decimal_string(self.h4 as u32).as_str());
        out.append(":");
        out.append(decimal_string(self.port as u32).as_str());
        out
    }
}

/// Why a command failed.
#[derive(Debug)]
pub enum FtpError {
    /// A connection could not be opened, read or written.
    ConnectionError(std::io::Error),
    /// A data connection could not be secured.
    SecureError(String),
    /// The server's reply was not one that the command expects.
    InvalidResponse(String),
}

/// What an `FtpError` holds.
pub enum ErrorView {
    Connection(std::io::Error),
    Secure(Seq<char>),
    InvalidResponse(Seq<char>),
}

impl View for FtpError {
    type V = ErrorView;

    open spec fn view(&self) -> ErrorView {
        match *self {
            FtpError::ConnectionError(e) => ErrorView::Connection(e),
            FtpError::SecureError(s) => ErrorView::Secure(s@),
            FtpError::InvalidResponse(s) => ErrorView::InvalidResponse(s@),
        }
    }
}

} // verus!
