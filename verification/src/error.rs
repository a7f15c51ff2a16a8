//! Error taxonomy of the protocol: framing and body errors raised while
//! reading frames, packet-construction errors, request errors on the client
//! side, and handling errors on the server side.  Every error carries a
//! message; its view is the message text.

use vstd::prelude::*;

verus! {

/// Marker for the protocol-level error types.
pub trait ProtocolError {
}

/// The client wrote a request but did not get a usable reply.
#[derive(Debug)]
pub struct RequestError {
    msg: String,
}

impl View for RequestError {
    type V = Seq<char>;

    closed spec fn view(&self) -> Seq<char> {
        self.msg@
    }
}

impl RequestError {
    pub fn new(msg: String) -> (r: Self)
        ensures
            r@ == msg@,
    {
        Self { msg }
    }

    /// The error's message text.
    pub fn message(&self) -> (r: &str)
        ensures
            r@ == self@,
    {
        self.msg.as_str()
    }
}

impl ProtocolError for RequestError {

}

/// A reply arrived but could not be used.
#[derive(Debug)]
pub struct ResponseError {
    msg: String,
}

impl View for ResponseError {
    type V = Seq<char>;

    closed spec fn view(&self) -> Seq<char> {
        self.msg@
    }
}

impl ResponseError {
    pub fn new(msg: String) -> (r: Self)
        ensures
            r@ == msg@,
    {
        Self { msg }
    }

    /// The error's message text.
    pub fn message(&self) -> (r: &str)
        ensures
            r@ == self@,
    {
        self.msg.as_str()
    }
}

impl ProtocolError for ResponseError {

}

/// A frame could not be decoded from the stream.
#[derive(Debug)]
pub struct PacketReaderError {
    msg: String,
}

impl View for PacketReaderError {
    type V = Seq<char>;

    closed spec fn view(&self) -> Seq<char> {
        self.msg@
    }
}

impl PacketReaderError {
    pub fn new(msg: String) -> (r: Self)
        ensures
            r@ == msg@,
    {
        Self { msg }
    }

    /// The error's message text.
    pub fn message(&self) -> (r: &str)
        ensures
            r@ == self@,
    {
        self.msg.as_str()
    }
}

impl ProtocolError for PacketReaderError {

}

/// A packet was put together or taken apart the wrong way.
#[derive(Debug)]
pub struct PacketError {
    msg: String,
}

impl View for PacketError {
    type V = Seq<char>;

    closed spec fn view(&self) -> Seq<char> {
        self.msg@
    }
}

impl PacketError {
    pub fn new(msg: &str) -> (r: Self)
        ensures
            r@ == msg@,
    {
        Self { msg: msg.to_owned() }
    }

    /// The error's message text.
    pub fn message(&self) -> (r: &str)
        ensures
            r@ == self@,
    {
        self.msg.as_str()
    }
}

impl ProtocolError for PacketError {

}

/// Marker for the errors a server-side handler can raise.
pub trait HandlersModError {
}

/// The connect handler failed.
#[derive(Debug, Clone)]
pub struct ConnectError {
    msg: String,
}

impl View for ConnectError {
    type V = Seq<char>;

    closed spec fn view(&self) -> Seq<char> {
        self.msg@
    }
}

impl ConnectError {
    pub fn new(msg: &str) -> (r: Self)
        ensures
            r@ == msg@,
    {
        Self { msg: msg.to_owned() }
    }

    /// The error's message text.
    pub fn message(&self) -> (r: &str)
        ensures
            r@ == self@,
    {
        self.msg.as_str()
    }
}

impl HandlersModError for ConnectError {

}

/// A connection's dispatch loop failed.
#[derive(Debug, Clone)]
pub struct HandlingError {
    msg: String,
}

impl View for HandlingError {
    type V = Seq<char>;

    closed spec fn view(&self) -> Seq<char> {
        self.msg@
    }
}

impl HandlingError {
    pub fn new(msg: &str) -> (r: Self)
        ensures
            r@ == msg@,
    {
        Self { msg: msg.to_owned() }
    }

    /// The error's message text.
    pub fn message(&self) -> (r: &str)
        ensures
            r@ == self@,
    {
        self.msg.as_str()
    }
}

/// The client could not connect to a game.
#[derive(Debug, Clone)]
pub struct ConnectionError {
    msg: String,
}

impl View for ConnectionError {
    type V = Seq<char>;

    closed spec fn view(&self) -> Seq<char> {
        self.msg@
    }
}

impl ConnectionError {
    pub fn new(msg: String) -> (r: Self)
        ensures
            r@ == msg@,
    {
        Self { msg }
    }

    /// The error's message text.
    pub fn message(&self) -> (r: &str)
        ensures
            r@ == self@,
    {
        self.msg.as_str()
    }
}

/// Placing ships on the board failed.
#[derive(Debug, Clone)]
pub struct PlacingShipsError {
    msg: String,
}

impl View for PlacingShipsError {
    type V = Seq<char>;

    closed spec fn view(&self) -> Seq<char> {
        self.msg@
    }
}

impl PlacingShipsError {
    pub fn new(msg: String) -> (r: Self)
        ensures
            r@ == msg@,
    {
        Self { msg }
    }

    /// The error's message text.
    pub fn message(&self) -> (r: &str)
        ensures
            r@ == self@,
    {
        self.msg.as_str()
    }
}

/// A ship-placement input could not be understood.
#[derive(Debug, Clone)]
pub struct UserInputError {
    msg: String,
}

impl View for UserInputError {
    type V = Seq<char>;

    closed spec fn view(&self) -> Seq<char> {
        self.msg@
    }
}

impl UserInputError {
    pub fn new(msg: String) -> (r: Self)
        ensures
            r@ == msg@,
    {
        Self { msg }
    }

    /// The error's message text.
    pub fn message(&self) -> (r: &str)
        ensures
            r@ == self@,
    {
        self.msg.as_str()
    }
}

} // verus!
