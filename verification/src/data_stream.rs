//! A connection, secured or not.

use vstd::prelude::*;

verus! {

/// A connection that is used for communications: `T` is a plain one, and `S` one
/// that was secured on top of a plain one.
#[derive(Debug)]
pub enum DataStream<T, S> {
    /// A plain connection.
    Tcp(T),
    /// A secured connection.
    Ssl(S),
}

impl<T, S> DataStream<T, S> {
    /// Unwraps the plain connection; a secured one is not unwrapped.
    pub fn into_tcp_stream(self) -> (r: Option<T>)
        ensures
            r == (match self {
                DataStream::Tcp(stream) => Some(stream),
                DataStream::Ssl(_) => None,
            }),
    {
        match self {
            DataStream::Tcp(stream) => Some(stream),
            DataStream::Ssl(_) => None,
        }
    }

    /// Tests if the connection is secured.
    pub fn is_ssl(&self) -> (r: bool)
        ensures
            r == (self is Ssl),
    {
        match self {
            DataStream::Ssl(_) => true,
            _ => false,
        }
    }

    /// Returns a reference to the underlying plain connection, which `inner` gives
    /// of a secured one.
    pub fn get_ref<F: Fn(&S) -> &T>(&self, inner: F) -> (r: &T)
        requires
            self matches DataStream::Ssl(stream) ==> inner.requires((&stream,)),
        ensures
            match *self {
                DataStream::Tcp(stream) => *r == stream,
                DataStream::Ssl(stream) => inner.ensures((&stream,), r),
            },
    {
        match self {
            DataStream::Tcp(stream) => stream,
            DataStream::Ssl(stream) => inner(stream),
        }
    }
}

} // verus!
