//! Carrier names and limits. The carriers themselves move bytes and live
//! outside this library.

use vstd::prelude::*;
use crate::datagram::str_equal;

verus! {

/// A stream carrier that delivers frames reliably and in order.
#[derive(Debug, Clone, Copy, PartialEq, Eq, Default, Structural)]
pub enum ReliableCarrierKind {
    #[default]
    WebSocket,
    Tcp,
    QuicStream,
}

impl ReliableCarrierKind {
    /// The carrier a configuration name stands for; each carrier has one or
    /// two accepted spellings.
    pub open spec fn from_name(value: Seq<char>) -> Option<ReliableCarrierKind> {
        if value == "websocket"@ || value == "ws"@ {
            Some(ReliableCarrierKind::WebSocket)
        } else if value == "tcp"@ {
            Some(ReliableCarrierKind::Tcp)
        } else if value == "quic_stream"@ || value == "quic"@ {
            Some(ReliableCarrierKind::QuicStream)
        } else {
            None
        }
    }

    pub fn parse(value: &str) -> (r: Option<ReliableCarrierKind>)
        ensures
            r == ReliableCarrierKind::from_name(value@),
    {
        if str_equal(value, "websocket") || str_equal(value, "ws") {
            Some(ReliableCarrierKind::WebSocket)
        } else if str_equal(value, "tcp") {
            Some(ReliableCarrierKind::Tcp)
        } else if str_equal(value, "quic_stream") || str_equal(value, "quic") {
            Some(ReliableCarrierKind::QuicStream)
        } else {
            None
        }
    }

    pub fn slug(self) -> (s: &'static str)
        ensures
            s@ == (match self {
                ReliableCarrierKind::WebSocket => "websocket"@,
                ReliableCarrierKind::Tcp => "tcp"@,
                ReliableCarrierKind::QuicStream => "quic_stream"@,
            }),
    {
        match self {
            ReliableCarrierKind::WebSocket => "websocket",
            ReliableCarrierKind::Tcp => "tcp",
            ReliableCarrierKind::QuicStream => "quic_stream",
        }
    }
}

/// What a datagram carrier can send in one datagram.
#[derive(Debug, Clone, Copy, PartialEq, Eq, Default, Structural)]
pub struct DatagramCarrierLimits {
    pub max_datagram_size: usize,
}

} // verus!
