//! The host side of one announced port: binding a local socket under the
//! label port, walking to the next candidate port on a bind collision, and
//! framing inbound request bodies under the label. The label on emitted
//! frames never changes, however far the bound host port has walked.

use vstd::prelude::*;
use vstd::utf8::{encode_utf8, valid_utf8};

use crate::codec::{create_message, spec_create_message, Function, Message, Protocol};
use crate::mux::Connection;

verus! {

/// The bind-retry state of a listener being set up: the label port it was
/// created for and the candidate host port the next bind attempt will try.
pub struct PortBinder {
    pub label_port: u16,
    pub candidate: u16,
    pub attempts: Ghost<nat>,
}

impl PortBinder {
    /// The candidate lies exactly as many ports above the label as bind
    /// attempts have failed.
    pub open spec fn wf(self) -> bool {
        self.candidate == self.label_port + self.attempts@
    }

    /// A binder that will try the label port itself first.
    pub fn new(label_port: u16) -> (r: PortBinder)
        ensures
            r.label_port == label_port,
            r.candidate == label_port,
            r.attempts@ == 0,
            r.wf(),
    {
        PortBinder { label_port, candidate: label_port, attempts: Ghost(0) }
    }

    /// Step past a candidate whose bind failed: the next attempt tries the
    /// successor port. Returns false, changing nothing, when no port is
    /// left to try.
    pub fn on_bind_failure(&mut self) -> (r: bool)
        requires
            old(self).wf(),
        ensures
            final(self).wf(),
            final(self).label_port == old(self).label_port,
            r == (old(self).candidate < u16::MAX),
            r ==> final(self).candidate == old(self).candidate + 1 && final(self).attempts@ == old(
                self,
            ).attempts@ + 1,
            !r ==> *final(self) == *old(self),
    {
        if self.candidate < u16::MAX {
            self.candidate = self.candidate + 1;
            proof {
                self.attempts@ = self.attempts@ + 1;
            }
            true
        } else {
            false
        }
    }

    /// The connection record of a listener whose bind succeeded on the
    /// current candidate: frames keep the label port, the host port is
    /// what was actually bound, and the inbox starts empty.
    pub fn into_connection(self, protocol: Protocol, app: String) -> (c: Connection)
        ensures
            c.port == self.label_port,
            c.host_port == self.candidate,
            c.protocol == protocol,
            c@.app == app@,
            c@.inbox == Seq::<crate::codec::MessageView>::empty(),
    {
        let c = Connection {
            port: self.label_port,
            host_port: self.candidate,
            protocol,
            app,
            inbox: Vec::new(),
        };
        assert(c@.inbox =~= Seq::<crate::codec::MessageView>::empty());
        c
    }
}

impl Connection {
    /// One inbound request framed for the transport: a TCP data frame
    /// under this connection's label port, whatever host port the listener
    /// actually bound.
    pub fn make_request(&self, body: Vec<u8>) -> (m: Message)
        requires
            body@.len() <= u32::MAX,
        ensures
            m@ == spec_create_message(self.port, Function::Tcp, body@),
            m.header.port == self.port,
    {
        create_message(self.port, Function::Tcp, body)
    }
}

/// Bind contention: once at least one bind attempt has failed, the bound
/// host port lies strictly above the label port, at exactly label plus the
/// number of failures; yet a request frame built for the connection still
/// carries the label port.
pub proof fn lemma_bind_contention(b: PortBinder, body: Seq<u8>)
    requires
        b.wf(),
        b.attempts@ > 0,
        body.len() <= u32::MAX,
    ensures
        b.candidate > b.label_port,
        b.candidate == b.label_port + b.attempts@,
        spec_create_message(b.label_port, Function::Tcp, body).header.port == b.label_port,
{
}

/// Relies on std's str::from_utf8: it succeeds exactly on valid UTF-8 and
/// returns the text whose encoding is the given bytes.
#[verifier::external_body]
fn utf8_to_string(bytes: &Vec<u8>) -> (r: Option<String>)
    ensures
        r is Some <==> valid_utf8(bytes@),
        match r {
            Some(s) => encode_utf8(s@) == bytes@,
            None => true,
        },
{
    match std::str::from_utf8(bytes.as_slice()) {
        Ok(s) => Some(s.to_owned()),
        Err(_) => None,
    }
}

/// The service label carried in a create request's body: the body text
/// when it is valid UTF-8, and a fallback label otherwise.
pub fn app_label(body: &Vec<u8>) -> (r: String)
    ensures
        valid_utf8(body@) ==> encode_utf8(r@) == body@,
        !valid_utf8(body@) ==> r@ == "Unkown"@,
{
    match utf8_to_string(body) {
        Some(s) => s,
        None => String::from_str("Unkown"),
    }
}

} // verus!
