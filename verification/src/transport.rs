//! What a session needs of the link to a device: reading one packet, with or
//! without a time limit, and writing one. A USB or a TCP link implements it
//! outside this library; [`ScriptedTransport`] plays a device from a list of
//! packets.

use crate::error::{ErrorView, RustADBError};
use crate::message::{ADBTransportMessage, MessageView, views};
use vstd::prelude::*;

verus! {

/// What a link is, as far as contracts go: the packets that the device will
/// still deliver over it, in order; the packets written to it so far; the
/// time limits, in seconds, of the timed reads made so far; and whether the
/// link itself never fails.
///
/// For a link to a real device `pending` stands for what the device is going
/// to send. No code can compute it: an implementation outside this library
/// leaves its view open, and what is proved of a session then rests on the
/// link doing what the contracts below say.
#[verifier::ext_equal]
pub struct LinkView {
    pub pending: Seq<MessageView>,
    pub sent: Seq<MessageView>,
    pub waits: Seq<u64>,
    pub reliable: bool,
}

/// What a read does to a link: a packet that comes back was the first one
/// pending and is pending no more; a failure is a failure of the link, takes
/// no packet and, on a reliable link, is a `Timeout` with nothing pending. A
/// timed read notes its time limit.
pub open spec fn read_post(
    before: LinkView,
    after: LinkView,
    limit: Option<u64>,
    r: Result<ADBTransportMessage, RustADBError>,
) -> bool {
    &&& after.sent == before.sent
    &&& after.reliable == before.reliable
    &&& after.waits == match limit {
        Some(seconds) => before.waits.push(seconds),
        None => before.waits,
    }
    &&& match r {
        Ok(m) => {
            &&& before.pending.len() > 0
            &&& m@ == before.pending[0]
            &&& after.pending == before.pending.drop_first()
        },
        Err(e) => {
            &&& after.pending == before.pending
            &&& e@.link_failure()
            &&& before.reliable ==> before.pending.len() == 0 && e@ == ErrorView::Timeout
        },
    }
}

/// What a write does to a link: the packet joins `sent` if and only if the
/// write succeeds, and on a reliable link it does. A failure is a failure of
/// the link.
pub open spec fn write_post(
    before: LinkView,
    after: LinkView,
    message: MessageView,
    r: Result<(), RustADBError>,
) -> bool {
    &&& after.pending == before.pending
    &&& after.reliable == before.reliable
    &&& after.waits == before.waits
    &&& match r {
        Ok(_) => after.sent == before.sent.push(message),
        Err(e) => after.sent == before.sent && !before.reliable && e@.link_failure(),
    }
}

/// Whether `view` can be the view of `link`: of a link of which nothing is
/// known, any view can.
pub open spec fn any_view<T>(link: T, view: LinkView) -> bool {
    true
}

/// A link that carries whole packets.
///
/// A read takes the first of the pending packets; a write adds to the
/// packets sent. A link fails with `Timeout`, with `UsbError`, or with
/// `InvalidHeader` or `BadChecksum` where what it read is no packet, and with
/// no other error. On a reliable link reads succeed as long as a packet is
/// pending and end in `Timeout` when none is, and writes succeed.
pub trait ADBMessageTransport: Sized {
    /// The link as contracts see it. Of a link that does not say what its
    /// view is nothing is known: it has some view, see [`any_view`].
    open spec fn link(&self) -> LinkView {
        choose|view: LinkView| any_view(*self, view)
    }

    /// Reads one packet, waiting for it as long as it takes.
    fn read_message(&mut self) -> (r: Result<ADBTransportMessage, RustADBError>)
        ensures
            read_post(old(self).link(), final(self).link(), None, r),
    ;

    /// Reads one packet, giving up with `Timeout` after `timeout_secs` seconds.
    fn read_message_with_timeout(&mut self, timeout_secs: u64) -> (r: Result<
        ADBTransportMessage,
        RustADBError,
    >)
        ensures
            read_post(old(self).link(), final(self).link(), Some(timeout_secs), r),
    ;

    /// Writes one packet.
    fn write_message(&mut self, message: ADBTransportMessage) -> (r: Result<(), RustADBError>)
        ensures
            write_post(old(self).link(), final(self).link(), message@, r),
    ;
}

/// A link that plays a device from a script: reads hand out the packets of
/// the script one by one, writes are recorded.
#[derive(Debug)]
pub struct ScriptedTransport {
    script: Vec<ADBTransportMessage>,
    cursor: usize,
    written: Vec<ADBTransportMessage>,
    waits: Vec<u64>,
}

impl ScriptedTransport {
    /// The packets of the script from the cursor on.
    spec fn unread(&self) -> Seq<ADBTransportMessage> {
        if self.cursor <= self.script@.len() {
            self.script@.skip(self.cursor as int)
        } else {
            Seq::empty()
        }
    }

    /// A link over which the device will deliver `script`.
    pub fn new(script: Vec<ADBTransportMessage>) -> (transport: Self)
        ensures
            transport.link() == (LinkView {
                pending: views(script@),
                sent: Seq::<MessageView>::empty(),
                waits: Seq::<u64>::empty(),
                reliable: true,
            }),
    {
        assert(script@.skip(0) =~= script@);
        assert(views(Seq::<ADBTransportMessage>::empty()) =~= Seq::<MessageView>::empty());
        ScriptedTransport { script, cursor: 0, written: Vec::new(), waits: Vec::new() }
    }

    /// The packets written to the link so far.
    pub fn written(&self) -> (written: &Vec<ADBTransportMessage>)
        ensures
            views(written@) == self.link().sent,
    {
        &self.written
    }

    /// The time limits of the timed reads made so far, in seconds.
    pub fn waits(&self) -> (waits: &Vec<u64>)
        ensures
            waits@ == self.link().waits,
    {
        &self.waits
    }

    /// The number of packets of the script that were not read yet.
    pub fn remaining(&self) -> (count: usize)
        ensures
            count == self.link().pending.len(),
    {
        if self.cursor <= self.script.len() {
            self.script.len() - self.cursor
        } else {
            0
        }
    }

    fn next_message(&mut self) -> (r: Result<ADBTransportMessage, RustADBError>)
        ensures
            read_post(old(self).link(), final(self).link(), None, r),
    {
        if self.cursor < self.script.len() {
            let message = self.script[self.cursor].duplicate();
            assert(self.script@.skip(self.cursor as int).drop_first() =~= self.script@.skip(
                self.cursor + 1,
            ));
            assert(views(self.script@.skip(self.cursor as int)).drop_first() =~= views(
                self.script@.skip(self.cursor + 1),
            ));
            self.cursor = self.cursor + 1;
            Ok(message)
        } else {
            Err(RustADBError::Timeout)
        }
    }
}

impl ADBMessageTransport for ScriptedTransport {
    closed spec fn link(&self) -> LinkView {
        LinkView {
            pending: views(self.unread()),
            sent: views(self.written@),
            waits: self.waits@,
            reliable: true,
        }
    }

    fn read_message(&mut self) -> (r: Result<ADBTransportMessage, RustADBError>) {
        self.next_message()
    }

    fn read_message_with_timeout(&mut self, timeout_secs: u64) -> (r: Result<
        ADBTransportMessage,
        RustADBError,
    >) {
        self.waits.push(timeout_secs);
        self.next_message()
    }

    fn write_message(&mut self, message: ADBTransportMessage) -> (r: Result<(), RustADBError>) {
        assert(views(self.written@.push(message)) =~= views(self.written@).push(message@));
        self.written.push(message);
        Ok(())
    }
}

} // verus!
