//! The engine: one connection's session, the inbound reassembly buffer and
//! the link endpoint, behind the operations a driver calls.

use vstd::prelude::*;

use crate::command::{Command, CommandView};
use crate::dispatch::{dispatch, dispatch_frames};
use crate::error::EngineError;
use crate::register::Register;
use crate::response::ResponseView;
use crate::session::{
    apply_response, initial_session, prepare_command, session_inv, Session, SessionView, LAST_REQUEST_ID,
};
use crate::transport::{Endpoint, EndpointView};

verus! {

/// Client engine for the monitor at `host`:`port`.
pub struct FakeViceBin {
    host: String,
    port: u16,
    link: Option<Endpoint>,
    session: Session,
    inbox: Vec<u8>,
}

/// The engine as plain values. `sent` is every byte handed to the link for
/// sending since it was attached.
pub struct EngineView {
    pub connected: bool,
    pub session: SessionView,
    pub inbox: Seq<u8>,
    pub sent: Seq<u8>,
}

/// An engine that has never been connected.
pub open spec fn initial_engine() -> EngineView {
    EngineView {
        connected: false,
        session: initial_session(),
        inbox: Seq::empty(),
        sent: Seq::empty(),
    }
}

/// Connecting through a link: refused while one is attached; otherwise a
/// fresh session starts.
pub open spec fn connect_outcome(e: EngineView, link: EndpointView) -> (EngineView, Result<
    (),
    EngineError,
>) {
    if e.connected {
        (e, Err(EngineError::AlreadyConnected))
    } else {
        (
            EngineView {
                connected: true,
                session: initial_session(),
                inbox: Seq::empty(),
                sent: link.sent(),
            },
            Ok(()),
        )
    }
}

/// Sending a command: refused without a link; otherwise the session hands it
/// a request id and its frame joins the bytes sent.
pub open spec fn send_outcome(e: EngineView, c: CommandView) -> (EngineView, Result<
    (),
    EngineError,
>) {
    if !e.connected {
        (e, Err(EngineError::NotConnected))
    } else {
        let (s, r) = prepare_command(e.session, c);
        match r {
            Ok(frame) => (EngineView { session: s, sent: e.sent + frame, ..e }, Ok(())),
            Err(err) => (e, Err(err)),
        }
    }
}

/// Taking in received bytes: they join the inbox and every whole frame is
/// dispatched. Gives the fatal error, if any, and the unhandled responses.
pub open spec fn receive_outcome(e: EngineView, bytes: Seq<u8>) -> (
    EngineView,
    Option<EngineError>,
    Seq<EngineError>,
) {
    let d = dispatch(e.session, e.inbox + bytes);
    (EngineView { session: d.session, inbox: d.rest, ..e }, d.error, d.notices)
}

/// A reset counts as pending as soon as it is sent, one more than before; the
/// acknowledgement takes exactly one away again; and an acknowledgement that
/// arrives when nothing is pending, out of order or twice, leaves the count
/// at zero rather than below it.
pub proof fn lemma_reset_accounting(e: EngineView, s: SessionView)
    requires
        e.connected,
        session_inv(e.session),
        e.session.next_request_id <= LAST_REQUEST_ID,
    ensures
        send_outcome(e, CommandView::Reset).1 is Ok,
        send_outcome(e, CommandView::Reset).0.session.resets_pending == e.session.resets_pending
            + 1,
        apply_response(send_outcome(e, CommandView::Reset).0.session, ResponseView::Reset).resets_pending
            == e.session.resets_pending,
        s.resets_pending > 0 ==> apply_response(s, ResponseView::Reset).resets_pending
            == s.resets_pending - 1,
        s.resets_pending == 0 ==> apply_response(s, ResponseView::Reset).resets_pending == 0,
{
}

/// Without a link every send fails with `NotConnected` and changes nothing,
/// so a send on a new engine fails; connecting a second time with no
/// disconnect in between fails with `AlreadyConnected`.
pub proof fn lemma_connection_required(
    e: EngineView,
    c: CommandView,
    first: EndpointView,
    second: EndpointView,
)
    ensures
        !e.connected ==> send_outcome(e, c) == (e, Err::<(), EngineError>(EngineError::NotConnected)),
        send_outcome(initial_engine(), c).1 == Err::<(), EngineError>(EngineError::NotConnected),
        connect_outcome(connect_outcome(e, first).0, second).1 == Err::<(), EngineError>(
            EngineError::AlreadyConnected,
        ),
{
}

impl View for FakeViceBin {
    type V = EngineView;

    closed spec fn view(&self) -> EngineView {
        EngineView {
            connected: self.link is Some,
            session: self.session@,
            inbox: self.inbox@,
            sent: match self.link {
                Some(l) => l@.sent(),
                None => Seq::empty(),
            },
        }
    }
}

impl FakeViceBin {
    pub closed spec fn host_spec(&self) -> Seq<char> {
        self.host@
    }

    pub closed spec fn port_spec(&self) -> u16 {
        self.port
    }

    /// An engine for the monitor at `host`:`port`, not yet connected.
    pub fn new(host: &str, port: u16) -> (r: FakeViceBin)
        ensures
            r@ == initial_engine(),
            r.host_spec() == host@,
            r.port_spec() == port,
    {
        let r = FakeViceBin {
            host: host.to_owned(),
            port,
            link: None,
            session: Session::new(),
            inbox: Vec::new(),
        };
        assert(r@.inbox =~= Seq::<u8>::empty());
        r
    }

    pub fn host(&self) -> (r: &str)
        ensures
            r@ == self.host_spec(),
    {
        self.host.as_str()
    }

    pub fn port(&self) -> (r: u16)
        ensures
            r == self.port_spec(),
    {
        self.port
    }

    pub fn is_connected(&self) -> (r: bool)
        ensures
            r == self@.connected,
    {
        self.link.is_some()
    }

    /// Takes `link`, whose other end talks to the monitor, as this engine's
    /// connection, and starts a fresh session. Fails with `AlreadyConnected`
    /// while a link is attached.
    pub fn connect(&mut self, link: Endpoint) -> (r: Result<(), EngineError>)
        ensures
            final(self)@ == connect_outcome(old(self)@, link@).0,
            r == connect_outcome(old(self)@, link@).1,
            final(self).host_spec() == old(self).host_spec(),
            final(self).port_spec() == old(self).port_spec(),
    {
        if self.link.is_some() {
            return Err(EngineError::AlreadyConnected);
        }
        self.link = Some(link);
        self.session = Session::new();
        self.inbox = Vec::new();
        assert(self@.inbox =~= Seq::<u8>::empty());
        Ok(())
    }

    /// Drops the link and the session that belonged to it.
    pub fn disconnect(&mut self) -> (r: Result<(), EngineError>)
        ensures
            final(self)@ == initial_engine(),
            r is Ok,
            final(self).host_spec() == old(self).host_spec(),
            final(self).port_spec() == old(self).port_spec(),
    {
        self.link = None;
        self.session = Session::new();
        self.inbox = Vec::new();
        assert(self@.inbox =~= Seq::<u8>::empty());
        Ok(())
    }

    /// True while a reset has been sent and not yet acknowledged.
    pub fn is_reset_pending(&self) -> (r: bool)
        ensures
            r == (self@.session.resets_pending > 0),
    {
        self.session.is_reset_pending()
    }

    /// True from a load being sent until its completion arrives.
    pub fn is_load_pending(&self) -> (r: bool)
        ensures
            r == self@.session.load_pending,
    {
        self.session.is_load_pending()
    }

    pub fn is_running(&self) -> (r: bool)
        ensures
            r == self@.session.running,
    {
        self.session.is_running()
    }

    pub fn program_counter(&self) -> (r: u16)
        ensures
            r == self@.session.pc,
    {
        self.session.program_counter()
    }

    /// The register with id `id`, once a response has mentioned it.
    pub fn register(&self, id: u8) -> (r: Option<&Register>)
        ensures
            match r {
                Some(reg) => self@.session.registers.contains_key(id) && reg@
                    == self@.session.registers[id],
                None => !self@.session.registers.contains_key(id),
            },
    {
        self.session.register(id)
    }

    /// The session state.
    pub fn session(&self) -> (r: &Session)
        ensures
            r@ == self@.session,
    {
        &self.session
    }

    /// Encodes `cmd` under the next request id and hands its frame to the
    /// link. Fails with `NotConnected` without a link.
    pub fn send_command(&mut self, cmd: &Command) -> (r: Result<(), EngineError>)
        ensures
            final(self)@ == send_outcome(old(self)@, cmd@).0,
            r == send_outcome(old(self)@, cmd@).1,
            final(self).host_spec() == old(self).host_spec(),
            final(self).port_spec() == old(self).port_spec(),
    {
        match &mut self.link {
            None => Err(EngineError::NotConnected),
            Some(link) => {
                match self.session.prepare(cmd) {
                    Ok(frame) => {
                        link.send(frame.as_slice());
                        Ok(())
                    },
                    Err(e) => Err(e),
                }
            },
        }
    }

    pub fn send_reset(&mut self) -> (r: Result<(), EngineError>)
        ensures
            final(self)@ == send_outcome(old(self)@, CommandView::Reset).0,
            r == send_outcome(old(self)@, CommandView::Reset).1,
            final(self).host_spec() == old(self).host_spec(),
            final(self).port_spec() == old(self).port_spec(),
    {
        self.send_command(&Command::Reset)
    }

    pub fn send_exit(&mut self) -> (r: Result<(), EngineError>)
        ensures
            final(self)@ == send_outcome(old(self)@, CommandView::Exit).0,
            r == send_outcome(old(self)@, CommandView::Exit).1,
            final(self).host_spec() == old(self).host_spec(),
            final(self).port_spec() == old(self).port_spec(),
    {
        self.send_command(&Command::Exit)
    }

    pub fn send_ping(&mut self) -> (r: Result<(), EngineError>)
        ensures
            final(self)@ == send_outcome(old(self)@, CommandView::Ping).0,
            r == send_outcome(old(self)@, CommandView::Ping).1,
            final(self).host_spec() == old(self).host_spec(),
            final(self).port_spec() == old(self).port_spec(),
    {
        self.send_command(&Command::Ping)
    }

    /// Asks the monitor to load `filename`, and to run it if `autostart`.
    /// Fails with `Encoding` when the name is longer than 255 bytes.
    pub fn send_load(&mut self, filename: &str, autostart: bool) -> (r: Result<(), EngineError>)
        ensures
            final(self)@ == send_outcome(
                old(self)@,
                CommandView::Load { filename: filename@, autostart },
            ).0,
            r == send_outcome(old(self)@, CommandView::Load { filename: filename@, autostart }).1,
            final(self).host_spec() == old(self).host_spec(),
            final(self).port_spec() == old(self).port_spec(),
    {
        self.send_command(&Command::Load { filename: filename.to_owned(), autostart })
    }

    pub fn send_registers_available(&mut self, memspace: u8) -> (r: Result<(), EngineError>)
        ensures
            final(self)@ == send_outcome(
                old(self)@,
                CommandView::RegistersAvailable { memspace },
            ).0,
            r == send_outcome(old(self)@, CommandView::RegistersAvailable { memspace }).1,
            final(self).host_spec() == old(self).host_spec(),
            final(self).port_spec() == old(self).port_spec(),
    {
        self.send_command(&Command::RegistersAvailable { memspace })
    }

    pub fn send_advance_instructions(&mut self, count: u16) -> (r: Result<(), EngineError>)
        ensures
            final(self)@ == send_outcome(old(self)@, CommandView::AdvanceInstructions { count }).0,
            r == send_outcome(old(self)@, CommandView::AdvanceInstructions { count }).1,
            final(self).host_spec() == old(self).host_spec(),
            final(self).port_spec() == old(self).port_spec(),
    {
        self.send_command(&Command::AdvanceInstructions { count })
    }

    /// Takes in bytes received from the monitor: they join the inbox, and
    /// every whole frame is decoded and applied to the session. Returns the
    /// unhandled responses met, or the fatal error that stopped it.
    pub fn process_bytes(&mut self, bytes: &[u8]) -> (r: Result<Vec<EngineError>, EngineError>)
        ensures
            final(self)@ == receive_outcome(old(self)@, bytes@).0,
            match r {
                Ok(notices) => receive_outcome(old(self)@, bytes@).1 is None && notices@
                    == receive_outcome(old(self)@, bytes@).2,
                Err(e) => receive_outcome(old(self)@, bytes@).1 == Some(e),
            },
            final(self).host_spec() == old(self).host_spec(),
            final(self).port_spec() == old(self).port_spec(),
    {
        self.inbox.extend_from_slice(bytes);
        assert(self.inbox@ =~= old(self)@.inbox + bytes@);
        let r = dispatch_frames(&mut self.session, &mut self.inbox);
        r
    }

    /// Moves waiting outbound bytes into the link, then takes in every byte
    /// the link has received. Never waits. Fails with `NotConnected` without
    /// a link; otherwise the outcome is that of `process_bytes` on the bytes
    /// that had arrived.
    pub fn update(&mut self) -> (r: Result<Vec<EngineError>, EngineError>)
        ensures
            !old(self)@.connected ==> final(self)@ == old(self)@ && r == Err::<
                Vec<EngineError>,
                EngineError,
            >(EngineError::NotConnected),
            old(self)@.connected ==> exists|bytes: Seq<u8>|
                {
                    &&& final(self)@ == receive_outcome(old(self)@, bytes).0
                    &&& match r {
                        Ok(notices) => receive_outcome(old(self)@, bytes).1 is None && notices@
                            == receive_outcome(old(self)@, bytes).2,
                        Err(e) => receive_outcome(old(self)@, bytes).1 == Some(e),
                    }
                },
            final(self).host_spec() == old(self).host_spec(),
            final(self).port_spec() == old(self).port_spec(),
    {
        let bytes = match &mut self.link {
            None => {
                return Err(EngineError::NotConnected);
            },
            Some(link) => {
                link.flush();
                link.receive()
            },
        };
        self.process_bytes(bytes.as_slice())
    }
}

} // verus!
