//! Udp hole-punch logic
use crate::net::{IpAddr, SocketAddr};
use crate::text::joined;
use rand::Rng;
use rand::rngs::StdRng;
use vstd::prelude::*;

verus! {

/// How many attempts to holepunch
pub const MAX_HOLEPUNCH_ATTEMPTS: usize = 50;

/// How long to wait between holepunch attempts (milliseconds)
pub const HOLEPUNCH_WAIT_MILLIS: u64 = 2000;

/// How many attempts to holepunch when guessing the remote port
pub const MAX_UNKNOWN_PORT_HOLEPUNCH_ATTEMPTS: usize = 2048;

/// Maximum time to wait for a hole-punch response (seconds)
pub const HOLEPUNCH_TIMEOUT_SECS: u64 = 120;

/// The number of sockets to listen on
pub const UNKNOWN_PORT_INCOMING_SOCKETS: usize = 256;

/// The inital holepunch packet sent
pub const INIT_PUNCH: u8 = 0;

/// The acknowledgement holepunch packet
pub const ACK_PUNCH: u8 = 1;

/// The seedable generator of the `rand` crate.
#[verifier::external_type_specification]
#[verifier::external_body]
pub struct ExStdRng(StdRng);

/// A holepunch packet we have received
#[derive(Clone, Copy, Debug, PartialEq, Eq, Structural)]
pub struct IncomingHolepunchPacket {
    /// 0 is the initiator packet, and 1 is an acknowledgement packet
    pub data: u8,
    pub from: SocketAddr,
}

/// A holepunch packet we want to send
#[derive(Clone, Copy, Debug, PartialEq, Eq, Structural)]
pub struct OutgoingHolepunchPacket {
    pub data: u8,
    pub dest: SocketAddr,
}

impl OutgoingHolepunchPacket {
    pub fn new_init(dest: SocketAddr) -> (r: OutgoingHolepunchPacket)
        ensures
            r == (OutgoingHolepunchPacket { data: INIT_PUNCH, dest }),
    {
        OutgoingHolepunchPacket { data: INIT_PUNCH, dest }
    }

    pub fn new_ack(dest: SocketAddr) -> (r: OutgoingHolepunchPacket)
        ensures
            r == (OutgoingHolepunchPacket { data: ACK_PUNCH, dest }),
    {
        OutgoingHolepunchPacket { data: ACK_PUNCH, dest }
    }
}

/// Why a hole could not be punched.
#[derive(Debug)]
pub enum HolePunchError {
    Broadcast,
    Io(String),
    MaxAttempts,
    Timeout,
    BroadCastRecv(String),
    Join,
    ChannelClosed,
    SendTaskClosed(String),
    SocketChannelClosed,
}

impl HolePunchError {
    /// What the error prints.
    pub open spec fn message(self) -> Seq<char> {
        match self {
            HolePunchError::Broadcast => "Could not send stop signal due to broadcaster error"@,
            HolePunchError::Io(error) => "IO: "@ + error@,
            HolePunchError::MaxAttempts => "Reached max holepunch attempts - giving up"@,
            HolePunchError::Timeout => "Hole punching timed out"@,
            HolePunchError::BroadCastRecv(error) => "Broadcast receive: "@ + error@,
            HolePunchError::Join => "Panic during task which sends outgoing packets"@,
            HolePunchError::ChannelClosed => "Could not send holepunch packet - channel closed"@,
            HolePunchError::SendTaskClosed(dest) =>
                "Hole punch send task closed before reporting send result for "@ + dest@,
            HolePunchError::SocketChannelClosed => "No hole punch socket was returned"@,
        }
    }

    /// The error as text.
    pub fn to_string(&self) -> (r: String)
        ensures
            r@ == self.message(),
    {
        match self {
            HolePunchError::Broadcast => "Could not send stop signal due to broadcaster error".to_owned(),
            HolePunchError::Io(error) => joined("IO: ", error.as_str()),
            HolePunchError::MaxAttempts => "Reached max holepunch attempts - giving up".to_owned(),
            HolePunchError::Timeout => "Hole punching timed out".to_owned(),
            HolePunchError::BroadCastRecv(error) => joined("Broadcast receive: ", error.as_str()),
            HolePunchError::Join => "Panic during task which sends outgoing packets".to_owned(),
            HolePunchError::ChannelClosed => "Could not send holepunch packet - channel closed".to_owned(),
            HolePunchError::SendTaskClosed(dest) => joined(
                "Hole punch send task closed before reporting send result for ",
                dest.as_str(),
            ),
            HolePunchError::SocketChannelClosed => "No hole punch socket was returned".to_owned(),
        }
    }
}

/// What can happen while a hole is punched.
#[derive(Clone, Copy, Debug, PartialEq, Eq, Structural)]
pub enum PunchEvent {
    /// The packet to send went out.
    Sent,
    /// A packet came in.
    Received(IncomingHolepunchPacket),
    /// Packets came in too fast to be handed on.
    ReceiveMissed,
}

/// Whether punching goes on.
#[derive(Clone, Copy, Debug, PartialEq, Eq, Structural)]
pub enum PunchOutcome {
    Continue,
    /// Both sides have heard from each other.
    Done,
    /// Too many attempts without an answer.
    MaxAttempts,
}

/// How far the punching of a hole to a peer has come.
#[derive(Clone, Copy, Debug, PartialEq, Eq, Structural)]
pub struct HolePunch {
    /// The packet to send next.
    pub packet: OutgoingHolepunchPacket,
    /// Whether to wait before sending again.
    pub wait: bool,
    pub sent_ack: bool,
    pub received_ack: bool,
    /// How many initial packets were sent.
    pub attempts: usize,
}

impl HolePunch {
    /// What holds of every hole that is still being punched.
    pub open spec fn wf(self) -> bool {
        &&& self.attempts < MAX_HOLEPUNCH_ATTEMPTS
        &&& self.packet.data == INIT_PUNCH || self.packet.data == ACK_PUNCH
        &&& self.sent_ack || self.received_ack ==> self.packet.data == ACK_PUNCH
        &&& !(self.sent_ack && self.received_ack)
    }

    /// The state and the outcome after an event.
    pub open spec fn after(self, event: PunchEvent) -> (HolePunch, PunchOutcome) {
        match event {
            PunchEvent::Sent => {
                if self.packet.data == INIT_PUNCH {
                    let attempts = (self.attempts + 1) as usize;
                    if attempts >= MAX_HOLEPUNCH_ATTEMPTS {
                        (HolePunch { attempts, ..self }, PunchOutcome::MaxAttempts)
                    } else {
                        (HolePunch { attempts, wait: true, ..self }, PunchOutcome::Continue)
                    }
                } else if self.received_ack {
                    (HolePunch { sent_ack: true, ..self }, PunchOutcome::Done)
                } else {
                    (HolePunch { sent_ack: true, wait: true, ..self }, PunchOutcome::Continue)
                }
            },
            PunchEvent::Received(received) => {
                if received.from == self.packet.dest && received.data == INIT_PUNCH {
                    (
                        HolePunch {
                            packet: OutgoingHolepunchPacket { data: ACK_PUNCH, ..self.packet },
                            wait: false,
                            ..self
                        },
                        PunchOutcome::Continue,
                    )
                } else if received.from == self.packet.dest && received.data == ACK_PUNCH {
                    let heard = HolePunch {
                        packet: OutgoingHolepunchPacket { data: ACK_PUNCH, ..self.packet },
                        received_ack: true,
                        ..self
                    };
                    if self.sent_ack {
                        (heard, PunchOutcome::Done)
                    } else {
                        (HolePunch { wait: false, ..heard }, PunchOutcome::Continue)
                    }
                } else {
                    (HolePunch { wait: false, ..self }, PunchOutcome::Continue)
                }
            },
            PunchEvent::ReceiveMissed => (HolePunch { wait: false, ..self }, PunchOutcome::Continue),
        }
    }

    /// The state and the outcome after some events, up to where punching ends.
    pub open spec fn after_all(self, events: Seq<PunchEvent>) -> (HolePunch, PunchOutcome)
        decreases events.len(),
    {
        if events.len() == 0 {
            (self, PunchOutcome::Continue)
        } else {
            let (state, outcome) = self.after_all(events.drop_last());
            if outcome == PunchOutcome::Continue {
                state.after(events.last())
            } else {
                (state, outcome)
            }
        }
    }

    pub open spec fn spec_new(addr: SocketAddr) -> HolePunch {
        HolePunch {
            packet: OutgoingHolepunchPacket { data: INIT_PUNCH, dest: addr },
            wait: false,
            sent_ack: false,
            received_ack: false,
            attempts: 0,
        }
    }

    /// Make a connection by holepunching
    pub fn hole_punch_peer(addr: SocketAddr) -> (r: HolePunch)
        ensures
            r == HolePunch::spec_new(addr),
            r.wf(),
    {
        HolePunch {
            packet: OutgoingHolepunchPacket::new_init(addr),
            wait: false,
            sent_ack: false,
            received_ack: false,
            attempts: 0,
        }
    }

    /// Goes on after the packet to send went out or a packet came in.
    pub fn step(&mut self, event: PunchEvent) -> (r: PunchOutcome)
        requires
            old(self).wf(),
        ensures
            (*final(self), r) == old(self).after(event),
            r == PunchOutcome::Continue ==> final(self).wf(),
    {
        match event {
            PunchEvent::Sent => {
                if self.packet.data == INIT_PUNCH {
                    self.attempts = self.attempts + 1;
                    if self.attempts >= MAX_HOLEPUNCH_ATTEMPTS {
                        return PunchOutcome::MaxAttempts;
                    }
                } else {
                    self.sent_ack = true;
                    if self.received_ack {
                        return PunchOutcome::Done;
                    }
                }
                self.wait = true;
            },
            PunchEvent::Received(received) => {
                if received.from == self.packet.dest {
                    if received.data == INIT_PUNCH {
                        self.packet.data = ACK_PUNCH;
                    } else if received.data == ACK_PUNCH {
                        self.packet.data = ACK_PUNCH;
                        self.received_ack = true;
                        if self.sent_ack {
                            return PunchOutcome::Done;
                        }
                    }
                }
                self.wait = false;
            },
            PunchEvent::ReceiveMissed => {
                self.wait = false;
            },
        }
        PunchOutcome::Continue
    }
}

/// Whether an event is an acknowledgement from a peer.
pub open spec fn is_ack_from(event: PunchEvent, addr: SocketAddr) -> bool {
    event == PunchEvent::Received(IncomingHolepunchPacket { data: ACK_PUNCH, from: addr })
}

/// Whether an event is a valid packet from a peer.
pub open spec fn is_heard_from(event: PunchEvent, addr: SocketAddr) -> bool {
    event matches PunchEvent::Received(packet) && packet.from == addr && (packet.data == INIT_PUNCH
        || packet.data == ACK_PUNCH)
}

/// Punching ends well only where an acknowledgement came from the very peer and an acknowledgement
/// was sent to it, and that was sent only after the peer was heard.
pub proof fn law_done_means_both_heard(addr: SocketAddr, events: Seq<PunchEvent>)
    ensures
        ({
            let (state, outcome) = HolePunch::spec_new(addr).after_all(events);
            &&& state.packet.dest == addr
            &&& outcome == PunchOutcome::Continue ==> state.wf()
            &&& outcome == PunchOutcome::Done ==> state.sent_ack && state.received_ack
            &&& state.received_ack ==> exists|i: int|
                0 <= i < events.len() && is_ack_from(#[trigger] events[i], addr)
            &&& state.packet.data == ACK_PUNCH ==> exists|i: int|
                0 <= i < events.len() && is_heard_from(#[trigger] events[i], addr)
            &&& state.sent_ack ==> exists|i: int, j: int|
                0 <= i < j < events.len() && is_heard_from(#[trigger] events[i], addr)
                    && #[trigger] events[j] == PunchEvent::Sent
        }),
    decreases events.len(),
{
    if events.len() > 0 {
        let before = events.drop_last();
        law_done_means_both_heard(addr, before);
        let (state, outcome) = HolePunch::spec_new(addr).after_all(before);
        let last = events.len() - 1;
        assert(forall|i: int| 0 <= i < before.len() ==> before[i] == events[i]);
        assert(events[last] == events.last());
        if state.received_ack {
            let i = choose|i: int| 0 <= i < before.len() && is_ack_from(#[trigger] before[i], addr);
            assert(is_ack_from(events[i], addr));
        }
        if state.packet.data == ACK_PUNCH {
            let i = choose|i: int| 0 <= i < before.len() && is_heard_from(#[trigger] before[i], addr);
            assert(is_heard_from(events[i], addr));
        }
        if state.sent_ack {
            let (i, j) = choose|i: int, j: int|
                0 <= i < j < before.len() && is_heard_from(#[trigger] before[i], addr)
                    && #[trigger] before[j] == PunchEvent::Sent;
            assert(is_heard_from(events[i], addr) && events[j] == PunchEvent::Sent);
        }
        if outcome == PunchOutcome::Continue {
            assert(is_ack_from(events[last], addr) ==> is_heard_from(events[last], addr));
        }
    }
}

/// Punching ends as soon as both acknowledgements have passed. One that comes from the peer ends it
/// if ours went out already, and otherwise ours, which is the next packet that goes out, ends it. And
/// one of ours that goes out ends it exactly where that of the peer has come.
pub proof fn law_both_acknowledgements_end_punching(punch: HolePunch, event: PunchEvent)
    requires
        punch.wf(),
    ensures
        is_ack_from(event, punch.packet.dest) ==> {
            let (heard, outcome) = punch.after(event);
            &&& heard.received_ack
            &&& heard.packet == (OutgoingHolepunchPacket { data: ACK_PUNCH, dest: punch.packet.dest })
            &&& outcome == if punch.sent_ack {
                PunchOutcome::Done
            } else {
                PunchOutcome::Continue
            }
            &&& heard.after(PunchEvent::Sent).1 == PunchOutcome::Done
        },
        event == PunchEvent::Sent && punch.packet.data == ACK_PUNCH ==> {
            let (sent, outcome) = punch.after(event);
            &&& sent.sent_ack
            &&& (outcome == PunchOutcome::Done) == punch.received_ack
            &&& outcome != PunchOutcome::MaxAttempts
        },
        // What comes from elsewhere, or is no valid packet, ends nothing and counts for nothing
        !is_heard_from(event, punch.packet.dest) && event != PunchEvent::Sent ==> {
            let (other, outcome) = punch.after(event);
            &&& outcome == PunchOutcome::Continue
            &&& other == (HolePunch { wait: false, ..punch })
        },
{
}

/// A peer that is heard is answered with an acknowledgement at once, and one that is not heard is
/// sent initial packets, with a pause between them, until there were too many.
pub proof fn law_what_is_sent_to_the_peer(punch: HolePunch, event: PunchEvent)
    requires
        punch.wf(),
    ensures
        punch.after(event).0.packet.dest == punch.packet.dest,
        is_heard_from(event, punch.packet.dest) && punch.after(event).1 == PunchOutcome::Continue ==> {
            &&& punch.after(event).0.packet.data == ACK_PUNCH
            &&& !punch.after(event).0.wait
            &&& punch.after(event).0.attempts == punch.attempts
        },
        !is_heard_from(event, punch.packet.dest) ==> punch.after(event).0.packet == punch.packet,
        event == PunchEvent::Sent && punch.packet.data == INIT_PUNCH ==> {
            let (sent, outcome) = punch.after(event);
            &&& sent.attempts == punch.attempts + 1
            &&& outcome == if sent.attempts == MAX_HOLEPUNCH_ATTEMPTS {
                PunchOutcome::MaxAttempts
            } else {
                PunchOutcome::Continue
            }
            &&& sent.sent_ack == punch.sent_ack
        },
        event == PunchEvent::Sent && punch.after(event).1 == PunchOutcome::Continue ==> punch.after(
            event,
        ).0.wait,
{
}

/// How far punching has come, by what has happened.
proof fn lemma_progress_of_punching(addr: SocketAddr, events: Seq<PunchEvent>)
    ensures
        ({
            let (state, outcome) = HolePunch::spec_new(addr).after_all(events);
            &&& state.attempts <= events.len()
            &&& outcome == PunchOutcome::Continue ==> {
                &&& forall|i: int|
                    0 <= i < events.len() && is_heard_from(#[trigger] events[i], addr)
                        ==> state.packet.data == ACK_PUNCH
                &&& forall|i: int|
                    0 <= i < events.len() && is_ack_from(#[trigger] events[i], addr)
                        ==> state.received_ack
                &&& forall|i: int, j: int|
                    0 <= i < j < events.len() && is_heard_from(#[trigger] events[i], addr)
                        && #[trigger] events[j] == PunchEvent::Sent ==> state.sent_ack
            }
            &&& outcome == PunchOutcome::MaxAttempts ==> forall|i: int|
                0 <= i < MAX_HOLEPUNCH_ATTEMPTS && i < events.len() ==> !is_heard_from(
                    #[trigger] events[i],
                    addr,
                )
        }),
    decreases events.len(),
{
    if events.len() > 0 {
        let before = events.drop_last();
        lemma_progress_of_punching(addr, before);
        law_done_means_both_heard(addr, before);
        assert forall|i: int| 0 <= i < before.len() implies before[i] == events[i] by {}
        let last = events.len() - 1;
        let (state, outcome) = HolePunch::spec_new(addr).after_all(before);
        let (next, ended) = HolePunch::spec_new(addr).after_all(events);
        if outcome == PunchOutcome::Continue {
            assert forall|i: int|
                0 <= i < events.len() && is_heard_from(#[trigger] events[i], addr)
                    && ended == PunchOutcome::Continue implies next.packet.data == ACK_PUNCH by {
                if i < last {
                    assert(is_heard_from(before[i], addr));
                }
            }
            assert forall|i: int|
                0 <= i < events.len() && is_ack_from(#[trigger] events[i], addr) && ended
                    == PunchOutcome::Continue implies next.received_ack by {
                if i < last {
                    assert(is_ack_from(before[i], addr));
                }
            }
            assert forall|i: int, j: int|
                0 <= i < j < events.len() && is_heard_from(#[trigger] events[i], addr)
                    && #[trigger] events[j] == PunchEvent::Sent && ended == PunchOutcome::Continue implies next.sent_ack by {
                assert(is_heard_from(before[i], addr));
                if j < last {
                    assert(before[j] == PunchEvent::Sent);
                }
            }
            if ended == PunchOutcome::MaxAttempts {
                assert(state.packet.data == INIT_PUNCH);
                assert forall|i: int| 0 <= i < events.len() implies !is_heard_from(
                    #[trigger] events[i],
                    addr,
                ) by {
                    if i < last {
                        assert(!is_heard_from(before[i], addr));
                    }
                }
            }
        } else if outcome == PunchOutcome::MaxAttempts {
            law_attempts_are_limited(addr, before);
            assert forall|i: int|
                0 <= i < MAX_HOLEPUNCH_ATTEMPTS && i < events.len() implies !is_heard_from(
                #[trigger] events[i],
                addr,
            ) by {
                assert(!is_heard_from(before[i], addr));
            }
        }
    }
}

/// A hole is punched once both sides have acknowledged each other: the peer was heard, something was
/// sent after that, and an acknowledgement came from the peer, whatever else has happened and in
/// whatever order. The one exception is a peer that was not heard before we had given up.
pub proof fn law_punching_succeeds(
    addr: SocketAddr,
    events: Seq<PunchEvent>,
    heard: int,
    sent: int,
    acknowledged: int,
)
    requires
        0 <= heard < sent < events.len(),
        heard < MAX_HOLEPUNCH_ATTEMPTS,
        is_heard_from(events[heard], addr),
        events[sent] == PunchEvent::Sent,
        0 <= acknowledged < events.len(),
        is_ack_from(events[acknowledged], addr),
    ensures
        HolePunch::spec_new(addr).after_all(events).1 == PunchOutcome::Done,
{
    lemma_progress_of_punching(addr, events);
    law_done_means_both_heard(addr, events);
}

/// At most as many initial packets are sent as there are attempts.
pub proof fn law_attempts_are_limited(addr: SocketAddr, events: Seq<PunchEvent>)
    ensures
        HolePunch::spec_new(addr).after_all(events).0.attempts <= MAX_HOLEPUNCH_ATTEMPTS,
        HolePunch::spec_new(addr).after_all(events).1 == PunchOutcome::MaxAttempts
            ==> HolePunch::spec_new(addr).after_all(events).0.attempts == MAX_HOLEPUNCH_ATTEMPTS,
    decreases events.len(),
{
    if events.len() > 0 {
        law_attempts_are_limited(addr, events.drop_last());
        law_done_means_both_heard(addr, events.drop_last());
    }
}

/// Calls `Rng::gen_range`, which gives some number of a range that is not empty.
#[verifier::external_body]
fn port_between(rng: &mut StdRng, low: u16, high: u16) -> (r: u16)
    requires
        low <= high,
    ensures
        low <= r <= high,
{
    rng.gen_range(low..=high)
}

/// A random port, never zero. Which one rests on chance.
pub fn random_nonzero_port(rng: &mut StdRng) -> (r: u16)
    ensures
        r != 0,
{
    port_between(rng, 1, u16::MAX)
}

/// The search for the port of a peer who is behind symmetric NAT.
#[derive(Clone, Copy, Debug, PartialEq, Eq, Structural)]
pub struct PortSearch {
    pub addr: IpAddr,
    /// How many probes were sent.
    pub sent: usize,
    /// Whether an answer has come.
    pub stopped: bool,
}

impl PortSearch {
    /// Hole punch to a peer for who we do not know which port
    pub fn hole_punch_peer_without_port(addr: IpAddr) -> (r: PortSearch)
        ensures
            r == (PortSearch { addr, sent: 0, stopped: false }),
    {
        PortSearch { addr, sent: 0, stopped: false }
    }

    /// Whether there is another probe to send: the first is always sent.
    pub open spec fn goes_on(self) -> bool {
        self.sent < MAX_UNKNOWN_PORT_HOLEPUNCH_ATTEMPTS && (self.sent == 0 || !self.stopped)
    }

    /// The next probe: an initial packet to a random port.
    pub fn next_probe(&mut self, rng: &mut StdRng) -> (r: Option<OutgoingHolepunchPacket>)
        ensures
            match r {
                Some(packet) => {
                    &&& old(self).goes_on()
                    &&& packet.data == INIT_PUNCH
                    &&& packet.dest == SocketAddr::spec_new(
                        old(self).addr,
                        packet.dest.spec_port(),
                    )
                    &&& packet.dest.spec_port() != 0
                    &&& *final(self) == (PortSearch {
                        sent: (old(self).sent + 1) as usize,
                        ..*old(self)
                    })
                },
                None => !old(self).goes_on() && *final(self) == *old(self),
            },
    {
        if self.sent >= MAX_UNKNOWN_PORT_HOLEPUNCH_ATTEMPTS || (self.sent > 0 && self.stopped) {
            return None;
        }
        self.sent = self.sent + 1;
        let port = random_nonzero_port(rng);
        Some(OutgoingHolepunchPacket::new_init(SocketAddr::new(self.addr, port)))
    }

    /// Takes a packet that came in. The answer to it is handed out where it comes from the peer
    /// that is searched for; other packets are ignored.
    pub fn receive(&mut self, packet: IncomingHolepunchPacket) -> (r: Option<
        OutgoingHolepunchPacket,
    >)
        ensures
            if packet.from.spec_ip() == old(self).addr && (packet.data == INIT_PUNCH || packet.data
                == ACK_PUNCH) {
                r == Some(OutgoingHolepunchPacket { data: ACK_PUNCH, dest: packet.from })
                    && *final(self) == (PortSearch { stopped: true, ..*old(self) })
            } else {
                r is None && *final(self) == *old(self)
            },
    {
        if packet.from.ip() == self.addr && (packet.data == INIT_PUNCH || packet.data == ACK_PUNCH) {
            // Signal to stop trying connections, and send a packet back
            self.stopped = true;
            Some(OutgoingHolepunchPacket::new_ack(packet.from))
        } else {
            None
        }
    }
}

/// What one of the many sockets of the hard side answers to a packet: an acknowledgement to the
/// peer, which makes it the socket that got through, and nothing to anyone else.
pub fn birthday_hard_side_answer(target_addr: SocketAddr, sender: SocketAddr) -> (r: Option<
    OutgoingHolepunchPacket,
>)
    ensures
        r == if sender == target_addr {
            Some(OutgoingHolepunchPacket { data: ACK_PUNCH, dest: target_addr })
        } else {
            None
        },
{
    if sender == target_addr {
        Some(OutgoingHolepunchPacket::new_ack(sender))
    } else {
        None
    }
}

/// A datagram as it came in.
#[derive(Clone, Debug)]
pub struct Datagram {
    pub from: SocketAddr,
    pub data: Vec<u8>,
}

/// The packets of one byte among the datagrams that came in, which are those of hole punching.
pub open spec fn holepunch_packets(datagrams: Seq<Datagram>) -> Seq<IncomingHolepunchPacket>
    decreases datagrams.len(),
{
    if datagrams.len() == 0 {
        Seq::empty()
    } else {
        let rest = holepunch_packets(datagrams.drop_last());
        if datagrams.last().data@.len() == 1 {
            rest.push(
                IncomingHolepunchPacket {
                    data: datagrams.last().data@[0],
                    from: datagrams.last().from,
                },
            )
        } else {
            rest
        }
    }
}

/// Picks the packets of hole punching out of the datagrams that came in.
pub fn forward_holepunch(datagrams: &Vec<Datagram>) -> (r: Vec<IncomingHolepunchPacket>)
    ensures
        r@ == holepunch_packets(datagrams@),
{
    let mut r: Vec<IncomingHolepunchPacket> = Vec::new();
    let mut i: usize = 0;
    while i < datagrams.len()
        invariant
            i <= datagrams@.len(),
            r@ == holepunch_packets(datagrams@.take(i as int)),
        decreases datagrams@.len() - i,
    {
        assert(datagrams@.take(i + 1).drop_last() == datagrams@.take(i as int));
        if datagrams[i].data.len() == 1 {
            r.push(IncomingHolepunchPacket { data: datagrams[i].data[0], from: datagrams[i].from });
        }
        i += 1;
    }
    assert(datagrams@.take(i as int) == datagrams@);
    r
}

/// Exactly the datagrams of one byte are packets of hole punching. They are handed on with their
/// byte and their sender, in the order in which they came in.
pub proof fn law_datagrams_of_one_byte_are_handed_on(datagrams: Seq<Datagram>)
    ensures
        ({
            let short = datagrams.filter(|datagram: Datagram| datagram.data@.len() == 1);
            let packets = holepunch_packets(datagrams);
            &&& packets.len() == short.len()
            &&& forall|i: int|
                0 <= i < packets.len() ==> (#[trigger] packets[i]).from == short[i].from
                    && short[i].data@ == seq![packets[i].data]
        }),
    decreases datagrams.len(),
{
    reveal(Seq::filter);
    if datagrams.len() > 0 {
        law_datagrams_of_one_byte_are_handed_on(datagrams.drop_last());
        let last = datagrams.last();
        if last.data@.len() == 1 {
            assert(last.data@ =~= seq![last.data@[0]]);
        }
    }
}

/// Punching starts with an initial packet to the peer, at once.
pub proof fn law_punching_starts_at_once(addr: SocketAddr)
    ensures
        ({
            let start = HolePunch::spec_new(addr);
            &&& start.packet == (OutgoingHolepunchPacket { data: INIT_PUNCH, dest: addr })
            &&& !start.wait
            &&& !start.sent_ack && !start.received_ack
            &&& start.attempts == 0
            &&& start.wf()
        }),
{
}

/// What was heard and sent before is kept: an acknowledgement that was sent or received stays so,
/// only sending changes what was sent, and only the peer's acknowledgement changes what was received.
pub proof fn law_punching_keeps_what_was_reached(punch: HolePunch, event: PunchEvent)
    requires
        punch.wf(),
    ensures
        ({
            let (after, outcome) = punch.after(event);
            &&& after.received_ack == (punch.received_ack || is_ack_from(event, punch.packet.dest))
            &&& after.sent_ack == (punch.sent_ack || event == PunchEvent::Sent && punch.packet.data
                == ACK_PUNCH)
            &&& outcome == PunchOutcome::Done <==> after.received_ack && after.sent_ack
            &&& after.attempts == punch.attempts + if event == PunchEvent::Sent && punch.packet.data
                == INIT_PUNCH {
                1int
            } else {
                0int
            }
        }),
{
}

/// The search for a port sends a first probe in any case, and goes on until an answer has come or
/// there were too many probes.
pub proof fn law_port_search_goes_on(search: PortSearch)
    ensures
        search.sent == 0 ==> search.goes_on(),
        search.sent > 0 && search.stopped ==> !search.goes_on(),
        search.sent >= MAX_UNKNOWN_PORT_HOLEPUNCH_ATTEMPTS ==> !search.goes_on(),
        search.sent < MAX_UNKNOWN_PORT_HOLEPUNCH_ATTEMPTS && !search.stopped ==> search.goes_on(),
{
}

} // verus!
