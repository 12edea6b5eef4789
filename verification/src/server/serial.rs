//! The link to the device: what is passed on, and when it is opened again.

use vstd::arithmetic::power2::*;
use vstd::prelude::*;
use vstd::utf8::*;

verus! {

/// Maximum backoff for reconnection, in milliseconds.
pub const MAX_BACKOFF: u64 = 30_000;

/// Initial backoff, in milliseconds.
pub const INITIAL_BACKOFF: u64 = 500;

/// When a link that was lost is opened again.
pub struct Backoff {
    reconnect: bool,
    delay: u64,
}

/// Where a [`Backoff`] stands: whether it reconnects at all, and how long it
/// waits the next time.
pub struct Delay {
    pub reconnect: bool,
    pub next: u64,
}

impl View for Backoff {
    type V = Delay;

    closed spec fn view(&self) -> Delay {
        Delay { reconnect: self.reconnect, next: self.delay }
    }
}

/// What to do after a link was lost.
#[derive(Debug, Clone, Copy, PartialEq, Eq, Structural)]
pub enum Retry {
    /// Give up.
    Stop,
    /// Open it again after so many milliseconds.
    After(u64),
}

/// The delay behind another: twice as long, up to the maximum.
pub open spec fn longer(delay: u64) -> u64 {
    if 2 * delay <= MAX_BACKOFF {
        (2 * delay) as u64
    } else {
        MAX_BACKOFF
    }
}

/// What a lost link leads to.
pub open spec fn after_loss(delay: Delay, cancelled: bool) -> (Delay, Retry) {
    if !delay.reconnect || cancelled {
        (delay, Retry::Stop)
    } else {
        (Delay { next: longer(delay.next), ..delay }, Retry::After(delay.next))
    }
}

impl Backoff {
    #[verifier::type_invariant]
    spec fn within_bounds(self) -> bool {
        INITIAL_BACKOFF <= self.delay <= MAX_BACKOFF
    }

    /// The first loss is followed by the initial backoff.
    pub fn new(reconnect: bool) -> (backoff: Self)
        ensures
            backoff@ == (Delay { reconnect, next: INITIAL_BACKOFF }),
    {
        Backoff { reconnect, delay: INITIAL_BACKOFF }
    }

    /// The link was opened: the next loss is a first one again.
    pub fn opened(&mut self)
        ensures
            final(self)@ == (Delay { next: INITIAL_BACKOFF, ..old(self)@ }),
    {
        self.delay = INITIAL_BACKOFF;
    }

    /// The link was lost, or could not be opened.
    pub fn lost(&mut self, cancelled: bool) -> (retry: Retry)
        ensures
            (final(self)@, retry) == after_loss(old(self)@, cancelled),
    {
        proof {
            use_type_invariant(&*self);
        }
        if !self.reconnect {
            return Retry::Stop;
        }
        if cancelled {
            return Retry::Stop;
        }
        let delay: u64 = self.delay;
        self.delay = if 2 * delay <= MAX_BACKOFF {
            2 * delay
        } else {
            MAX_BACKOFF
        };
        Retry::After(delay)
    }
}

/// What happens to the link to a device.
pub enum LinkEvent {
    /// It was opened.
    Opened,
    /// It could not be opened.
    OpenFailed,
    /// The device sent data.
    Received(Vec<u8>),
    /// The device sends no more.
    Ended,
    /// Reading from it failed.
    ReadFailed,
    /// There is data for the device.
    Outgoing(Vec<u8>),
    /// There will be no more data for the device.
    OutgoingClosed,
    /// Writing to it failed.
    WriteFailed,
    /// The server is stopping.
    Cancelled,
    /// The time to wait is over.
    Waited,
}

/// What is done about the link to a device.
#[derive(Debug, Clone, PartialEq)]
pub enum LinkAction {
    /// Open it.
    Open,
    /// Wait for what comes from either side.
    Poll,
    /// Pass this on to everyone who listens.
    Broadcast(Vec<u8>),
    /// Write this to the device.
    Write(Vec<u8>),
    /// Let so many milliseconds pass.
    Wait(u64),
    /// Give it up.
    Stop,
}

/// What a [`LinkAction`] says.
pub enum LinkEffect {
    Open,
    Poll,
    Broadcast(Seq<u8>),
    Write(Seq<u8>),
    Wait(u64),
    Stop,
}

impl View for LinkAction {
    type V = LinkEffect;

    open spec fn view(&self) -> LinkEffect {
        match *self {
            LinkAction::Open => LinkEffect::Open,
            LinkAction::Poll => LinkEffect::Poll,
            LinkAction::Broadcast(data) => LinkEffect::Broadcast(data@),
            LinkAction::Write(data) => LinkEffect::Write(data@),
            LinkAction::Wait(ms) => LinkEffect::Wait(ms),
            LinkAction::Stop => LinkEffect::Stop,
        }
    }
}

/// What a list of actions says.
pub open spec fn effects(actions: Seq<LinkAction>) -> Seq<LinkEffect> {
    actions.map_values(|a: LinkAction| a@)
}

/// What the clients are told about the link itself.
pub enum Marker {
    /// The link was lost.
    Lost,
    /// The link is back.
    Reconnected,
}

/// The line that tells it.
pub open spec fn marker_text(marker: Marker) -> Seq<char> {
    match marker {
        Marker::Lost => "\r\n--- connection lost ---\r\n"@,
        Marker::Reconnected => "\r\n--- reconnected ---\r\n"@,
    }
}

/// Where a link stands.
pub struct LinkState {
    /// When it is opened again after a loss.
    pub delay: Delay,
    /// Whether the clients are told when it is lost, and when it is back.
    pub announces: bool,
    /// Whether it is open.
    pub open: bool,
    /// Whether the clients were told of a loss, and not yet that the link is
    /// back.
    pub told: bool,
}

/// A link that is yet to be opened.
pub open spec fn closed_link(reconnect: bool, announces: bool) -> LinkState {
    LinkState {
        delay: Delay { reconnect, next: INITIAL_BACKOFF },
        announces,
        open: false,
        told: false,
    }
}

/// Whether an event takes away a link that was open.
pub open spec fn is_loss(event: LinkEvent) -> bool {
    event is Ended || event is ReadFailed || event is WriteFailed
}

/// What the clients are told for an event: that an open link is lost, if it
/// will be opened again, and that it is back. They are not told of a first
/// connection, of a failed attempt, nor of a link that is given up.
pub open spec fn marker_for(
    state: LinkState,
    event: LinkEvent,
    cancelled: bool,
) -> Option<Marker> {
    if event is Opened && state.told {
        Some(Marker::Reconnected)
    } else if is_loss(event) && state.open && state.announces && state.delay.reconnect
        && !cancelled {
        Some(Marker::Lost)
    } else {
        None
    }
}

/// A marker as it is passed on, in front of what is done next.
pub open spec fn announced(marker: Option<Marker>, next: LinkEffect) -> Seq<LinkEffect> {
    match marker {
        Some(marker) => seq![LinkEffect::Broadcast(encode_utf8(marker_text(marker))), next],
        None => seq![next],
    }
}

/// What a lost link leads to, as an action.
pub open spec fn loss_effect(retry: Retry) -> LinkEffect {
    match retry {
        Retry::Stop => LinkEffect::Stop,
        Retry::After(ms) => LinkEffect::Wait(ms),
    }
}

/// What is done about the link for an event, in order. The link is one: when
/// either side of it fails, it is lost as a whole.
pub open spec fn link_step(state: LinkState, event: LinkEvent, cancelled: bool) -> (
    LinkState,
    Seq<LinkEffect>,
) {
    let marker = marker_for(state, event, cancelled);
    match event {
        LinkEvent::Opened => (
            LinkState {
                delay: Delay { next: INITIAL_BACKOFF, ..state.delay },
                open: true,
                told: false,
                ..state
            },
            announced(marker, LinkEffect::Poll),
        ),
        LinkEvent::OpenFailed
        | LinkEvent::Ended
        | LinkEvent::ReadFailed
        | LinkEvent::WriteFailed => {
            let (delay, retry) = after_loss(state.delay, cancelled);
            (
                LinkState {
                    delay,
                    open: false,
                    told: state.told || marker is Some,
                    ..state
                },
                announced(marker, loss_effect(retry)),
            )
        },
        LinkEvent::Received(data) => (state, seq![LinkEffect::Broadcast(data@)]),
        LinkEvent::Outgoing(data) => (state, seq![LinkEffect::Write(data@)]),
        LinkEvent::OutgoingClosed | LinkEvent::Cancelled => (state, seq![LinkEffect::Stop]),
        LinkEvent::Waited => (state, seq![LinkEffect::Open]),
    }
}

/// The link to a device, over a serial port or TCP. The program around it
/// performs the actions and reports the events.
pub struct DeviceLink {
    backoff: Backoff,
    announces: bool,
    open: bool,
    told: bool,
}

impl View for DeviceLink {
    type V = LinkState;

    closed spec fn view(&self) -> LinkState {
        LinkState {
            delay: self.backoff@,
            announces: self.announces,
            open: self.open,
            told: self.told,
        }
    }
}

impl DeviceLink {
    /// A link that is yet to be opened. A link that announces tells the
    /// clients when it is lost and when it is back, as one over TCP does.
    pub fn new(reconnect: bool, announces: bool) -> (link: Self)
        ensures
            link@ == closed_link(reconnect, announces),
    {
        DeviceLink { backoff: Backoff::new(reconnect), announces, open: false, told: false }
    }

    /// What to do after the link was opened.
    fn on_open(&mut self) -> (actions: Vec<LinkAction>)
        ensures
            (final(self)@, effects(actions@)) == link_step(old(self)@, LinkEvent::Opened, false),
    {
        let mut actions: Vec<LinkAction> = Vec::new();
        if self.told {
            actions.push(announcement("\r\n--- reconnected ---\r\n"));
        }
        actions.push(LinkAction::Poll);
        self.backoff.opened();
        self.open = true;
        self.told = false;
        actions
    }

    /// What to do after the link was lost, or could not be opened. A loss is
    /// announced where the link was open.
    fn on_loss(&mut self, was_open: bool, cancelled: bool) -> (actions: Vec<LinkAction>)
        ensures
            ({
                let before = old(self)@;
                let (delay, retry) = after_loss(before.delay, cancelled);
                let tell = was_open && before.announces && retry is After;
                let marker = if tell {
                    Some(Marker::Lost)
                } else {
                    None
                };
                &&& final(self)@ == LinkState {
                    delay,
                    open: false,
                    told: before.told || tell,
                    ..before
                }
                &&& effects(actions@) == announced(marker, loss_effect(retry))
            }),
    {
        let mut actions: Vec<LinkAction> = Vec::new();
        match self.backoff.lost(cancelled) {
            Retry::Stop => actions.push(LinkAction::Stop),
            Retry::After(ms) => {
                if was_open && self.announces {
                    actions.push(announcement("\r\n--- connection lost ---\r\n"));
                    self.told = true;
                }
                actions.push(LinkAction::Wait(ms));
            },
        }
        self.open = false;
        actions
    }

    /// Decides what to do for an event, in order, given whether the server is
    /// stopping.
    pub fn step(&mut self, event: LinkEvent, cancelled: bool) -> (actions: Vec<LinkAction>)
        ensures
            (final(self)@, effects(actions@)) == link_step(old(self)@, event, cancelled),
    {
        let was_open = self.open;
        match event {
            LinkEvent::Opened => self.on_open(),
            LinkEvent::OpenFailed => self.on_loss(false, cancelled),
            LinkEvent::Ended => self.on_loss(was_open, cancelled),
            LinkEvent::ReadFailed => self.on_loss(was_open, cancelled),
            LinkEvent::WriteFailed => self.on_loss(was_open, cancelled),
            LinkEvent::Received(data) => only(LinkAction::Broadcast(data)),
            LinkEvent::Outgoing(data) => only(LinkAction::Write(data)),
            LinkEvent::OutgoingClosed => only(LinkAction::Stop),
            LinkEvent::Cancelled => only(LinkAction::Stop),
            LinkEvent::Waited => only(LinkAction::Open),
        }
    }
}

/// Passes a line on to the clients.
fn announcement(line: &str) -> (action: LinkAction)
    ensures
        action@ == LinkEffect::Broadcast(encode_utf8(line@)),
{
    let mut bytes: Vec<u8> = Vec::new();
    bytes.extend_from_slice(line.as_bytes());
    assert(bytes@ == encode_utf8(line@));
    LinkAction::Broadcast(bytes)
}

/// One action alone.
fn only(action: LinkAction) -> (actions: Vec<LinkAction>)
    ensures
        effects(actions@) == seq![action@],
{
    let mut actions: Vec<LinkAction> = Vec::new();
    actions.push(action);
    actions
}

/// The delay after so many losses in a row.
pub open spec fn delay_after(losses: nat) -> u64
    decreases losses,
{
    if losses == 0 {
        INITIAL_BACKOFF
    } else {
        longer(delay_after((losses - 1) as nat))
    }
}

/// What is waited for after so many losses in a row doubles each time, and
/// never exceeds the maximum.
pub proof fn delays_double_up_to_the_maximum(losses: nat)
    ensures
        INITIAL_BACKOFF <= delay_after(losses) <= MAX_BACKOFF,
        delay_after(losses + 1) == longer(delay_after(losses)),
        losses >= 6 ==> delay_after(losses) == MAX_BACKOFF,
    decreases losses,
{
    reveal_with_fuel(delay_after, 8);
    if losses > 0 {
        delays_double_up_to_the_maximum((losses - 1) as nat);
    }
}

/// The state of a link after so many losses in a row.
pub open spec fn lost_times(delay: Delay, losses: nat) -> Delay
    decreases losses,
{
    if losses == 0 {
        delay
    } else {
        after_loss(lost_times(delay, (losses - 1) as nat), false).0
    }
}

/// A link that reconnects and was just opened waits, after each further loss
/// in a row, for the delay of that loss; it goes on for as long as it is not
/// stopped.
pub proof fn losses_follow_the_schedule(losses: nat)
    ensures
        ({
            let fresh = Delay { reconnect: true, next: INITIAL_BACKOFF };
            let at = lost_times(fresh, losses);
            &&& at == Delay { reconnect: true, next: delay_after(losses) }
            &&& after_loss(at, false).1 == Retry::After(delay_after(losses))
        }),
    decreases losses,
{
    if losses > 0 {
        losses_follow_the_schedule((losses - 1) as nat);
    }
}

/// A link that does not reconnect is given up at the first loss, and nobody is
/// told.
pub proof fn no_reconnect_means_none(state: LinkState, event: LinkEvent, cancelled: bool)
    requires
        !state.delay.reconnect,
        event is OpenFailed || is_loss(event),
    ensures
        link_step(state, event, cancelled).1 == seq![LinkEffect::Stop],
{
}

/// Where a link stands after events, each with whether the server was
/// stopping.
pub open spec fn link_after(state: LinkState, events: Seq<(LinkEvent, bool)>) -> LinkState
    decreases events.len(),
{
    if events.len() == 0 {
        state
    } else {
        let (event, cancelled) = events.last();
        link_step(link_after(state, events.drop_last()), event, cancelled).0
    }
}

/// What is passed on to the clients for events, in order. It is always the
/// first thing that is done for an event.
pub open spec fn broadcasts(state: LinkState, events: Seq<(LinkEvent, bool)>) -> Seq<Seq<u8>>
    decreases events.len(),
{
    if events.len() == 0 {
        seq![]
    } else {
        let (event, cancelled) = events.last();
        let before = broadcasts(state, events.drop_last());
        match link_step(link_after(state, events.drop_last()), event, cancelled).1[0] {
            LinkEffect::Broadcast(data) => before.push(data),
            _ => before,
        }
    }
}

/// What the clients are told about the link itself for events, in order.
pub open spec fn markers(state: LinkState, events: Seq<(LinkEvent, bool)>) -> Seq<Marker>
    decreases events.len(),
{
    if events.len() == 0 {
        seq![]
    } else {
        let (event, cancelled) = events.last();
        let before = markers(state, events.drop_last());
        match marker_for(link_after(state, events.drop_last()), event, cancelled) {
            Some(marker) => before.push(marker),
            None => before,
        }
    }
}

/// Whatever happens to a link, the clients are told of losses and returns in
/// turn, of a loss first. While they wait for a return the link is closed.
/// Only a link that announces tells anything.
pub proof fn markers_alternate(
    reconnect: bool,
    announces: bool,
    events: Seq<(LinkEvent, bool)>,
)
    ensures
        ({
            let link = closed_link(reconnect, announces);
            let told = markers(link, events);
            let at = link_after(link, events);
            &&& forall|i: int|
                0 <= i < told.len() ==> #[trigger] told[i] == (if i % 2 == 0 {
                    Marker::Lost
                } else {
                    Marker::Reconnected
                })
            &&& at.told == (told.len() % 2 == 1)
            &&& at.told ==> !at.open
            &&& at.announces == announces
            &&& !announces ==> told.len() == 0
        }),
    decreases events.len(),
{
    if events.len() > 0 {
        markers_alternate(reconnect, announces, events.drop_last());
    }
}

/// What the device sent, in order.
pub open spec fn received_data(events: Seq<(LinkEvent, bool)>) -> Seq<Seq<u8>>
    decreases events.len(),
{
    if events.len() == 0 {
        seq![]
    } else {
        let before = received_data(events.drop_last());
        match events.last().0 {
            LinkEvent::Received(data) => before.push(data@),
            _ => before,
        }
    }
}

/// A link that does not announce passes on what the device sent, as it was and
/// in order, and nothing else.
pub proof fn a_silent_link_adds_nothing(reconnect: bool, events: Seq<(LinkEvent, bool)>)
    ensures
        broadcasts(closed_link(reconnect, false), events) == received_data(events),
    decreases events.len(),
{
    if events.len() > 0 {
        a_silent_link_adds_nothing(reconnect, events.drop_last());
        markers_alternate(reconnect, false, events.drop_last());
    }
}

proof fn failures_change_the_delay_only(
    state: LinkState,
    events: Seq<(LinkEvent, bool)>,
    from: int,
)
    requires
        0 <= from <= events.len(),
        forall|i: int|
            from <= i < events.len() ==> (#[trigger] events[i]).0 is OpenFailed
                || events[i].0 is Waited,
        !link_after(state, events.take(from)).open,
    ensures
        ({
            let before = link_after(state, events.take(from));
            let at = link_after(state, events);
            &&& at == LinkState { delay: at.delay, ..before }
            &&& at.delay.reconnect == before.delay.reconnect
        }),
        broadcasts(state, events) == broadcasts(state, events.take(from)),
    decreases events.len(),
{
    if from == events.len() {
        assert(events.take(from) == events);
    } else {
        let fewer = events.drop_last();
        assert(fewer.take(from) == events.take(from));
        assert forall|i: int| from <= i < fewer.len() implies (#[trigger] fewer[i]).0 is OpenFailed
            || fewer[i].0 is Waited by {
            assert(fewer[i] == events[i]);
        }
        failures_change_the_delay_only(state, fewer, from);
        assert(events.last() == events[events.len() - 1]);
    }
}

/// What the clients see of a link that announces, when it is lost and comes
/// back after any number of failed attempts: one line that it was lost, and
/// one that it is back, between what the device sent before and after.
pub proof fn a_lost_link_is_announced(
    state: LinkState,
    loss: LinkEvent,
    attempts: Seq<(LinkEvent, bool)>,
)
    requires
        state.open,
        state.announces,
        state.delay.reconnect,
        is_loss(loss),
        forall|i: int|
            0 <= i < attempts.len() ==> (#[trigger] attempts[i]).0 is OpenFailed
                || attempts[i].0 is Waited,
    ensures
        ({
            let events = seq![(loss, false)] + attempts + seq![(LinkEvent::Opened, false)];
            &&& broadcasts(state, events) == seq![
                encode_utf8(marker_text(Marker::Lost)),
                encode_utf8(marker_text(Marker::Reconnected)),
            ]
            &&& link_after(state, events) == LinkState {
                delay: Delay { reconnect: true, next: INITIAL_BACKOFF },
                announces: true,
                open: true,
                told: false,
            }
        }),
{
    let start = seq![(loss, false)];
    let closed = start + attempts;
    let events = closed + seq![(LinkEvent::Opened, false)];
    assert(start.drop_last() == Seq::<(LinkEvent, bool)>::empty());
    reveal_with_fuel(link_after, 2);
    reveal_with_fuel(broadcasts, 2);
    assert(broadcasts(state, start) == seq![encode_utf8(marker_text(Marker::Lost))]);
    assert(closed.take(1) == start);
    assert forall|i: int| 1 <= i < closed.len() implies (#[trigger] closed[i]).0 is OpenFailed
        || closed[i].0 is Waited by {
        assert(closed[i] == attempts[i - 1]);
    }
    failures_change_the_delay_only(state, closed, 1);
    assert(events.drop_last() == closed);
    assert(events.last() == (LinkEvent::Opened, false));
}

/// The delays are half a second, doubled for each loss in a row, and thirty
/// seconds once that would be exceeded.
pub proof fn delays_are_half_a_second_doubled(losses: nat)
    ensures
        delay_after(losses) == (if 500 * pow2(losses) <= 30_000 {
            500 * pow2(losses)
        } else {
            30_000
        }),
        pow2(losses) >= 1,
    decreases losses,
{
    lemma2_to64();
    if losses > 0 {
        delays_are_half_a_second_doubled((losses - 1) as nat);
        lemma_pow2_unfold(losses);
    }
}

/// A link that is lost, or could not be opened, waits for its delay, and the
/// next delay is twice as long, up to thirty seconds; unless it does not
/// reconnect or the server is stopping, and then it is given up.
pub proof fn a_lost_link_waits(state: LinkState, event: LinkEvent, cancelled: bool)
    requires
        is_loss(event) || event is OpenFailed,
        state.delay.next <= 30_000,
    ensures
        ({
            let (after, effects) = link_step(state, event, cancelled);
            &&& !after.open
            &&& after.announces == state.announces
            &&& after.delay.reconnect == state.delay.reconnect
            &&& state.delay.reconnect && !cancelled ==> {
                &&& effects.last() == LinkEffect::Wait(state.delay.next)
                &&& after.delay.next == (if 2 * state.delay.next <= 30_000 {
                    2 * state.delay.next
                } else {
                    30_000
                })
            }
            &&& !state.delay.reconnect || cancelled ==> effects == seq![LinkEffect::Stop]
                && after.delay == state.delay
        }),
{
}

/// A link that was opened is polled, and its next loss is a first one again.
pub proof fn an_opened_link_starts_over(state: LinkState, cancelled: bool)
    ensures
        ({
            let (after, effects) = link_step(state, LinkEvent::Opened, cancelled);
            &&& after.open
            &&& effects.last() == LinkEffect::Poll
            &&& after.delay == Delay { reconnect: state.delay.reconnect, next: 500 }
            &&& after.announces == state.announces
        }),
{
}

/// What comes from the device is passed on as it is and what is for the device
/// is written as it is, on every link and in every state, and changes nothing.
pub proof fn data_passes_as_it_is(state: LinkState, data: Vec<u8>, cancelled: bool)
    ensures
        link_step(state, LinkEvent::Received(data), cancelled) == (
            state,
            seq![LinkEffect::Broadcast(data@)],
        ),
        link_step(state, LinkEvent::Outgoing(data), cancelled) == (
            state,
            seq![LinkEffect::Write(data@)],
        ),
{
}

/// A link is given up when the server stops or has no more to send, and opened
/// when it has waited.
pub proof fn links_stop_and_open(state: LinkState, cancelled: bool)
    ensures
        link_step(state, LinkEvent::Cancelled, cancelled) == (state, seq![LinkEffect::Stop]),
        link_step(state, LinkEvent::OutgoingClosed, cancelled) == (state, seq![LinkEffect::Stop]),
        link_step(state, LinkEvent::Waited, cancelled) == (state, seq![LinkEffect::Open]),
{
}

/// What is told of a link names what happened to it.
pub proof fn markers_name_what_happened()
    ensures
        marker_text(Marker::Lost) == "\r\n--- connection lost ---\r\n"@,
        marker_text(Marker::Reconnected) == "\r\n--- reconnected ---\r\n"@,
{
}

/// What is told of a link comes before what is done about it, and nothing else is
/// told: that it was lost, if it was open and will be tried again, and that it is
/// back, if it was told that it was lost.
pub proof fn announcements_come_first(state: LinkState, event: LinkEvent, cancelled: bool)
    ensures
        ({
            let (after, effects) = link_step(state, event, cancelled);
            let lost = event is Ended || event is ReadFailed || event is WriteFailed;
            let tell = lost && state.open && state.announces && state.delay.reconnect
                && !cancelled;
            &&& event is Opened ==> {
                &&& !after.told
                &&& state.told ==> effects == seq![
                    LinkEffect::Broadcast(encode_utf8("\r\n--- reconnected ---\r\n"@)),
                    LinkEffect::Poll,
                ]
                &&& !state.told ==> effects == seq![LinkEffect::Poll]
            }
            &&& tell ==> after.told && effects == seq![
                LinkEffect::Broadcast(encode_utf8("\r\n--- connection lost ---\r\n"@)),
                LinkEffect::Wait(state.delay.next),
            ]
            &&& (lost || event is OpenFailed) && !tell ==> after.told == state.told
                && effects.len() == 1
        }),
{
}

/// A connection that is lost is tried again after the delay, unless it is not to
/// be, and the next delay is twice as long, up to thirty seconds.
pub proof fn a_lost_connection_is_tried_again(delay: Delay, cancelled: bool)
    ensures
        ({
            let (next, retry) = after_loss(delay, cancelled);
            &&& next.reconnect == delay.reconnect
            &&& delay.reconnect && !cancelled ==> {
                &&& retry == Retry::After(delay.next)
                &&& 2 * delay.next <= 30_000 ==> next.next == 2 * delay.next
                &&& 2 * delay.next > 30_000 ==> next.next == 30_000
            }
            &&& !delay.reconnect || cancelled ==> retry == Retry::Stop && next == delay
        }),
{
}

/// A link starts closed, with nothing told and the first delay ahead of it.
pub proof fn links_start_closed(reconnect: bool, announces: bool)
    ensures
        ({
            let link = closed_link(reconnect, announces);
            &&& !link.open
            &&& !link.told
            &&& link.announces == announces
            &&& link.delay.reconnect == reconnect
            &&& link.delay.next == 500
        }),
{
}

/// Delays run as they should for whoever keeps them: half a second at first and
/// after a success, and what was next after a loss.
pub proof fn backoffs_follow_the_schedule(reconnect: bool, cancelled: bool, retry: Retry)
    ensures
        forall|fresh: Backoff| #[trigger] call_ensures(Backoff::new, (reconnect,), fresh) ==> {
            &&& fresh@.reconnect == reconnect
            &&& fresh@.next == 500
        },
        forall|backoff: &mut Backoff| #[trigger] call_ensures(Backoff::opened, (backoff,), ()) ==> {
            &&& final(backoff)@.reconnect == backoff@.reconnect
            &&& final(backoff)@.next == 500
        },
        forall|backoff: &mut Backoff| #[trigger]
            call_ensures(Backoff::lost, (backoff, cancelled), retry) ==> {
                let again = backoff@.reconnect && !cancelled;
                &&& final(backoff)@.reconnect == backoff@.reconnect
                &&& again ==> retry == Retry::After(backoff@.next)
                &&& again && 2 * backoff@.next <= 30_000 ==> final(backoff)@.next == 2
                    * backoff@.next
                &&& again && 2 * backoff@.next > 30_000 ==> final(backoff)@.next == 30_000
                &&& !again ==> retry == Retry::Stop && final(backoff)@.next == backoff@.next
            },
{
}

/// A link passes data on in both directions as it is, and waits or ends when it is
/// lost.
pub proof fn links_do_what_they_should(
    event: LinkEvent,
    cancelled: bool,
    actions: Vec<LinkAction>,
)
    ensures
        forall|link: &mut DeviceLink| #[trigger]
            call_ensures(DeviceLink::step, (link, event, cancelled), actions) ==> {
                let done = effects(actions@);
                let again = link@.delay.reconnect && !cancelled;
                let lost = event is Ended || event is ReadFailed || event is WriteFailed;
                &&& event matches LinkEvent::Received(data) ==> final(link)@ == link@ && done
                    == seq![LinkEffect::Broadcast(data@)]
                &&& event matches LinkEvent::Outgoing(data) ==> final(link)@ == link@ && done
                    == seq![LinkEffect::Write(data@)]
                &&& event is OutgoingClosed || event is Cancelled ==> done == seq![
                    LinkEffect::Stop,
                ]
                &&& event is Waited ==> done == seq![LinkEffect::Open]
                &&& event is Opened ==> final(link)@.open && done.last() == LinkEffect::Poll
                &&& (lost || event is OpenFailed) ==> !final(link)@.open
                &&& (lost || event is OpenFailed) && again ==> done.last() == LinkEffect::Wait(
                    link@.delay.next,
                )
                &&& (lost || event is OpenFailed) && !again ==> done == seq![LinkEffect::Stop]
                &&& lost && again && link@.open && link@.announces ==> done[0]
                    == LinkEffect::Broadcast(
                    encode_utf8("\r\n--- connection lost ---\r\n"@),
                )
                &&& event is Opened && link@.told ==> done[0] == LinkEffect::Broadcast(
                    encode_utf8("\r\n--- reconnected ---\r\n"@),
                )
            },
{
}

} // verus!
