//! One flap of the address-change scenario: the client's address dies under a
//! live connection and another one appears.
use crate::clock::{seconds, Duration};
use crate::measure::{PathProbe, ProbeStage, TypingAction};
use crate::network::{
    blackhole_command, client, listed, Address, IpCommand, ScenarioNetwork, CLIENT_ADDRESSES,
    FLAP_GAP_SECS, FLAP_RECOVERY_BUDGET_SECS,
};
use crate::screen::{digit_marker, MARKER_LENGTH};
use crate::script::FLAPS;
use crate::text::zero_padded;
use vstd::prelude::*;

verus! {

/// Variants of the scenario.
pub const FLAP_VARIANTS: usize = 2;

/// What a flap is going to do.
pub struct FlapPlan {
    pub variant: &'static str,
    pub from: Address,
    pub to: Address,
    /// Which client address to raise.
    pub next: usize,
    /// What is typed while the address is dead.
    pub marker: String,
}

impl FlapPlan {
    /// Plans the flap of this number. Its marker is made of digits, so it can
    /// never be confused with a letter marker.
    pub fn new(network: &ScenarioNetwork, variant: &'static str, index: usize) -> (plan: FlapPlan)
        requires
            network.wf(),
            index < u64::MAX,
        ensures
            plan.variant@ == variant@,
            plan.from == client(network.current as int),
            plan.to == client(network.next()),
            plan.next == network.next(),
            plan.next < CLIENT_ADDRESSES,
            plan.marker@ == zero_padded((index + 1) as nat, MARKER_LENGTH as nat),
    {
        let next: usize = network.next_client();
        let raised = ScenarioNetwork { current: next };
        FlapPlan {
            variant,
            from: network.client_address(),
            to: raised.client_address(),
            next,
            marker: digit_marker(index as u64 + 1),
        }
    }

    /// The probe of the path that the flap kills: its marker is typed into the
    /// gap between the two addresses.
    pub fn probe(&self) -> (begun: (PathProbe, TypingAction))
        ensures
            begun.0.marker@ == self.marker@,
            begun.0.window.nanos == seconds(FLAP_GAP_SECS as int),
            begun.0.stage == ProbeStage::Cutting,
            begun.0.recovery is None,
            begun.0.echo is None,
            begun.1 is CutPath,
    {
        PathProbe::begin(self.marker.clone(), Duration::from_secs(FLAP_GAP_SECS))
    }

    /// What the flap showed.
    pub fn record(&self, dead_ports: Vec<u16>, probe: &PathProbe) -> (record: FlapRecord)
        ensures
            record.variant@ == self.variant@,
            record.from == self.from,
            record.to == self.to,
            record.dead_ports@ == dead_ports@,
            record.recovery == probe.recovery,
            record.echo == probe.echo,
    {
        FlapRecord {
            variant: self.variant,
            from: self.from,
            to: self.to,
            dead_ports,
            recovery: probe.recovery,
            echo: probe.echo,
        }
    }
}

/// Keeps the namespace from answering any of the client's current ports. With no
/// port there is nothing to do it with.
pub fn blackhole_replies(network: &ScenarioNetwork, ports: &Vec<u16>) -> (commands: Option<
    Vec<IpCommand>,
>)
    ensures
        match commands {
            None => ports@.len() == 0,
            Some(commands) => ports@.len() > 0 && listed(commands@) == Seq::new(
                ports@.len(),
                |i: int| blackhole_command(ports@[i]),
            ),
        },
{
    if ports.len() == 0 {
        return None;
    }
    let mut commands: Vec<IpCommand> = Vec::new();
    let mut index: usize = 0;
    while index < ports.len()
        invariant
            index <= ports@.len(),
            commands@.len() == index,
            forall|i: int|
                0 <= i < index ==> (#[trigger] commands@[i])@ == blackhole_command(ports@[i]),
        decreases ports@.len() - index,
    {
        commands.push(network.blackhole_replies_to_port(ports[index]));
        index = index + 1;
    }
    assert(listed(commands@) =~= Seq::new(
        ports@.len(),
        |i: int| blackhole_command(ports@[i]),
    ));
    Some(commands)
}

/// What a flap showed.
pub struct FlapRecord {
    pub variant: &'static str,
    pub from: Address,
    pub to: Address,
    /// Ports that the namespace did not answer any more before this flap.
    pub dead_ports: Vec<u16>,
    /// New address raised to first frame from the server.
    pub recovery: Option<Duration>,
    /// New address raised to echo of the marker typed while the address was
    /// dead.
    pub echo: Option<Duration>,
}

impl FlapRecord {
    pub fn within_budget(&self) -> (within: bool)
        ensures
            within == (self.recovery matches Some(recovery) && recovery.nanos <= seconds(
                FLAP_RECOVERY_BUDGET_SECS as int,
            )),
    {
        match self.recovery {
            Some(recovery) => recovery.nanos
                <= Duration::from_secs(FLAP_RECOVERY_BUDGET_SECS).nanos,
            None => false,
        }
    }
}

/// What a run of flaps fell short of.
#[derive(Clone, Copy, Debug, PartialEq, Eq, Structural)]
pub enum FlapShortfall {
    /// Not every flap was measured.
    Unmeasured,
    /// No frame arrived after the new address of this flap came up.
    NoFrame(usize),
    /// The keystroke typed while the address was dead was never echoed in this
    /// flap.
    NoEcho(usize),
}

/// What is wrong with the flap of this number.
pub open spec fn flap_trouble(flap: FlapRecord, index: int) -> Option<FlapShortfall> {
    if flap.recovery is None {
        Some(FlapShortfall::NoFrame(index as usize))
    } else if flap.echo is None {
        Some(FlapShortfall::NoEcho(index as usize))
    } else {
        None
    }
}

/// The first thing wrong with a run of flaps: all of them have to be measured,
/// each with a frame and an echo.
pub fn flap_shortfall(flaps: &Vec<FlapRecord>) -> (shortfall: Option<FlapShortfall>)
    ensures
        match shortfall {
            None => flaps@.len() == FLAP_VARIANTS * FLAPS && forall|i: int|
                0 <= i < flaps@.len() ==> flap_trouble(#[trigger] flaps@[i], i) is None,
            Some(FlapShortfall::Unmeasured) => flaps@.len() != FLAP_VARIANTS * FLAPS,
            Some(FlapShortfall::NoFrame(index)) | Some(FlapShortfall::NoEcho(index)) => {
                &&& flaps@.len() == FLAP_VARIANTS * FLAPS
                &&& index < flaps@.len()
                &&& flap_trouble(flaps@[index as int], index as int) == shortfall
                &&& forall|i: int|
                    0 <= i < index ==> flap_trouble(#[trigger] flaps@[i], i) is None
            },
        },
{
    if flaps.len() != FLAP_VARIANTS * FLAPS {
        return Some(FlapShortfall::Unmeasured);
    }
    let mut index: usize = 0;
    while index < flaps.len()
        invariant
            index <= flaps@.len(),
            flaps@.len() == FLAP_VARIANTS * FLAPS,
            forall|i: int| 0 <= i < index ==> flap_trouble(#[trigger] flaps@[i], i) is None,
        decreases flaps@.len() - index,
    {
        let flap = &flaps[index];
        assert(*flap == flaps@[index as int]);
        if flap.recovery.is_none() {
            return Some(FlapShortfall::NoFrame(index));
        }
        if flap.echo.is_none() {
            return Some(FlapShortfall::NoEcho(index));
        }
        index = index + 1;
    }
    None
}

} // verus!
