//! What a benchmark is run with, how the server's bootstrap is asked for, and
//! what the measured arms have to show.
use crate::clock::{seconds, Duration, Instant};
use crate::measure::BlackoutRecord;
use crate::metrics::ArmMetrics;
use crate::script::DEFAULT_KEYSTROKES;
use crate::text::{chars_of, decimal, decimal_text, parse_number, parsed};
use vstd::prelude::*;
use vstd::string::StringExecFns;

verus! {

/// Windows of the outage arm, in seconds.
pub const SHORT_BLACKOUT_SECS: u64 = 5;

pub const LONG_BLACKOUT_SECS: u64 = 20;

/// Number of those windows.
pub const BLACKOUTS: usize = 2;

/// How long the server may take to answer its first bootstrap.
pub const BOOTSTRAP_TIMEOUT_SECS: u64 = 30;

/// Pause between two tries.
pub const BOOTSTRAP_RETRY_MS: u64 = 100;

/// How long one answer may take.
pub const BOOTSTRAP_REPLY_SECS: u64 = 10;

/// A positive number that the setting writes, or what stands in for it.
pub open spec fn setting(value: Option<Seq<char>>, max: int, default: int) -> int {
    match value {
        Some(text) => match parsed(text, 10, max) {
            Some(number) => if number > 0 {
                number
            } else {
                default
            },
            None => default,
        },
        None => default,
    }
}

fn positive_number(value: Option<&str>, max: u64) -> (number: Option<u64>)
    ensures
        match number {
            Some(n) => n > 0 && value is Some && parsed(value->0@, 10, max as int) == Some(
                n as int,
            ),
            None => value is None || parsed(value->0@, 10, max as int) is None || parsed(
                value->0@,
                10,
                max as int,
            ) == Some(0int),
        },
{
    match value {
        Some(text) => match parse_number(chars_of(text).as_slice(), 10, max) {
            Some(number) => if number > 0 {
                Some(number)
            } else {
                None
            },
            None => None,
        },
        None => None,
    }
}

/// The text of a setting, if it is there.
pub open spec fn read(value: Option<&str>) -> Option<Seq<char>> {
    match value {
        Some(text) => Some(text@),
        None => None,
    }
}

/// Markers to type per arm, from the setting.
pub fn keystrokes(value: Option<&str>) -> (count: usize)
    ensures
        count == setting(read(value), usize::MAX as int, DEFAULT_KEYSTROKES as int),
{
    match positive_number(value, usize::MAX as u64) {
        Some(number) => number as usize,
        None => DEFAULT_KEYSTROKES,
    }
}

/// A number of seconds, from the setting.
pub fn env_seconds(value: Option<&str>, default: u64) -> (secs: u64)
    ensures
        secs == setting(read(value), u64::MAX as int, default as int),
{
    match positive_number(value, u64::MAX) {
        Some(number) => number,
        None => default,
    }
}

/// Name of the directory that holds everything a benchmark's server writes.
pub fn bench_root_name(process: u32, stamp: u128) -> (name: String)
    ensures
        name@ == "herdr-quic-bench-"@ + decimal(process as nat) + "-"@ + decimal(stamp as nat),
{
    let mut name = "herdr-quic-bench-".to_owned();
    name.append(decimal_text(process as u128).as_str());
    name.append("-");
    name.append(decimal_text(stamp).as_str());
    name
}

/// How a bridge reaches the server.
#[derive(Clone, Copy, Debug, PartialEq, Eq, Structural)]
pub enum RemoteTransport {
    Auto,
    Other,
}

/// What a bridge is started with.
pub struct QuicBridgeConfig {
    pub target: String,
    /// The server's program on the other machine.
    pub remote_herdr: String,
    pub session: String,
    pub ssh_options: Option<String>,
    pub noninteractive: bool,
    pub transport: RemoteTransport,
    pub logical_client_id: Vec<u8>,
}

/// What a benchmark is about.
#[derive(Clone, Copy, Debug, PartialEq, Eq, Structural)]
pub enum BenchKind {
    /// A shaped link.
    Bench,
    /// A change of addresses.
    Scenario,
}

/// The bridge that a benchmark dials through. It never runs SSH: its credential
/// is planted, so the program it names need not exist.
pub open spec fn dials_planted(config: QuicBridgeConfig) -> bool {
    &&& config.remote_herdr@ == "/nonexistent/herdr"@
    &&& config.ssh_options is None
    &&& config.noninteractive
    &&& config.transport == RemoteTransport::Auto
}

/// Under which name the credential is planted.
pub open spec fn bench_target(kind: BenchKind, process: u32) -> Seq<char> {
    (match kind {
        BenchKind::Bench => "quic-bench-"@,
        BenchKind::Scenario => "quic-scenario-"@,
    }) + decimal(process as nat)
}

/// What a benchmark's credential is planted for.
pub fn bench_bridge_config(
    kind: BenchKind,
    process: u32,
    session: String,
    logical_client_id: Vec<u8>,
) -> (config: QuicBridgeConfig)
    ensures
        dials_planted(config),
        config.target@ == bench_target(kind, process),
        config.session@ == session@,
        config.logical_client_id@ == logical_client_id@,
{
    let mut target = match kind {
        BenchKind::Bench => "quic-bench-".to_owned(),
        BenchKind::Scenario => "quic-scenario-".to_owned(),
    };
    target.append(decimal_text(process as u128).as_str());
    QuicBridgeConfig {
        target,
        remote_herdr: "/nonexistent/herdr".to_owned(),
        session,
        ssh_options: None,
        noninteractive: true,
        transport: RemoteTransport::Auto,
        logical_client_id,
    }
}

/// What to start one arm's bridge with. `config` is what the credential is
/// planted for, so the arm keeps its target and session.
pub fn bridge_arm(config: &QuicBridgeConfig) -> (arm: QuicBridgeConfig)
    ensures
        dials_planted(arm),
        arm.target@ == config.target@,
        arm.session@ == config.session@,
        arm.logical_client_id@ == config.logical_client_id@,
{
    QuicBridgeConfig {
        target: config.target.clone(),
        remote_herdr: "/nonexistent/herdr".to_owned(),
        session: config.session.clone(),
        ssh_options: None,
        noninteractive: true,
        transport: RemoteTransport::Auto,
        logical_client_id: config.logical_client_id.clone(),
    }
}

/// What the server answered to a bootstrap.
pub enum BootstrapReply<R> {
    Record(R),
    /// No record, and perhaps why.
    Refused(Option<String>),
    /// Another message, as it is shown.
    Other(String),
}

/// The record that the server minted, or why there is none.
pub fn bootstrap_outcome<R>(reply: BootstrapReply<R>) -> (outcome: Result<R, String>)
    ensures
        match reply {
            BootstrapReply::Record(record) => outcome == Ok::<R, String>(record),
            BootstrapReply::Refused(Some(words)) => outcome matches Err(detail) && detail@
                == words@,
            BootstrapReply::Refused(None) => outcome matches Err(detail) && detail@
                == "bootstrap refused"@,
            BootstrapReply::Other(shown) => outcome matches Err(detail) && detail@
                == "unexpected bootstrap response: "@ + shown@,
        },
{
    match reply {
        BootstrapReply::Record(record) => Ok(record),
        BootstrapReply::Refused(Some(words)) => Err(words),
        BootstrapReply::Refused(None) => Err("bootstrap refused".to_owned()),
        BootstrapReply::Other(shown) => {
            let mut detail = "unexpected bootstrap response: ".to_owned();
            detail.append(shown.as_str());
            Err(detail)
        },
    }
}

/// Asking for a bootstrap until the server answers. It is also the sign that the
/// server is ready.
pub struct BootstrapWait {
    pub deadline: Instant,
    /// Why the last try failed.
    pub last: String,
}

impl BootstrapWait {
    pub fn begin(now: Instant) -> (wait: BootstrapWait)
        requires
            now.reaches(seconds(BOOTSTRAP_TIMEOUT_SECS as int)),
        ensures
            wait.deadline.nanos == now.nanos + seconds(BOOTSTRAP_TIMEOUT_SECS as int),
            wait.last@ == "server never accepted a connection"@,
    {
        BootstrapWait {
            deadline: now.plus(Duration::from_secs(BOOTSTRAP_TIMEOUT_SECS)),
            last: "server never accepted a connection".to_owned(),
        }
    }

    /// Whether to try (again).
    pub fn goes_on(&self, now: Instant) -> (goes_on: bool)
        ensures
            goes_on == (now.nanos < self.deadline.nanos),
    {
        now.nanos < self.deadline.nanos
    }

    /// A try failed.
    pub fn failed(&mut self, detail: String)
        ensures
            final(self).deadline == old(self).deadline,
            final(self).last@ == detail@,
    {
        self.last = detail;
    }

    /// What to say when no try succeeded.
    pub fn complaint(&self) -> (words: String)
        ensures
            words@ == "remote bootstrap never succeeded: "@ + self.last@,
    {
        let mut words = "remote bootstrap never succeeded: ".to_owned();
        words.append(self.last.as_str());
        words
    }
}

/// What a benchmark fell short of.
#[derive(Clone, Copy, Debug, PartialEq, Eq, Structural)]
pub enum BenchShortfall {
    /// This arm lost keystrokes.
    LostKeystrokes(usize),
    /// This arm measured no keystrokes.
    NothingMeasured(usize),
    /// Not all outages were measured.
    UnmeasuredBlackouts,
    /// No frame arrived after this outage.
    NoFrame(usize),
    /// The keystroke typed during this outage was never echoed.
    NoEcho(usize),
}

/// What is wrong with the arm of this number.
pub open spec fn arm_trouble(arm: ArmMetrics, index: int) -> Option<BenchShortfall> {
    if arm.lost != 0 {
        Some(BenchShortfall::LostKeystrokes(index as usize))
    } else if arm.latencies@.len() == 0 {
        Some(BenchShortfall::NothingMeasured(index as usize))
    } else {
        None
    }
}

/// What is wrong with the outage of this number.
pub open spec fn blackout_trouble(blackout: BlackoutRecord, index: int) -> Option<BenchShortfall> {
    if blackout.recovery is None {
        Some(BenchShortfall::NoFrame(index as usize))
    } else if !blackout.echoed {
        Some(BenchShortfall::NoEcho(index as usize))
    } else {
        None
    }
}

/// Whether all arms before this one are in order.
pub open spec fn arms_fine(arms: Seq<ArmMetrics>, before: int) -> bool {
    forall|i: int| 0 <= i < before ==> arm_trouble(#[trigger] arms[i], i) is None
}

/// Whether all outages before this one are in order.
pub open spec fn blackouts_fine(blackouts: Seq<BlackoutRecord>, before: int) -> bool {
    forall|i: int| 0 <= i < before ==> blackout_trouble(#[trigger] blackouts[i], i) is None
}

/// The first thing wrong with a benchmark: no arm may lose a keystroke or
/// measure none, and both outages have to show a frame and an echo.
pub fn bench_shortfall(arms: &Vec<ArmMetrics>, blackouts: &Vec<BlackoutRecord>) -> (shortfall:
    Option<BenchShortfall>)
    ensures
        match shortfall {
            None => {
                &&& arms_fine(arms@, arms@.len() as int)
                &&& blackouts@.len() == BLACKOUTS
                &&& blackouts_fine(blackouts@, blackouts@.len() as int)
            },
            Some(BenchShortfall::LostKeystrokes(index)) | Some(
                BenchShortfall::NothingMeasured(index),
            ) => {
                &&& index < arms@.len()
                &&& arm_trouble(arms@[index as int], index as int) == shortfall
                &&& arms_fine(arms@, index as int)
            },
            Some(BenchShortfall::UnmeasuredBlackouts) => {
                &&& arms_fine(arms@, arms@.len() as int)
                &&& blackouts@.len() != BLACKOUTS
            },
            Some(BenchShortfall::NoFrame(index)) | Some(BenchShortfall::NoEcho(index)) => {
                &&& arms_fine(arms@, arms@.len() as int)
                &&& blackouts@.len() == BLACKOUTS
                &&& index < blackouts@.len()
                &&& blackout_trouble(blackouts@[index as int], index as int) == shortfall
                &&& blackouts_fine(blackouts@, index as int)
            },
        },
{
    let mut index: usize = 0;
    while index < arms.len()
        invariant
            index <= arms@.len(),
            arms_fine(arms@, index as int),
        decreases arms@.len() - index,
    {
        let arm = &arms[index];
        assert(*arm == arms@[index as int]);
        if arm.lost != 0 {
            return Some(BenchShortfall::LostKeystrokes(index));
        }
        if arm.latencies.len() == 0 {
            return Some(BenchShortfall::NothingMeasured(index));
        }
        index = index + 1;
    }
    if blackouts.len() != BLACKOUTS {
        return Some(BenchShortfall::UnmeasuredBlackouts);
    }
    index = 0;
    while index < blackouts.len()
        invariant
            index <= blackouts@.len(),
            arms_fine(arms@, arms@.len() as int),
            blackouts@.len() == BLACKOUTS,
            blackouts_fine(blackouts@, index as int),
        decreases blackouts@.len() - index,
    {
        let blackout = &blackouts[index];
        assert(*blackout == blackouts@[index as int]);
        if blackout.recovery.is_none() {
            return Some(BenchShortfall::NoFrame(index));
        }
        if !blackout.echoed {
            return Some(BenchShortfall::NoEcho(index));
        }
        index = index + 1;
    }
    None
}

} // verus!
