//! The network of the address-change scenario, as the commands that `ip` is to
//! be run with.
//!
//! The server runs inside a network namespace; the bridge stays in the root
//! namespace and reaches it over a pair of links, so the source address it is
//! seen with is whatever address the root end carries. The scenario deletes that
//! address under a live connection and raises another one.
use crate::text::{decimal, decimal_text};
use vstd::prelude::*;
use vstd::string::StringExecFns;

verus! {

/// Number of addresses that the root end can carry.
pub const CLIENT_ADDRESSES: usize = 3;

/// Dead time between the old address vanishing and the new one appearing: a
/// lease on a new network takes at least this long.
pub const FLAP_GAP_SECS: u64 = 1;

/// The path is live within this long of the address event.
pub const FLAP_RECOVERY_BUDGET_SECS: u64 = 1;

/// An IPv4 address, by its four numbers.
#[derive(Clone, Copy, Debug, PartialEq, Eq, Structural)]
pub struct Address {
    pub a: u8,
    pub b: u8,
    pub c: u8,
    pub d: u8,
}

impl Address {
    /// The first three numbers, with dots between.
    pub open spec fn prefix(self) -> Seq<char> {
        decimal(self.a as nat) + "."@ + decimal(self.b as nat) + "."@ + decimal(self.c as nat)
    }

    /// The four numbers, with dots between.
    pub open spec fn dotted(self) -> Seq<char> {
        self.prefix() + "."@ + decimal(self.d as nat)
    }

    /// The network of 256 addresses around this one.
    pub open spec fn subnet(self) -> Seq<char> {
        self.prefix() + ".0/24"@
    }

    fn prefix_text(&self) -> (text: String)
        ensures
            text@ == self.prefix(),
    {
        let mut text = decimal_text(self.a as u128);
        text.append(".");
        text.append(decimal_text(self.b as u128).as_str());
        text.append(".");
        text.append(decimal_text(self.c as u128).as_str());
        text
    }

    pub fn text(&self) -> (text: String)
        ensures
            text@ == self.dotted(),
    {
        let mut text = self.prefix_text();
        text.append(".");
        text.append(decimal_text(self.d as u128).as_str());
        text
    }

    /// The address with the length of its network's prefix.
    fn interface_text(&self) -> (text: String)
        ensures
            text@ == self.dotted() + "/24"@,
    {
        let mut text = self.text();
        text.append("/24");
        text
    }

    fn subnet_text(&self) -> (text: String)
        ensures
            text@ == self.subnet(),
    {
        let mut text = self.prefix_text();
        text.append(".0/24");
        text
    }
}

pub open spec fn server() -> Address {
    Address { a: 10, b: 253, c: 1, d: 2 }
}

/// The address of the server.
pub fn server_address() -> (address: Address)
    ensures
        address == server(),
{
    Address { a: 10, b: 253, c: 1, d: 2 }
}

/// The root end starts on the server's subnet and then roams between two
/// others.
pub open spec fn client(index: int) -> Address {
    if index == 0 {
        Address { a: 10, b: 253, c: 1, d: 1 }
    } else if index == 1 {
        Address { a: 10, b: 253, c: 3, d: 1 }
    } else {
        Address { a: 10, b: 253, c: 4, d: 1 }
    }
}

fn client_address_at(index: usize) -> (address: Address)
    requires
        index < CLIENT_ADDRESSES,
    ensures
        address == client(index as int),
{
    if index == 0 {
        Address { a: 10, b: 253, c: 1, d: 1 }
    } else if index == 1 {
        Address { a: 10, b: 253, c: 3, d: 1 }
    } else {
        Address { a: 10, b: 253, c: 4, d: 1 }
    }
}

/// One run of `ip`.
pub struct IpCommand {
    pub args: Vec<String>,
    /// Whether a failure matters.
    pub required: bool,
}

impl View for IpCommand {
    type V = (Seq<Seq<char>>, bool);

    open spec fn view(&self) -> (Seq<Seq<char>>, bool) {
        (Seq::new(self.args@.len(), |i: int| self.args@[i]@), self.required)
    }
}

/// The commands, as their words and whether a failure matters.
pub open spec fn listed(commands: Seq<IpCommand>) -> Seq<(Seq<Seq<char>>, bool)> {
    Seq::new(commands.len(), |i: int| commands[i]@)
}

impl IpCommand {
    fn new(required: bool) -> (command: IpCommand)
        ensures
            command@ == (Seq::<Seq<char>>::empty(), required),
    {
        let command = IpCommand { args: Vec::new(), required };
        assert(command@.0 =~= Seq::<Seq<char>>::empty());
        command
    }

    /// The command with one more argument.
    fn arg(self, word: &str) -> (command: IpCommand)
        ensures
            command@ == (self@.0.push(word@), self@.1),
    {
        let mut args = self.args;
        args.push(word.to_owned());
        let command = IpCommand { args, required: self.required };
        assert(command@.0 =~= self@.0.push(word@));
        command
    }
}

/// A command that has to succeed.
fn ip() -> (command: IpCommand)
    ensures
        command@ == (Seq::<Seq<char>>::empty(), true),
{
    IpCommand::new(true)
}

/// A command whose failure is ignored.
fn ip_ignore_failure() -> (command: IpCommand)
    ensures
        command@ == (Seq::<Seq<char>>::empty(), false),
{
    IpCommand::new(false)
}

/// Removes what an earlier run may have left behind. Deleting the namespace
/// deletes the pair of links with it, and the root end's addresses and routes
/// with the link.
pub open spec fn teardown_commands() -> Seq<(Seq<Seq<char>>, bool)> {
    seq![
        (seq!["netns"@, "del"@, "herdr-bench"@], false),
        (seq!["link"@, "del"@, "hb-root"@], false),
    ]
}

/// Makes the namespace and the pair of links, with the server's address and a
/// return route for each network that the client roams to.
pub open spec fn setup_commands() -> Seq<(Seq<Seq<char>>, bool)> {
    seq![
        (seq!["netns"@, "add"@, "herdr-bench"@], true),
        (
            seq!["link"@, "add"@, "hb-root"@, "type"@, "veth"@, "peer"@, "name"@, "hb-ns"@],
            true,
        ),
        (seq!["link"@, "set"@, "hb-ns"@, "netns"@, "herdr-bench"@], true),
        (seq!["link"@, "set"@, "hb-root"@, "up"@], true),
        (seq!["-n"@, "herdr-bench"@, "link"@, "set"@, "lo"@, "up"@], true),
        (seq!["-n"@, "herdr-bench"@, "link"@, "set"@, "hb-ns"@, "up"@], true),
        (
            seq![
                "-n"@,
                "herdr-bench"@,
                "addr"@,
                "add"@,
                server().dotted() + "/24"@,
                "dev"@,
                "hb-ns"@,
            ],
            true,
        ),
        return_route(1),
        return_route(2),
    ]
}

/// The namespace's way back to the client's network.
pub open spec fn return_route(index: int) -> (Seq<Seq<char>>, bool) {
    (
        seq![
            "-n"@,
            "herdr-bench"@,
            "route"@,
            "add"@,
            client(index).subnet(),
            "dev"@,
            "hb-ns"@,
        ],
        true,
    )
}

/// Raises a client address. The server's subnet is only directly connected for
/// the first one; the others get a route to it that prefers them as source.
pub open spec fn raise_commands(index: int) -> Seq<(Seq<Seq<char>>, bool)> {
    let added = seq![
        (
            seq!["addr"@, "add"@, client(index).dotted() + "/24"@, "dev"@, "hb-root"@],
            true,
        ),
    ];
    if index == 0 {
        added
    } else {
        added.push(
            (
                seq![
                    "route"@,
                    "replace"@,
                    server().subnet(),
                    "dev"@,
                    "hb-root"@,
                    "src"@,
                    client(index).dotted(),
                ],
                true,
            ),
        )
    }
}

/// Takes a client address down.
pub open spec fn drop_command(index: int) -> (Seq<Seq<char>>, bool) {
    (seq!["addr"@, "del"@, client(index).dotted() + "/24"@, "dev"@, "hb-root"@], true)
}

/// Keeps the namespace from answering a port.
pub open spec fn blackhole_command(port: u16) -> (Seq<Seq<char>>, bool) {
    (
        seq![
            "-n"@,
            "herdr-bench"@,
            "rule"@,
            "add"@,
            "dport"@,
            decimal(port as nat),
            "blackhole"@,
        ],
        true,
    )
}

/// The pair of links and the namespace.
#[derive(Clone, Copy, Debug, PartialEq, Eq, Structural)]
pub struct ScenarioNetwork {
    /// Which of the client addresses the root end carries.
    pub current: usize,
}

impl ScenarioNetwork {
    pub open spec fn wf(self) -> bool {
        self.current < CLIENT_ADDRESSES
    }

    /// The network with its first client address, and how to make it.
    pub fn create() -> (created: (ScenarioNetwork, Vec<IpCommand>))
        ensures
            created.0.wf(),
            created.0.current == 0,
            listed(created.1@) == teardown_commands() + setup_commands() + raise_commands(0),
    {
        let network = ScenarioNetwork { current: 0 };
        let mut commands = network.teardown();
        let ghost torn_down = commands@;
        let mut making = setup();
        let ghost made = making@;
        commands.append(&mut making);
        let mut raising = network.raise_client_address(0);
        let ghost raised = raising@;
        commands.append(&mut raising);
        assert(listed(commands@) =~= listed(torn_down) + listed(made) + listed(raised));
        (network, commands)
    }

    /// The namespace's file.
    pub fn path() -> (path: String)
        ensures
            path@ == "/var/run/netns/herdr-bench"@,
    {
        "/var/run/netns/herdr-bench".to_owned()
    }

    /// The address that the root end carries.
    pub fn client_address(&self) -> (address: Address)
        requires
            self.wf(),
        ensures
            address == client(self.current as int),
    {
        client_address_at(self.current)
    }

    /// The old address dies: its connected route and every route preferring it
    /// as source go with it, so the server is unreachable until another one is
    /// raised.
    pub fn drop_client_address(&self) -> (command: IpCommand)
        requires
            self.wf(),
        ensures
            command@ == drop_command(self.current as int),
    {
        let address = self.client_address().interface_text();
        let command = ip().arg("addr").arg("del").arg(address.as_str()).arg("dev").arg("hb-root");
        assert(command@.0 =~= drop_command(self.current as int).0);
        command
    }

    /// How to make a new address appear. It is the client's once
    /// [`Self::client_address_raised`] was told that all of it succeeded.
    pub fn raise_client_address(&self, index: usize) -> (commands: Vec<IpCommand>)
        requires
            index < CLIENT_ADDRESSES,
        ensures
            listed(commands@) == raise_commands(index as int),
    {
        let address = client_address_at(index);
        let mut commands: Vec<IpCommand> = Vec::new();
        let interface = address.interface_text();
        commands.push(
            ip().arg("addr").arg("add").arg(interface.as_str()).arg("dev").arg("hb-root"),
        );
        assert(commands@[0]@.0 =~= raise_commands(index as int)[0].0);
        if index != 0 {
            let subnet = server_address().subnet_text();
            commands.push(
                ip().arg("route").arg("replace").arg(subnet.as_str()).arg("dev").arg("hb-root").arg(
                    "src",
                ).arg(address.text().as_str()),
            );
            assert(commands@[1]@.0 =~= raise_commands(index as int)[1].0);
        }
        assert(listed(commands@) =~= raise_commands(index as int));
        commands
    }

    /// The commands that raise this address were run. Only if every one of them
    /// succeeded does the client have it.
    pub fn client_address_raised(&mut self, index: usize, succeeded: bool)
        requires
            old(self).wf(),
            index < CLIENT_ADDRESSES,
        ensures
            final(self).wf(),
            final(self).current == if succeeded {
                index
            } else {
                old(self).current
            },
    {
        if succeeded {
            self.current = index;
        }
    }

    /// From now on the namespace drops every datagram it would send to `port`,
    /// whatever the destination address: the client's current address and port
    /// are dead the way a NAT mapping is once the path behind it is gone.
    pub fn blackhole_replies_to_port(&self, port: u16) -> (command: IpCommand)
        ensures
            command@ == blackhole_command(port),
    {
        let number = decimal_text(port as u128);
        let command = ip().arg("-n").arg("herdr-bench").arg("rule").arg("add").arg("dport").arg(
            number.as_str(),
        ).arg("blackhole");
        assert(command@.0 =~= blackhole_command(port).0);
        command
    }

    /// How to remove the network again.
    pub fn teardown(&self) -> (commands: Vec<IpCommand>)
        ensures
            listed(commands@) == teardown_commands(),
    {
        let mut commands: Vec<IpCommand> = Vec::new();
        commands.push(ip_ignore_failure().arg("netns").arg("del").arg("herdr-bench"));
        commands.push(ip_ignore_failure().arg("link").arg("del").arg("hb-root"));
        assert(commands@[0]@.0 =~= teardown_commands()[0].0);
        assert(commands@[1]@.0 =~= teardown_commands()[1].0);
        assert(listed(commands@) =~= teardown_commands());
        commands
    }

    /// Which address to raise next: the first is only for the start.
    pub open spec fn next(self) -> int {
        self.current as int % (CLIENT_ADDRESSES - 1) + 1
    }

    pub fn next_client(&self) -> (index: usize)
        ensures
            index == self.next(),
            index < CLIENT_ADDRESSES,
    {
        self.current % (CLIENT_ADDRESSES - 1) + 1
    }
}

fn route_back(index: usize) -> (command: IpCommand)
    requires
        index < CLIENT_ADDRESSES,
    ensures
        command@ == return_route(index as int),
{
    let subnet = client_address_at(index).subnet_text();
    let command = ip().arg("-n").arg("herdr-bench").arg("route").arg("add").arg(
        subnet.as_str(),
    ).arg("dev").arg("hb-ns");
    assert(command@.0 =~= return_route(index as int).0);
    command
}

fn setup() -> (commands: Vec<IpCommand>)
    ensures
        listed(commands@) == setup_commands(),
{
    let mut commands: Vec<IpCommand> = Vec::new();
    let ghost wanted = setup_commands();
    commands.push(ip().arg("netns").arg("add").arg("herdr-bench"));
    assert(commands@[0]@.0 =~= wanted[0].0);
    commands.push(
        ip().arg("link").arg("add").arg("hb-root").arg("type").arg("veth").arg("peer").arg(
            "name",
        ).arg("hb-ns"),
    );
    assert(commands@[1]@.0 =~= wanted[1].0);
    commands.push(ip().arg("link").arg("set").arg("hb-ns").arg("netns").arg("herdr-bench"));
    assert(commands@[2]@.0 =~= wanted[2].0);
    commands.push(ip().arg("link").arg("set").arg("hb-root").arg("up"));
    assert(commands@[3]@.0 =~= wanted[3].0);
    commands.push(ip().arg("-n").arg("herdr-bench").arg("link").arg("set").arg("lo").arg("up"));
    assert(commands@[4]@.0 =~= wanted[4].0);
    commands.push(ip().arg("-n").arg("herdr-bench").arg("link").arg("set").arg("hb-ns").arg("up"));
    assert(commands@[5]@.0 =~= wanted[5].0);
    let address = server_address().interface_text();
    commands.push(
        ip().arg("-n").arg("herdr-bench").arg("addr").arg("add").arg(address.as_str()).arg(
            "dev",
        ).arg("hb-ns"),
    );
    assert(commands@[6]@.0 =~= wanted[6].0);
    commands.push(route_back(1));
    commands.push(route_back(2));
    assert(listed(commands@) =~= wanted);
    commands
}

/// Every flap moves the client to another address than the one it has, and never
/// back to the first.
pub proof fn law_flaps_change_the_address(network: ScenarioNetwork)
    requires
        network.wf(),
    ensures
        0 < network.next() < CLIENT_ADDRESSES,
        network.next() != network.current,
        client(network.next()) != client(network.current as int),
{
}

/// The namespace can answer the client wherever it roams: the client's network
/// is the server's own, or it was given a route back.
pub proof fn law_every_client_has_a_way_back(index: int)
    requires
        0 <= index < CLIENT_ADDRESSES,
    ensures
        client(index).subnet() == server().subnet() || setup_commands().contains(
            return_route(index),
        ),
{
    if index == 1 {
        assert(setup_commands()[7] == return_route(1));
    } else if index == 2 {
        assert(setup_commands()[8] == return_route(2));
    }
}

/// Taking an address down is raising it with the verb turned round.
pub proof fn law_drop_undoes_raise(index: int)
    ensures
        drop_command(index) == (raise_commands(index)[0].0.update(1, "del"@), true),
{
    assert(drop_command(index).0 =~= raise_commands(index)[0].0.update(1, "del"@));
}

} // verus!
