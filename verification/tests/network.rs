use herdr::clock::Duration;
use herdr::flap::{blackhole_replies, flap_shortfall, FlapPlan, FlapRecord, FlapShortfall};
use herdr::measure::TypingAction;
use herdr::network::{server_address, IpCommand, ScenarioNetwork};
use herdr::sockets::own_udp_ports;

fn line(command: &IpCommand) -> String {
    let words = command.args.join(" ");
    if command.required {
        words
    } else {
        format!("{words} (may fail)")
    }
}

fn lines(commands: &[IpCommand]) -> Vec<String> {
    commands.iter().map(line).collect()
}

#[test]
fn the_network_is_made_from_scratch() {
    let (network, commands) = ScenarioNetwork::create();
    assert_eq!(network.current, 0);
    assert_eq!(
        lines(&commands),
        vec![
            "netns del herdr-bench (may fail)",
            "link del hb-root (may fail)",
            "netns add herdr-bench",
            "link add hb-root type veth peer name hb-ns",
            "link set hb-ns netns herdr-bench",
            "link set hb-root up",
            "-n herdr-bench link set lo up",
            "-n herdr-bench link set hb-ns up",
            "-n herdr-bench addr add 10.253.1.2/24 dev hb-ns",
            "-n herdr-bench route add 10.253.3.0/24 dev hb-ns",
            "-n herdr-bench route add 10.253.4.0/24 dev hb-ns",
            "addr add 10.253.1.1/24 dev hb-root",
        ]
    );
    assert_eq!(
        lines(&network.teardown()),
        vec!["netns del herdr-bench (may fail)", "link del hb-root (may fail)"]
    );
    assert_eq!(ScenarioNetwork::path(), "/var/run/netns/herdr-bench");
    assert_eq!(server_address().text(), "10.253.1.2");
}

#[test]
fn the_client_roams_between_two_addresses() {
    let mut network = ScenarioNetwork { current: 0 };
    let mut visited = Vec::new();
    for _ in 0..4 {
        let next = network.next_client();
        assert_ne!(next, network.current);
        visited.push(next);
        network.client_address_raised(next, true);
        assert_eq!(network.current, next);
    }
    assert_eq!(visited, vec![1, 2, 1, 2]);
}

#[test]
fn an_address_dies_and_another_one_appears() {
    let mut network = ScenarioNetwork { current: 0 };
    assert_eq!(line(&network.drop_client_address()), "addr del 10.253.1.1/24 dev hb-root");
    assert_eq!(
        lines(&network.raise_client_address(1)),
        vec![
            "addr add 10.253.3.1/24 dev hb-root",
            "route replace 10.253.1.0/24 dev hb-root src 10.253.3.1",
        ]
    );
    // It is not the client's before the commands have succeeded.
    assert_eq!(network.client_address().text(), "10.253.1.1");
    network.client_address_raised(1, false);
    assert_eq!(network.client_address().text(), "10.253.1.1");
    network.client_address_raised(1, true);
    assert_eq!(network.client_address().text(), "10.253.3.1");
    assert_eq!(line(&network.drop_client_address()), "addr del 10.253.3.1/24 dev hb-root");
    assert_eq!(
        lines(&network.raise_client_address(0)),
        vec!["addr add 10.253.1.1/24 dev hb-root"]
    );
    assert_eq!(
        line(&network.blackhole_replies_to_port(48_200)),
        "-n herdr-bench rule add dport 48200 blackhole"
    );
}

const TABLE: &str = "   sl  local_address rem_address   st tx_queue rx_queue tr tm->when retrnsmt   uid  timeout inode ref pointer drops
  100: 0100007F:BC48 00000000:0000 07 00000000:00000000 00:00000000 00000000     0        0 11111 2 0000000000000000 0
  101: 00000000:0044 00000000:0000 07 00000000:00000000 00:00000000 00000000     0        0 22222 2 0000000000000000 0
  102: 00000000:bc49 00000000:0000 07 00000000:00000000 00:00000000 00000000     0        0 33333 2 0000000000000000 0\r
  103: broken 00000000:0000 07 00000000:00000000 00:00000000 00000000     0        0 33333 2
  104: 00000000:10000 00000000:0000 07 00000000:00000000 00:00000000 00000000     0        0 33333 2
  105: short 33333
";

fn targets(names: &[&str]) -> Vec<String> {
    names.iter().map(|name| name.to_string()).collect()
}

#[test]
fn own_ports_are_those_of_own_sockets() {
    let own = targets(&["/dev/null", "socket:[33333]", "pipe:[22222]", "socket:[11111]"]);
    assert_eq!(own_udp_ports(&own, TABLE), vec![0xbc48, 0xbc49]);
    assert_eq!(own_udp_ports(&targets(&["socket:[22222]"]), TABLE), vec![0x44]);
    assert_eq!(own_udp_ports(&targets(&["socket:[2222]", "socket:[22222"]), TABLE), vec![]);
    assert_eq!(own_udp_ports(&targets(&["socket:[", "socket:[]"]), TABLE), vec![]);
    assert_eq!(own_udp_ports(&own, ""), vec![]);
    assert_eq!(own_udp_ports(&own, "only the heading"), vec![]);
}

#[test]
fn rows_are_cut_as_the_standard_library_cuts_them() {
    let rows = "h\n 0 x:1\u{a0}2 3 4 5 6 7 8 7\r\n\n0 x:2 2 3 4 5 6 7 8 7\r\u{3000}0 x:3";
    let expected: Vec<u16> = rows
        .lines()
        .skip(1)
        .filter_map(|row| {
            let fields: Vec<&str> = row.split_whitespace().collect();
            let local = fields.get(1)?;
            if *fields.get(9)? != "7" {
                return None;
            }
            let (_, port) = local.rsplit_once(':')?;
            u16::from_str_radix(port, 16).ok()
        })
        .collect();
    assert_eq!(expected, vec![1, 2]);
    assert_eq!(own_udp_ports(&targets(&["socket:[7]"]), rows), expected);
}

fn flap(recovery: Option<u64>, echo: Option<u64>) -> FlapRecord {
    let network = ScenarioNetwork { current: 2 };
    let plan = FlapPlan::new(&network, "address_change", 3);
    let (mut probe, action) = plan.probe();
    assert!(matches!(action, TypingAction::CutPath));
    assert_eq!(probe.window, Duration::from_secs(1));
    assert_eq!(probe.marker, "00004");
    probe.recovery = recovery.map(Duration::from_millis);
    probe.echo = echo.map(Duration::from_millis);
    plan.record(vec![48_200], &probe)
}

#[test]
fn a_flap_is_planned_and_recorded() {
    let network = ScenarioNetwork { current: 2 };
    let plan = FlapPlan::new(&network, "address_change", 3);
    assert_eq!(plan.next, 1);
    let record = flap(Some(300), Some(450));
    assert_eq!(record.variant, "address_change");
    assert_eq!(record.from.text(), "10.253.4.1");
    assert_eq!(record.to.text(), "10.253.3.1");
    assert_eq!(record.dead_ports, vec![48_200]);
    assert_eq!(record.recovery, Some(Duration::from_millis(300)));
    assert_eq!(record.echo, Some(Duration::from_millis(450)));
}

#[test]
fn a_flap_has_a_second_to_recover() {
    assert!(flap(Some(1_000), None).within_budget());
    assert!(!flap(Some(1_001), None).within_budget());
    assert!(!flap(None, Some(1)).within_budget());
}

#[test]
fn every_port_of_the_client_is_blackholed() {
    let network = ScenarioNetwork { current: 0 };
    assert!(blackhole_replies(&network, &Vec::new()).is_none());
    let commands = blackhole_replies(&network, &vec![1, 65_535]).unwrap();
    assert_eq!(
        lines(&commands),
        vec![
            "-n herdr-bench rule add dport 1 blackhole",
            "-n herdr-bench rule add dport 65535 blackhole",
        ]
    );
}

#[test]
fn every_flap_must_be_measured() {
    let fine = || flap(Some(300), Some(450));
    let mut flaps: Vec<FlapRecord> = (0..8).map(|_| fine()).collect();
    assert_eq!(flap_shortfall(&flaps), None);
    flaps[6] = flap(Some(1), None);
    assert_eq!(flap_shortfall(&flaps), Some(FlapShortfall::NoEcho(6)));
    flaps[5] = flap(None, None);
    assert_eq!(flap_shortfall(&flaps), Some(FlapShortfall::NoFrame(5)));
    flaps.pop();
    assert_eq!(flap_shortfall(&flaps), Some(FlapShortfall::Unmeasured));
}

#[test]
fn fields_end_at_unicode_white_space_alone() {
    let own = targets(&["socket:[7]"]);
    for c in (0..0x3100u32).filter_map(char::from_u32) {
        if c == '\n' {
            continue;
        }
        let mark = c.to_string();
        let row = ["0", "x:2a", "2", "3", "4", "5", "6", "7", "8", "7"].join(&mark);
        let expected = if c.is_whitespace() { vec![0x2a] } else { vec![] };
        assert_eq!(own_udp_ports(&own, &format!("h\n{row}")), expected, "{c:?}");
    }
}
