//! What the commands of the address-change scenario bring about, and what its
//! client's ports are found from.
use crate::flap::{flap_trouble, FlapRecord};
use crate::network::{
    blackhole_command, client, drop_command, raise_commands, return_route, server, setup_commands,
    Address, ScenarioNetwork,
};
use crate::sockets::{
    after_last_colon, at_blank, at_field, at_newline, fields_from, is_blank, lines_from,
    listed_port, listed_ports, next_stop, rows_of, socket_inode,
    socket_inodes,
};
use crate::text::{decimal, law_numbers_read_back, parsed};
use vstd::prelude::*;

verus! {

/// Whether the two addresses lie in one network of 256.
pub open spec fn same_network(one: Address, other: Address) -> bool {
    one.a == other.a && one.b == other.b && one.c == other.c
}

/// The command that routes the server's network over the root link, with the
/// address as source; it has to succeed.
pub open spec fn server_route(source: Address) -> (Seq<Seq<char>>, bool) {
    (
        seq![
            "route"@,
            "replace"@,
            server().subnet(),
            "dev"@,
            "hb-root"@,
            "src"@,
            source.dotted(),
        ],
        true,
    )
}

/// Whichever client address is raised, the server can be reached from it: either
/// the address lies in the server's network, or the commands that raise it hold a
/// route to that network with the address as source. The address itself is added
/// first, and has to be. Nothing else is done.
pub proof fn law_raised_client_reaches_the_server(index: int)
    requires
        0 <= index < 3,
    ensures
        raise_commands(index).len() > 0,
        raise_commands(index)[0] == (
            seq!["addr"@, "add"@, client(index).dotted() + "/24"@, "dev"@, "hb-root"@],
            true,
        ),
        same_network(client(index), server()) || raise_commands(index).contains(
            server_route(client(index)),
        ),
        same_network(client(index), server()) ==> raise_commands(index).len() == 1,
        !same_network(client(index), server()) ==> raise_commands(index).len() == 2,
{
    if index != 0 {
        assert(raise_commands(index)[1] == server_route(client(index)));
    }
}

/// From every client address the namespace has a way back: the address lies in the
/// server's network, or the setup holds a route to the address's network.
pub proof fn law_server_reaches_the_client(index: int)
    requires
        0 <= index < 3,
    ensures
        same_network(client(index), server()) || setup_commands().contains(
            (
                seq![
                    "-n"@,
                    "herdr-bench"@,
                    "route"@,
                    "add"@,
                    client(index).subnet(),
                    "dev"@,
                    "hb-ns"@,
                ],
                true,
            ),
        ),
{
    if index == 1 {
        assert(setup_commands()[7] == return_route(1));
    } else if index == 2 {
        assert(setup_commands()[8] == return_route(2));
    }
}

/// The client starts in the server's network, under another address, and roams
/// between two networks that are neither the server's nor each other's.
pub proof fn law_clients_roam_between_networks()
    ensures
        same_network(client(0), server()),
        client(0).d != server().d,
        !same_network(client(1), server()),
        !same_network(client(2), server()),
        !same_network(client(1), client(2)),
{
}

/// A flap takes down the address that the client has and raises another one,
/// which is never the first again.
pub proof fn law_flap_moves_the_client(network: ScenarioNetwork)
    requires
        network.current < 3,
    ensures
        network.next() == 1 || network.next() == 2,
        network.next() != network.current,
        !same_network(client(network.next()), client(network.current as int)),
        drop_command(network.current as int).0[2] == raise_commands(
            network.current as int,
        )[0].0[2],
        drop_command(network.current as int).0[1] == "del"@,
        drop_command(network.current as int).1,
{
}

/// The words that write an address are its four numbers in order, told apart by
/// dots.
pub proof fn law_addresses_read_back(address: Address)
    ensures
        address.dotted() == decimal(address.a as nat) + "."@ + decimal(address.b as nat) + "."@
            + decimal(address.c as nat) + "."@ + decimal(address.d as nat),
        address.subnet() == decimal(address.a as nat) + "."@ + decimal(address.b as nat) + "."@
            + decimal(address.c as nat) + ".0/24"@,
        parsed(decimal(address.a as nat), 10, 255) == Some(address.a as int),
        parsed(decimal(address.d as nat), 10, 255) == Some(address.d as int),
{
    law_numbers_read_back(address.a as nat, 0, 255);
    law_numbers_read_back(address.d as nat, 0, 255);
}

/// The command that keeps the namespace from answering a port names that port, and
/// differs from that of another port in nothing else.
pub proof fn law_blackhole_names_the_port(port: u16, other: u16)
    ensures
        parsed(blackhole_command(port).0[5], 10, 65535) == Some(port as int),
        blackhole_command(port).0.update(5, blackhole_command(other).0[5])
            == blackhole_command(other).0,
        blackhole_command(port).0[4] == "dport"@,
        blackhole_command(port).0[6] == "blackhole"@,
        blackhole_command(port).1,
{
    law_numbers_read_back(port as nat, 0, 65535);
    assert(blackhole_command(port).0.update(5, blackhole_command(other).0[5])
        =~= blackhole_command(other).0);
}

/// A flap is in order exactly if both a frame and an echo were seen; the frame is
/// asked for first.
pub proof fn law_flap_needs_frame_and_echo(flap: FlapRecord, index: int)
    ensures
        flap_trouble(flap, index) is None <==> flap.recovery is Some && flap.echo is Some,
        flap.recovery is None ==> flap_trouble(flap, index) is Some && flap_trouble(
            flap,
            index,
        )->0 is NoFrame,
        flap.recovery is Some && flap.echo is None ==> flap_trouble(flap, index) is Some
            && flap_trouble(flap, index)->0 is NoEcho,
{
}

proof fn lemma_next_stop_of_rest(
    text: Seq<char>,
    start: int,
    from: int,
    stops: spec_fn(char) -> bool,
)
    requires
        0 <= start <= from <= text.len(),
    ensures
        next_stop(text, from, stops) == start + next_stop(
            text.skip(start),
            from - start,
            stops,
        ),
        from <= next_stop(text, from, stops) <= text.len(),
    decreases text.len() - from,
{
    let rest = text.skip(start);
    if from < text.len() {
        assert(rest[from - start] == text[from]);
        if !stops(text[from]) {
            lemma_next_stop_of_rest(text, start, from + 1, stops);
        }
    }
}

/// The stop is where the first character stands that stops.
proof fn lemma_next_stop_at(text: Seq<char>, from: int, at: int, stops: spec_fn(char) -> bool)
    requires
        0 <= from <= at <= text.len(),
        forall|i: int| from <= i < at ==> !stops(#[trigger] text[i]),
        at < text.len() ==> stops(text[at]),
    ensures
        next_stop(text, from, stops) == at,
    decreases at - from,
{
    if from < at {
        assert(!stops(text[from]));
        lemma_next_stop_at(text, from + 1, at, stops);
    }
}

proof fn lemma_lines_of_rest(text: Seq<char>, start: int, from: int)
    requires
        0 <= start <= from <= text.len(),
    ensures
        lines_from(text, from) == lines_from(text.skip(start), from - start),
    decreases text.len() - from,
{
    let rest = text.skip(start);
    lemma_next_stop_of_rest(text, start, from, at_newline());
    let end = next_stop(text, from, at_newline());
    if from < text.len() {
        if end >= text.len() {
            assert(text.subrange(from, text.len() as int) =~= rest.subrange(
                from - start,
                rest.len() as int,
            ));
        } else {
            assert(text.subrange(from, end) =~= rest.subrange(from - start, end - start));
            lemma_lines_of_rest(text, start, end + 1);
        }
    }
}

/// A line feed ends a line, with a carriage return before it or not, and the rest
/// is cut in the same way. What has no line feed is one line, unless it is empty.
pub proof fn law_lines_end_at_line_feeds(line: Seq<char>, rest: Seq<char>)
    requires
        forall|i: int| 0 <= i < line.len() ==> (#[trigger] line[i]) != '\n',
    ensures
        lines_from(line + seq!['\n'] + rest, 0) == seq![
            if line.len() > 0 && line.last() == '\r' {
                line.drop_last()
            } else {
                line
            },
        ] + lines_from(rest, 0),
        line.len() > 0 ==> lines_from(line, 0) == seq![line],
        lines_from(Seq::empty(), 0) == Seq::<Seq<char>>::empty(),
{
    let text = line + seq!['\n'] + rest;
    let stops = at_newline();
    let end = line.len() as int;
    assert forall|i: int| 0 <= i < end implies !stops(#[trigger] text[i]) by {
        assert(text[i] == line[i]);
    }
    assert(stops(text[end]));
    lemma_next_stop_at(text, 0, end, stops);
    lemma_lines_of_rest(text, end + 1, end + 1);
    assert(text.skip(end + 1) =~= rest);
    assert(text.subrange(0, end) =~= line);
    if line.len() > 0 {
        assert forall|i: int| 0 <= i < end implies !stops(#[trigger] line[i]) by {}
        lemma_next_stop_at(line, 0, end, stops);
        assert(line.subrange(0, end) =~= line);
    }
}

proof fn lemma_fields_of_rest(line: Seq<char>, start: int, from: int)
    requires
        0 <= start <= from <= line.len(),
    ensures
        fields_from(line, from) == fields_from(line.skip(start), from - start),
    decreases line.len() - from,
{
    let rest = line.skip(start);
    lemma_next_stop_of_rest(line, start, from, at_field());
    let begin = next_stop(line, from, at_field());
    if begin < line.len() {
        lemma_next_stop_of_rest(line, start, begin, at_blank());
        let end = next_stop(line, begin, at_blank());
        assert(line.subrange(begin, end) =~= rest.subrange(begin - start, end - start));
        lemma_field_is_there(line, from);
        lemma_fields_of_rest(line, start, end);
    }
}

proof fn lemma_field_is_there(line: Seq<char>, from: int)
    requires
        0 <= from <= line.len(),
    ensures
        ({
            let begin = next_stop(line, from, at_field());
            begin < line.len() ==> begin < next_stop(line, begin, at_blank())
        }),
    decreases line.len() - from,
{
    let begin = next_stop(line, from, at_field());
    if from < line.len() && !at_field()(line[from]) {
        lemma_field_is_there(line, from + 1);
    } else if begin < line.len() {
        lemma_next_stop_of_rest(line, 0, begin + 1, at_blank());
    }
}

/// White space in front of a line changes nothing, and white space ends a field;
/// the rest is cut in the same way. A line that ends with a field ends it too.
pub proof fn law_fields_end_at_white_space(blanks: Seq<char>, field: Seq<char>, rest: Seq<char>)
    requires
        forall|i: int| 0 <= i < blanks.len() ==> is_blank(#[trigger] blanks[i]),
        field.len() > 0,
        forall|i: int| 0 <= i < field.len() ==> !is_blank(#[trigger] field[i]),
        rest.len() > 0 ==> is_blank(rest[0]),
    ensures
        fields_from(blanks + field + rest, 0) == seq![field] + fields_from(rest, 0),
        fields_from(blanks, 0) == Seq::<Seq<char>>::empty(),
{
    let line = blanks + field + rest;
    let begin = blanks.len() as int;
    let end = begin + field.len();
    assert forall|i: int| 0 <= i < begin implies !at_field()(#[trigger] line[i]) by {
        assert(line[i] == blanks[i]);
    }
    assert(line[begin] == field[0]);
    lemma_next_stop_at(line, 0, begin, at_field());
    assert forall|i: int| begin <= i < end implies !at_blank()(#[trigger] line[i]) by {
        assert(line[i] == field[i - begin]);
    }
    if end < line.len() {
        assert(line[end] == rest[0]);
    }
    lemma_next_stop_at(line, begin, end, at_blank());
    assert(line.subrange(begin, end) =~= field);
    lemma_fields_of_rest(line, end, end);
    assert(line.skip(end) =~= rest);
    assert forall|i: int| 0 <= i < begin implies !at_field()(#[trigger] blanks[i]) by {}
    lemma_next_stop_at(blanks, 0, begin, at_field());
}

/// What stands behind the last colon, wherever other colons stand.
pub proof fn law_last_colon_counts(host: Seq<char>, port: Seq<char>)
    requires
        forall|i: int| 0 <= i < port.len() ==> (#[trigger] port[i]) != ':',
    ensures
        after_last_colon(host + seq![':'] + port) == Some(port),
        after_last_colon(port) is None,
    decreases port.len(),
{
    let text = host + seq![':'] + port;
    if port.len() > 0 {
        let shorter = port.drop_last();
        assert forall|i: int| 0 <= i < shorter.len() implies (#[trigger] shorter[i]) != ':' by {
            assert(port[i] != ':');
        }
        law_last_colon_counts(host, shorter);
        assert(text.drop_last() =~= host + seq![':'] + shorter);
        assert(text.last() == port.last());
        assert(port.last() == port[port.len() - 1]);
        assert(shorter.push(port.last()) =~= port);
    } else {
        assert(text.last() == ':');
        assert(after_last_colon(text) == Some(Seq::<char>::empty()));
        assert(port =~= Seq::<char>::empty());
    }
}

/// A link to a socket names it between `socket:[` and `]`; nothing else does.
pub proof fn law_socket_links(name: Seq<char>, target: Seq<char>)
    ensures
        socket_inode("socket:["@ + name + seq![']']) == Some(name),
        socket_inode(target) matches Some(found) ==> target == "socket:["@ + found + seq![']'],
{
    reveal_strlit("socket:[");
    let link = "socket:["@ + name + seq![']'];
    assert("socket:["@.is_prefix_of(link));
    assert(link.subrange("socket:["@.len() as int, link.len() - 1) =~= name);
    if let Some(found) = socket_inode(target) {
        assert(target =~= "socket:["@ + found + seq![']']);
    }
}

/// A row counts exactly if it has ten fields at least, its tenth is one of the
/// sockets, and its second ends with a colon and a hexadecimal number up to 65535;
/// that number is the port.
pub proof fn law_row_names_its_port(
    row: Seq<char>,
    inodes: Seq<Seq<char>>,
    host: Seq<char>,
    digits: Seq<char>,
)
    requires
        forall|i: int| 0 <= i < digits.len() ==> (#[trigger] digits[i]) != ':',
    ensures
        ({
            let fields = fields_from(row, 0);
            &&& fields.len() < 10 ==> listed_port(row, inodes) is None
            &&& fields.len() >= 10 && !inodes.contains(fields[9]) ==> listed_port(
                row,
                inodes,
            ) is None
            &&& fields.len() >= 10 && inodes.contains(fields[9]) && fields[1] == host + seq![
                ':',
            ] + digits ==> match parsed(digits, 16, 65535) {
                Some(number) => listed_port(row, inodes) matches Some(port) && port == number,
                None => listed_port(row, inodes) is None,
            }
            &&& fields.len() >= 10 && fields[1] == digits ==> listed_port(row, inodes) is None
        }),
{
    law_last_colon_counts(host, digits);
    crate::text::lemma_parsed_in_range(digits, 16, 65535);
}

/// The first line of a table is its heading, and every row behind it counts once.
pub proof fn law_rows_follow_the_heading(
    heading: Seq<char>,
    rest: Seq<char>,
    rows: Seq<Seq<char>>,
    row: Seq<char>,
    inodes: Seq<Seq<char>>,
)
    requires
        forall|i: int| 0 <= i < heading.len() ==> (#[trigger] heading[i]) != '\n',
    ensures
        rows_of(heading + seq!['\n'] + rest) == lines_from(rest, 0),
        listed_ports(rows.push(row), inodes) == match listed_port(row, inodes) {
            Some(port) => listed_ports(rows, inodes).push(port),
            None => listed_ports(rows, inodes),
        },
        listed_ports(Seq::empty(), inodes).len() == 0,
{
    law_lines_end_at_line_feeds(heading, rest);
    let lines = lines_from(heading + seq!['\n'] + rest, 0);
    assert(lines.skip(1) =~= lines_from(rest, 0));
    assert(rows.push(row).drop_last() =~= rows);
}

/// The white space of ASCII: tab, line feed, vertical tab, form feed, carriage
/// return and space. No other character of ASCII is any.
pub proof fn law_ascii_white_space(c: char)
    requires
        (c as int) < 128,
    ensures
        is_blank(c) <==> (9 <= c as int <= 13 || c as int == 32),
{
}

/// The sockets found are those that some link names, and all of those.
pub proof fn law_sockets_are_those_linked(targets: Seq<Seq<char>>, name: Seq<char>)
    ensures
        socket_inodes(targets).contains(name) <==> exists|i: int|
            0 <= i < targets.len() && #[trigger] targets[i] == "socket:["@ + name + seq![']'],
    decreases targets.len(),
{
    let found = socket_inodes(targets);
    if targets.len() > 0 {
        let fewer = targets.drop_last();
        let earlier = socket_inodes(fewer);
        let link = "socket:["@ + name + seq![']'];
        law_sockets_are_those_linked(fewer, name);
        law_socket_links(name, targets.last());
        assert(targets.last() == targets[targets.len() - 1]);
        if found.contains(name) {
            let k = found.index_of(name);
            if k < earlier.len() {
                assert(earlier[k] == name);
                let i = choose|i: int| 0 <= i < fewer.len() && #[trigger] fewer[i] == link;
                assert(targets[i] == link);
            }
        }
        if exists|i: int| 0 <= i < targets.len() && #[trigger] targets[i] == link {
            let i = choose|i: int| 0 <= i < targets.len() && #[trigger] targets[i] == link;
            if i < fewer.len() {
                assert(fewer[i] == link);
                let k = earlier.index_of(name);
                assert(found[k] == name);
            } else {
                assert(found[found.len() - 1] == name);
            }
        }
    }
}

} // verus!
