//! Finding the process's own UDP ports in what the kernel lists.
use crate::text::{chars_of, parse_number, parsed};
use vstd::prelude::*;

verus! {

/// Whether the character is white space, as Unicode has it.
pub open spec fn is_blank(c: char) -> bool {
    let code = c as u32;
    ||| 0x9 <= code <= 0xd
    ||| code == 0x20
    ||| code == 0x85
    ||| code == 0xa0
    ||| code == 0x1680
    ||| 0x2000 <= code <= 0x200a
    ||| code == 0x2028
    ||| code == 0x2029
    ||| code == 0x202f
    ||| code == 0x205f
    ||| code == 0x3000
}

fn blank(c: char) -> (result: bool)
    ensures
        result == is_blank(c),
{
    let code: u32 = c as u32;
    (0x9 <= code && code <= 0xd) || code == 0x20 || code == 0x85 || code == 0xa0 || code == 0x1680
        || (0x2000 <= code && code <= 0x200a) || code == 0x2028 || code == 0x2029 || code == 0x202f
        || code == 0x205f || code == 0x3000
}

/// Position of the first character from `from` on that `stops`, or the end.
pub open spec fn next_stop(text: Seq<char>, from: int, stops: spec_fn(char) -> bool) -> int
    decreases text.len() - from,
{
    if from >= text.len() || stops(text[from]) {
        from
    } else {
        next_stop(text, from + 1, stops)
    }
}

proof fn lemma_next_stop(text: Seq<char>, from: int, stops: spec_fn(char) -> bool)
    requires
        0 <= from <= text.len(),
    ensures
        from <= next_stop(text, from, stops) <= text.len(),
        next_stop(text, from, stops) < text.len() ==> stops(text[next_stop(text, from, stops)]),
    decreases text.len() - from,
{
    if from < text.len() && !stops(text[from]) {
        lemma_next_stop(text, from + 1, stops);
    }
}

/// Ends a line.
pub open spec fn at_newline() -> spec_fn(char) -> bool {
    |c: char| c == '\n'
}

/// Ends a field.
pub open spec fn at_blank() -> spec_fn(char) -> bool {
    |c: char| is_blank(c)
}

/// Starts a field.
pub open spec fn at_field() -> spec_fn(char) -> bool {
    |c: char| !is_blank(c)
}

/// A line without the carriage return of its line ending.
pub open spec fn without_return(line: Seq<char>) -> Seq<char> {
    if line.len() > 0 && line.last() == '\r' {
        line.drop_last()
    } else {
        line
    }
}

/// The lines of a text from `from` on. Each ends with a line feed, or a carriage
/// return and a line feed; the ending of the last is optional.
pub open spec fn lines_from(text: Seq<char>, from: int) -> Seq<Seq<char>>
    decreases text.len() - from, 0int,
    when 0 <= from <= text.len() via lines_from_shrinks
{
    let end = next_stop(text, from, at_newline());
    if from >= text.len() {
        Seq::empty()
    } else if end >= text.len() {
        seq![text.subrange(from, text.len() as int)]
    } else {
        seq![without_return(text.subrange(from, end))] + lines_from(text, end + 1)
    }
}

#[via_fn]
proof fn lines_from_shrinks(text: Seq<char>, from: int) {
    lemma_next_stop(text, from, at_newline());
}

/// The fields of a line from `from` on: what stands between white space.
pub open spec fn fields_from(line: Seq<char>, from: int) -> Seq<Seq<char>>
    decreases line.len() - from, 0int,
    when 0 <= from <= line.len() via fields_from_shrinks
{
    let start = next_stop(line, from, at_field());
    let end = next_stop(line, start, at_blank());
    if start >= line.len() {
        Seq::empty()
    } else {
        seq![line.subrange(start, end)] + fields_from(line, end)
    }
}

#[via_fn]
proof fn fields_from_shrinks(line: Seq<char>, from: int) {
    lemma_next_stop(line, from, at_field());
    let start = next_stop(line, from, at_field());
    lemma_next_stop(line, start, at_blank());
    if start < line.len() {
        assert(next_stop(line, start, at_blank()) == next_stop(line, start + 1, at_blank()));
        lemma_next_stop(line, start + 1, at_blank());
    }
}

/// The texts that the characters spell.
pub open spec fn spelled(texts: Seq<Vec<char>>) -> Seq<Seq<char>> {
    Seq::new(texts.len(), |i: int| texts[i]@)
}

fn newline_from(text: &Vec<char>, from: usize) -> (end: usize)
    requires
        from <= text@.len(),
    ensures
        end == next_stop(text@, from as int, at_newline()),
        from <= end <= text@.len(),
{
    let mut end: usize = from;
    while end < text.len() && text[end] != '\n'
        invariant
            from <= end <= text@.len(),
            next_stop(text@, from as int, at_newline()) == next_stop(
                text@,
                end as int,
                at_newline(),
            ),
        decreases text@.len() - end,
    {
        end = end + 1;
    }
    end
}

fn blank_from(text: &Vec<char>, from: usize) -> (end: usize)
    requires
        from <= text@.len(),
    ensures
        end == next_stop(text@, from as int, at_blank()),
        from <= end <= text@.len(),
        from < text@.len() && !is_blank(text@[from as int]) ==> from < end,
{
    let mut end: usize = from;
    while end < text.len() && !blank(text[end])
        invariant
            from <= end <= text@.len(),
            next_stop(text@, from as int, at_blank()) == next_stop(text@, end as int, at_blank()),
        decreases text@.len() - end,
    {
        end = end + 1;
    }
    end
}

fn field_from(text: &Vec<char>, from: usize) -> (start: usize)
    requires
        from <= text@.len(),
    ensures
        start == next_stop(text@, from as int, at_field()),
        from <= start <= text@.len(),
        start < text@.len() ==> !is_blank(text@[start as int]),
{
    let mut start: usize = from;
    while start < text.len() && blank(text[start])
        invariant
            from <= start <= text@.len(),
            next_stop(text@, from as int, at_field()) == next_stop(text@, start as int, at_field()),
        decreases text@.len() - start,
    {
        start = start + 1;
    }
    start
}

/// The characters from `start` to `end`.
fn part(text: &Vec<char>, start: usize, end: usize) -> (taken: Vec<char>)
    requires
        start <= end <= text@.len(),
    ensures
        taken@ == text@.subrange(start as int, end as int),
{
    let mut taken: Vec<char> = Vec::new();
    let mut index: usize = start;
    assert(taken@ =~= text@.subrange(start as int, start as int));
    while index < end
        invariant
            start <= index <= end <= text@.len(),
            taken@ == text@.subrange(start as int, index as int),
        decreases end - index,
    {
        taken.push(text[index]);
        index = index + 1;
        assert(taken@ =~= text@.subrange(start as int, index as int));
    }
    taken
}

fn split_lines(text: &Vec<char>) -> (lines: Vec<Vec<char>>)
    ensures
        spelled(lines@) == lines_from(text@, 0),
{
    let mut lines: Vec<Vec<char>> = Vec::new();
    let mut from: usize = 0;
    assert(spelled(lines@) + lines_from(text@, 0) =~= lines_from(text@, 0));
    while from < text.len()
        invariant
            from <= text@.len(),
            spelled(lines@) + lines_from(text@, from as int) == lines_from(text@, 0),
        decreases text@.len() - from,
    {
        let end: usize = newline_from(text, from);
        let ghost before = lines@;
        let ghost rest = lines_from(text@, from as int);
        if end == text.len() {
            lines.push(part(text, from, end));
            proof {
                assert(rest =~= seq![lines@.last()@]);
                assert(spelled(lines@) =~= spelled(before) + rest);
            }
            return lines;
        }
        let last: usize = if end > from && text[end - 1] == '\r' {
            end - 1
        } else {
            end
        };
        lines.push(part(text, from, last));
        proof {
            assert(lines@.last()@ =~= without_return(text@.subrange(from as int, end as int)));
            assert(rest == seq![lines@.last()@] + lines_from(text@, end + 1));
            assert(spelled(lines@) =~= spelled(before) + seq![lines@.last()@]);
            assert(spelled(lines@) + lines_from(text@, end + 1) =~= spelled(before) + rest);
        }
        from = end + 1;
    }
    assert(spelled(lines@) + lines_from(text@, from as int) =~= spelled(lines@));
    lines
}

fn split_fields(line: &Vec<char>) -> (fields: Vec<Vec<char>>)
    ensures
        spelled(fields@) == fields_from(line@, 0),
{
    let mut fields: Vec<Vec<char>> = Vec::new();
    let mut from: usize = 0;
    assert(spelled(fields@) + fields_from(line@, 0) =~= fields_from(line@, 0));
    loop
        invariant
            from <= line@.len(),
            spelled(fields@) + fields_from(line@, from as int) == fields_from(line@, 0),
        decreases line@.len() - from,
    {
        let start: usize = field_from(line, from);
        let ghost before = fields@;
        let ghost rest = fields_from(line@, from as int);
        if start == line.len() {
            assert(spelled(fields@) + rest =~= spelled(fields@));
            return fields;
        }
        let end: usize = blank_from(line, start);
        fields.push(part(line, start, end));
        proof {
            assert(rest == seq![fields@.last()@] + fields_from(line@, end as int));
            assert(spelled(fields@) =~= spelled(before) + seq![fields@.last()@]);
            assert(spelled(fields@) + fields_from(line@, end as int) =~= spelled(before) + rest);
        }
        from = end;
    }
}

/// What follows the last colon, if there is one.
pub open spec fn after_last_colon(text: Seq<char>) -> Option<Seq<char>>
    decreases text.len(),
{
    if text.len() == 0 {
        None
    } else if text.last() == ':' {
        Some(Seq::empty())
    } else {
        match after_last_colon(text.drop_last()) {
            Some(rest) => Some(rest.push(text.last())),
            None => None,
        }
    }
}

/// With no colon behind position `from`, it is the last one if there is one.
proof fn lemma_last_colon(text: Seq<char>, from: int)
    requires
        0 <= from <= text.len(),
        forall|i: int| from <= i < text.len() ==> text[i] != ':',
    ensures
        from == 0 ==> after_last_colon(text) is None,
        from > 0 && text[from - 1] == ':' ==> after_last_colon(text) == Some(text.skip(from)),
    decreases text.len() - from,
{
    if from < text.len() {
        lemma_last_colon(text.drop_last(), from);
        assert(text.skip(from) =~= text.drop_last().skip(from).push(text.last()));
    } else {
        assert(text.skip(from) =~= Seq::<char>::empty());
    }
}

fn behind_last_colon(text: &Vec<char>) -> (port: Option<Vec<char>>)
    ensures
        match port {
            Some(rest) => after_last_colon(text@) == Some(rest@),
            None => after_last_colon(text@) is None,
        },
{
    let mut index: usize = text.len();
    while index > 0
        invariant
            index <= text@.len(),
            forall|i: int| index <= i < text@.len() ==> text@[i] != ':',
        decreases index,
    {
        index = index - 1;
        if text[index] == ':' {
            let rest = part(text, index + 1, text.len());
            proof {
                lemma_last_colon(text@, index + 1);
            }
            return Some(rest);
        }
    }
    proof {
        lemma_last_colon(text@, 0);
    }
    None
}

/// The port of a row of the kernel's table, if its socket is one of `inodes`: the
/// tenth field is the socket, and the second ends with the port in hexadecimal.
pub open spec fn listed_port(row: Seq<char>, inodes: Seq<Seq<char>>) -> Option<u16> {
    let fields = fields_from(row, 0);
    if fields.len() > 9 && inodes.contains(fields[9]) {
        match after_last_colon(fields[1]) {
            Some(port) => match parsed(port, 16, u16::MAX as int) {
                Some(number) => Some(number as u16),
                None => None,
            },
            None => None,
        }
    } else {
        None
    }
}

/// Whether the two texts are spelled the same.
fn same_chars(a: &Vec<char>, b: &Vec<char>) -> (same: bool)
    ensures
        same == (a@ == b@),
{
    if a.len() != b.len() {
        return false;
    }
    let mut index: usize = 0;
    while index < a.len()
        invariant
            index <= a@.len(),
            a@.len() == b@.len(),
            forall|i: int| 0 <= i < index ==> a@[i] == b@[i],
        decreases a@.len() - index,
    {
        if a[index] != b[index] {
            return false;
        }
        index = index + 1;
    }
    assert(a@ =~= b@);
    true
}

fn is_among(text: &Vec<char>, texts: &Vec<Vec<char>>) -> (found: bool)
    ensures
        found == spelled(texts@).contains(text@),
{
    let mut index: usize = 0;
    while index < texts.len()
        invariant
            index <= texts@.len(),
            forall|i: int| 0 <= i < index ==> texts@[i]@ != text@,
        decreases texts@.len() - index,
    {
        if same_chars(&texts[index], text) {
            assert(spelled(texts@)[index as int] == text@);
            return true;
        }
        index = index + 1;
    }
    assert forall|i: int| 0 <= i < spelled(texts@).len() implies spelled(texts@)[i] != text@ by {
        assert(spelled(texts@)[i] == texts@[i]@);
    }
    false
}

fn port_of(row: &Vec<char>, inodes: &Vec<Vec<char>>) -> (port: Option<u16>)
    ensures
        port == listed_port(row@, spelled(inodes@)),
{
    let fields = split_fields(row);
    assert(spelled(fields@).len() == fields@.len());
    if fields.len() <= 9 {
        return None;
    }
    assert(spelled(fields@)[9] == fields@[9]@);
    assert(spelled(fields@)[1] == fields@[1]@);
    if !is_among(&fields[9], inodes) {
        return None;
    }
    match behind_last_colon(&fields[1]) {
        Some(digits) => match parse_number(digits.as_slice(), 16, u16::MAX as u64) {
            Some(number) => Some(number as u16),
            None => None,
        },
        None => None,
    }
}

/// The ports of those rows whose socket is one of `inodes`, in order.
pub open spec fn listed_ports(rows: Seq<Seq<char>>, inodes: Seq<Seq<char>>) -> Seq<u16>
    decreases rows.len(),
{
    if rows.len() == 0 {
        Seq::empty()
    } else {
        let earlier = listed_ports(rows.drop_last(), inodes);
        match listed_port(rows.last(), inodes) {
            Some(port) => earlier.push(port),
            None => earlier,
        }
    }
}

/// The rows of a table, without its heading.
pub open spec fn rows_of(table: Seq<char>) -> Seq<Seq<char>> {
    let lines = lines_from(table, 0);
    if lines.len() == 0 {
        lines
    } else {
        lines.skip(1)
    }
}

/// The socket that an open file is, if its link says that it is one.
pub open spec fn socket_inode(target: Seq<char>) -> Option<Seq<char>> {
    let prefix = "socket:["@;
    if prefix.len() < target.len() && prefix.is_prefix_of(target) && target.last() == ']' {
        Some(target.subrange(prefix.len() as int, target.len() - 1))
    } else {
        None
    }
}

fn inode_of(target: &Vec<char>) -> (inode: Option<Vec<char>>)
    ensures
        match inode {
            Some(number) => socket_inode(target@) == Some(number@),
            None => socket_inode(target@) is None,
        },
{
    let prefix = chars_of("socket:[");
    proof {
        reveal_strlit("socket:[");
    }
    let length: usize = prefix.len();
    if length >= target.len() {
        return None;
    }
    let start = part(target, 0, length);
    let opens = same_chars(&start, &prefix);
    assert(opens == prefix@.is_prefix_of(target@)) by {
        assert(start@ =~= target@.take(length as int));
    }
    if opens && target[target.len() - 1] == ']' {
        Some(part(target, length, target.len() - 1))
    } else {
        None
    }
}

/// The sockets among the open files.
pub open spec fn socket_inodes(targets: Seq<Seq<char>>) -> Seq<Seq<char>>
    decreases targets.len(),
{
    if targets.len() == 0 {
        Seq::empty()
    } else {
        let earlier = socket_inodes(targets.drop_last());
        match socket_inode(targets.last()) {
            Some(inode) => earlier.push(inode),
            None => earlier,
        }
    }
}

/// The texts, as they read.
pub open spec fn written(texts: Seq<String>) -> Seq<Seq<char>> {
    Seq::new(texts.len(), |i: int| texts[i]@)
}

/// The UDP ports that `table` lists for the process whose open files link to
/// `targets`.
pub fn own_udp_ports(targets: &Vec<String>, table: &str) -> (ports: Vec<u16>)
    ensures
        ports@ == listed_ports(rows_of(table@), socket_inodes(written(targets@))),
{
    let mut inodes: Vec<Vec<char>> = Vec::new();
    let mut index: usize = 0;
    assert(spelled(inodes@) =~= socket_inodes(written(targets@).take(0)));
    while index < targets.len()
        invariant
            index <= targets@.len(),
            spelled(inodes@) == socket_inodes(written(targets@).take(index as int)),
        decreases targets@.len() - index,
    {
        let ghost before = inodes@;
        let ghost longer = written(targets@).take(index + 1);
        assert(longer.drop_last() =~= written(targets@).take(index as int));
        if let Some(inode) = inode_of(&chars_of(targets[index].as_str())) {
            inodes.push(inode);
            assert(spelled(inodes@) =~= spelled(before).push(inode@));
        }
        index = index + 1;
    }
    assert(written(targets@).take(index as int) =~= written(targets@));
    let lines = split_lines(&chars_of(table));
    let ghost rows = rows_of(table@);
    let mut ports: Vec<u16> = Vec::new();
    let mut row: usize = 1;
    assert(spelled(lines@).len() == lines@.len());
    assert(rows.take(0) =~= Seq::<Seq<char>>::empty());
    while row < lines.len()
        invariant
            1 <= row,
            row <= lines@.len() || lines@.len() == 0,
            spelled(lines@) == lines_from(table@, 0),
            lines@.len() == spelled(lines@).len(),
            rows == rows_of(table@),
            row <= lines@.len() ==> ports@ == listed_ports(rows.take(row - 1), spelled(inodes@)),
            lines@.len() == 0 ==> ports@.len() == 0,
        decreases lines@.len() - row,
    {
        let ghost longer = rows.take(row as int);
        assert(longer.drop_last() =~= rows.take(row - 1));
        assert(longer.last() == lines@[row as int]@);
        if let Some(port) = port_of(&lines[row], &inodes) {
            ports.push(port);
        }
        row = row + 1;
    }
    proof {
        if lines@.len() == 0 {
            assert(ports@ =~= listed_ports(rows, spelled(inodes@)));
        } else {
            assert(rows.take(row - 1) =~= rows);
        }
    }
    ports
}

/// Every port found is that of a row whose socket is one of the process's own,
/// and the rows of its own sockets all count.
pub proof fn law_ports_are_own(rows: Seq<Seq<char>>, inodes: Seq<Seq<char>>, port: u16)
    ensures
        listed_ports(rows, inodes).contains(port) <==> exists|i: int|
            0 <= i < rows.len() && #[trigger] listed_port(rows[i], inodes) == Some(port),
    decreases rows.len(),
{
    let ports = listed_ports(rows, inodes);
    if rows.len() > 0 {
        let shorter = rows.drop_last();
        let earlier = listed_ports(shorter, inodes);
        law_ports_are_own(shorter, inodes, port);
        assert(rows.last() == rows[rows.len() - 1]);
        if exists|i: int|
            0 <= i < rows.len() && #[trigger] listed_port(rows[i], inodes) == Some(port) {
            let i = choose|i: int|
                0 <= i < rows.len() && #[trigger] listed_port(rows[i], inodes) == Some(port);
            if i < shorter.len() {
                assert(listed_port(shorter[i], inodes) == Some(port));
                let k = earlier.index_of(port);
                assert(ports[k] == port);
            } else {
                assert(ports[ports.len() - 1] == port);
            }
        }
        if ports.contains(port) {
            let k = ports.index_of(port);
            if k < earlier.len() {
                assert(earlier[k] == port);
                let i = choose|i: int|
                    0 <= i < shorter.len() && #[trigger] listed_port(shorter[i], inodes) == Some(
                        port,
                    );
                assert(listed_port(rows[i], inodes) == Some(port));
            }
        }
    }
}

} // verus!
