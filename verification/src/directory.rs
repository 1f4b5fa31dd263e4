//! The peer directory: one network address per non-blank line, in ascending
//! order of party id.

use vstd::prelude::*;

verus! {

/// The host part of a peer's address.
#[derive(Clone, Copy, Debug, PartialEq, Eq, Structural)]
pub enum HostAddr {
    /// An IPv4 address, as its four octets in network order.
    V4 { ip: u32 },
    /// An IPv6 address, as its sixteen octets in network order, with its flow
    /// information and scope.
    V6 { ip6: u128, flowinfo: u32, scope_id: u32 },
}

/// Where a peer listens.
#[derive(Clone, Copy, Debug, PartialEq, Eq, Structural)]
pub struct Endpoint {
    pub host: HostAddr,
    pub port: u16,
}

/// Whether `c` is white space: what is trimmed from both ends of a line.
pub open spec fn spec_is_space(c: char) -> bool {
    let u = c as u32;
    ||| 0x09 <= u <= 0x0D
    ||| u == 0x20
    ||| u == 0x85
    ||| u == 0xA0
    ||| u == 0x1680
    ||| 0x2000 <= u <= 0x200A
    ||| u == 0x2028
    ||| u == 0x2029
    ||| u == 0x202F
    ||| u == 0x205F
    ||| u == 0x3000
}

/// `s` without the white space at its start.
pub open spec fn spec_trim_start(s: Seq<char>) -> Seq<char>
    decreases s.len(),
{
    if s.len() > 0 && spec_is_space(s[0]) {
        spec_trim_start(s.drop_first())
    } else {
        s
    }
}

/// `s` without the white space at its end.
pub open spec fn spec_trim_end(s: Seq<char>) -> Seq<char>
    decreases s.len(),
{
    if s.len() > 0 && spec_is_space(s.last()) {
        spec_trim_end(s.drop_last())
    } else {
        s
    }
}

/// `s` without the white space at either end.
pub open spec fn spec_trim(s: Seq<char>) -> Seq<char> {
    spec_trim_end(spec_trim_start(s))
}

/// The pieces of `s` between its line feeds: one more than it has line feeds.
pub open spec fn spec_segments(s: Seq<char>) -> Seq<Seq<char>>
    decreases s.len(),
{
    if s.len() == 0 {
        seq![Seq::<char>::empty()]
    } else {
        let before = spec_segments(s.drop_last());
        if s.last() == '\n' {
            before.push(Seq::<char>::empty())
        } else {
            before.update(before.len() - 1, before.last().push(s.last()))
        }
    }
}

/// The trimmed pieces that are not empty, in order.
pub open spec fn spec_entries(segments: Seq<Seq<char>>) -> Seq<Seq<char>>
    decreases segments.len(),
{
    if segments.len() == 0 {
        Seq::<Seq<char>>::empty()
    } else {
        let line = spec_trim(segments.last());
        let before = spec_entries(segments.drop_last());
        if line.len() > 0 {
            before.push(line)
        } else {
            before
        }
    }
}

/// The directory's entries: each non-blank line of `text`, trimmed. A blank
/// line gives no entry, so it takes no id.
pub open spec fn spec_config_lines(text: Seq<char>) -> Seq<Seq<char>> {
    spec_entries(spec_segments(text))
}

/// The characters held by a list of lines.
pub open spec fn lines_of(lines: Seq<Vec<char>>) -> Seq<Seq<char>> {
    Seq::new(lines.len(), |i: int| lines[i]@)
}

/// Whether `c` is white space.
pub fn is_space(c: char) -> (space: bool)
    ensures
        space == spec_is_space(c),
{
    let u: u32 = c as u32;
    (0x09 <= u && u <= 0x0D) || u == 0x20 || u == 0x85 || u == 0xA0 || u == 0x1680 || (0x2000 <= u
        && u <= 0x200A) || u == 0x2028 || u == 0x2029 || u == 0x202F || u == 0x205F || u == 0x3000
}

/// `line` without the white space at either end.
pub fn trim(line: &Vec<char>) -> (trimmed: Vec<char>)
    ensures
        trimmed@ == spec_trim(line@),
{
    let n: usize = line.len();
    let mut start: usize = 0;
    assert(line@.subrange(0, n as int) =~= line@);
    while start < n && is_space(line[start])
        invariant
            start <= n,
            n == line@.len(),
            spec_trim_start(line@) == spec_trim_start(line@.subrange(start as int, n as int)),
        decreases n - start,
    {
        assert(line@.subrange(start as int, n as int).drop_first() =~= line@.subrange(
            start as int + 1,
            n as int,
        ));
        start = start + 1;
    }
    let ghost tail = line@.subrange(start as int, n as int);
    assert(spec_trim_start(line@) == tail);
    let mut end: usize = n;
    while end > start && is_space(line[end - 1])
        invariant
            start <= end <= n,
            n == line@.len(),
            spec_trim_end(tail) == spec_trim_end(line@.subrange(start as int, end as int)),
        decreases end,
    {
        assert(line@.subrange(start as int, end as int).drop_last() =~= line@.subrange(
            start as int,
            end as int - 1,
        ));
        end = end - 1;
    }
    let ghost kept = line@.subrange(start as int, end as int);
    assert(spec_trim_end(tail) == kept);
    let mut trimmed: Vec<char> = Vec::new();
    let mut k: usize = start;
    while k < end
        invariant
            start <= k <= end <= n,
            n == line@.len(),
            trimmed@ == line@.subrange(start as int, k as int),
        decreases end - k,
    {
        trimmed.push(line[k]);
        k = k + 1;
        assert(trimmed@ =~= line@.subrange(start as int, k as int));
    }
    trimmed
}

/// Splits the text of a directory into its entries: the non-blank lines,
/// trimmed, in order.
pub fn config_lines(text: &Vec<char>) -> (lines: Vec<Vec<char>>)
    ensures
        lines_of(lines@) == spec_config_lines(text@),
{
    let mut lines: Vec<Vec<char>> = Vec::new();
    let mut current: Vec<char> = Vec::new();
    let mut i: usize = 0;
    assert(text@.subrange(0, 0) =~= Seq::<char>::empty());
    assert(spec_segments(Seq::<char>::empty()).drop_last() =~= Seq::<Seq<char>>::empty());
    assert(lines_of(lines@) =~= Seq::<Seq<char>>::empty());
    while i < text.len()
        invariant
            i <= text@.len(),
            spec_segments(text@.subrange(0, i as int)).len() >= 1,
            lines_of(lines@) == spec_entries(spec_segments(text@.subrange(0, i as int)).drop_last()),
            current@ == spec_segments(text@.subrange(0, i as int)).last(),
        decreases text@.len() - i,
    {
        let ghost prefix = text@.subrange(0, i as int);
        let ghost next = text@.subrange(0, i as int + 1);
        let ghost before = spec_segments(prefix);
        let ghost shown = lines_of(lines@);
        assert(next.drop_last() =~= prefix);
        assert(next.last() == text@[i as int]);
        let c: char = text[i];
        if c == '\n' {
            assert(spec_segments(next) == before.push(Seq::<char>::empty()));
            assert(spec_segments(next).drop_last() =~= before);
            let line = trim(&current);
            if line.len() > 0 {
                lines.push(line);
                assert(lines_of(lines@) =~= shown.push(line@));
            }
            current = Vec::new();
        } else {
            current.push(c);
            assert(spec_segments(next) == before.update(before.len() - 1, before.last().push(c)));
            assert(spec_segments(next).drop_last() =~= before.drop_last());
        }
        i = i + 1;
    }
    assert(text@.subrange(0, i as int) =~= text@);
    let ghost shown = lines_of(lines@);
    let line = trim(&current);
    if line.len() > 0 {
        lines.push(line);
        assert(lines_of(lines@) =~= shown.push(line@));
    }
    lines
}

/// What loading a directory can refuse.
#[derive(Clone, Copy, Debug, PartialEq, Eq, Structural)]
pub enum ConfigFault {
    /// The entry with this number, counted from zero, is no network address.
    BadAddress { entry: usize },
    /// The party's own id is not below the number of entries.
    OwnIdOutOfRange,
}

/// The first entry that is no address, where there is one; else whether
/// `own` is an id of the directory.
pub open spec fn spec_directory_fault(entries: Seq<Option<Endpoint>>, own: nat) -> Option<
    ConfigFault,
> {
    if exists|k: int| 0 <= k < entries.len() && entries[k] is None {
        let first = choose|k: int|
            0 <= k < entries.len() && entries[k] is None && forall|j: int|
                0 <= j < k ==> entries[j] is Some;
        Some(ConfigFault::BadAddress { entry: first as usize })
    } else if own >= entries.len() {
        Some(ConfigFault::OwnIdOutOfRange)
    } else {
        None
    }
}

/// Looks for what makes a directory unusable: an entry that did not parse as
/// an address, the first of them; else an own id beyond the entries.
pub fn directory_fault(entries: &Vec<Option<Endpoint>>, own: usize) -> (fault: Option<ConfigFault>)
    ensures
        fault == spec_directory_fault(entries@, own as nat),
        fault is None ==> own < entries@.len() && forall|k: int|
            0 <= k < entries@.len() ==> entries@[k] is Some,
        forall|k: int|
            fault == Some(ConfigFault::BadAddress { entry: k as usize }) && 0 <= k < entries@.len()
                ==> entries@[k] is None && forall|j: int| 0 <= j < k ==> entries@[j] is Some,
{
    let mut k: usize = 0;
    while k < entries.len()
        invariant
            k <= entries@.len(),
            forall|j: int| 0 <= j < k ==> entries@[j] is Some,
        decreases entries@.len() - k,
    {
        if entries[k].is_none() {
            proof {
                let first = choose|f: int|
                    0 <= f < entries@.len() && entries@[f] is None && forall|j: int|
                        0 <= j < f ==> entries@[j] is Some;
                assert(0 <= k < entries@.len() && entries@[k as int] is None && forall|j: int|
                    0 <= j < k ==> entries@[j] is Some);
                assert(first == k) by {
                    if first < k {
                        assert(entries@[first] is Some);
                    } else if k < first {
                        assert(entries@[k as int] is Some);
                    }
                }
            }
            return Some(ConfigFault::BadAddress { entry: k });
        }
        k = k + 1;
    }
    if own >= entries.len() {
        Some(ConfigFault::OwnIdOutOfRange)
    } else {
        None
    }
}

} // verus!
