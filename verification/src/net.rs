//! Internet addresses as plain values, and their textual form.
use vstd::prelude::*;
use crate::text::{
    all_digits, contents, digit_value, digits, joined, lemma_digit_is_no_mark, lemma_digits_denote,
    lemma_split_joined, lemma_split_keeps, lemma_split_last, lemma_split_nonempty, lemma_split_one,
    number_value, parse_number, push_number, split, split_chars,
};

verus! {

/// An IP address, as its octets in network order.
#[derive(Debug, Clone, Copy, PartialEq, Eq)]
pub enum IpAddr {
    /// Version 4.
    V4([u8; 4]),
    /// Version 6.
    V6([u8; 16]),
}

/// An IPv4 address with a port.
#[derive(Debug, Clone, Copy, PartialEq, Eq)]
pub struct SocketAddrV4 {
    /// The octets of the address.
    pub ip: [u8; 4],
    /// The port.
    pub port: u16,
}

/// An IPv6 address with a port, flow information and a scope.
#[derive(Debug, Clone, Copy, PartialEq, Eq)]
pub struct SocketAddrV6 {
    /// The octets of the address.
    pub ip: [u8; 16],
    /// The port.
    pub port: u16,
    /// The flow information.
    pub flowinfo: u32,
    /// The scope identifier, zero where there is none.
    pub scope_id: u32,
}

/// An IP address with a port.
#[derive(Debug, Clone, Copy, PartialEq, Eq)]
pub enum SocketAddr {
    /// Version 4.
    V4(SocketAddrV4),
    /// Version 6.
    V6(SocketAddrV6),
}

/// What an `IpAddr` stands for: its octets.
#[verifier::ext_equal]
pub enum IpModel {
    V4(Seq<u8>),
    V6(Seq<u8>),
}

/// What a `SocketAddr` stands for.
#[verifier::ext_equal]
pub enum SocketModel {
    V4 { ip: Seq<u8>, port: u16 },
    V6 { ip: Seq<u8>, port: u16, flowinfo: u32, scope_id: u32 },
}

impl View for IpAddr {
    type V = IpModel;

    open spec fn view(&self) -> IpModel {
        match *self {
            IpAddr::V4(ip) => IpModel::V4(ip@),
            IpAddr::V6(ip) => IpModel::V6(ip@),
        }
    }
}

impl View for SocketAddr {
    type V = SocketModel;

    open spec fn view(&self) -> SocketModel {
        match *self {
            SocketAddr::V4(a) => SocketModel::V4 { ip: a.ip@, port: a.port },
            SocketAddr::V6(a) => SocketModel::V6 {
                ip: a.ip@,
                port: a.port,
                flowinfo: a.flowinfo,
                scope_id: a.scope_id,
            },
        }
    }
}

impl SocketModel {
    /// The octets have the length that the version asks for.
    pub open spec fn valid(self) -> bool {
        match self {
            SocketModel::V4 { ip, .. } => ip.len() == 4,
            SocketModel::V6 { ip, .. } => ip.len() == 16,
        }
    }
}

/// The socket address of an IP address and a port, without flow information or scope.
pub open spec fn socket_of(ip: IpModel, port: u16) -> SocketModel {
    match ip {
        IpModel::V4(ip) => SocketModel::V4 { ip, port },
        IpModel::V6(ip) => SocketModel::V6 { ip, port, flowinfo: 0, scope_id: 0 },
    }
}

impl SocketAddr {
    /// Joins an IP address and a port; flow information and scope are zero.
    pub fn new(ip: IpAddr, port: u16) -> (addr: SocketAddr)
        ensures
            addr@ == socket_of(ip@, port),
    {
        match ip {
            IpAddr::V4(ip) => SocketAddr::V4(SocketAddrV4 { ip, port }),
            IpAddr::V6(ip) => SocketAddr::V6(SocketAddrV6 { ip, port, flowinfo: 0, scope_id: 0 }),
        }
    }

    /// The port.
    pub fn port(&self) -> (port: u16)
        ensures
            port == (match self@ {
                SocketModel::V4 { port, .. } => port,
                SocketModel::V6 { port, .. } => port,
            }),
    {
        match self {
            SocketAddr::V4(a) => a.port,
            SocketAddr::V6(a) => a.port,
        }
    }
}

// ---------------------------------------------------------------------------
// Groups of an IPv6 address
// ---------------------------------------------------------------------------

/// The sixteen-bit groups that pairs of octets form.
pub open spec fn groups_of(octets: Seq<u8>) -> Seq<u16> {
    Seq::new(
        octets.len() / 2,
        |i: int| (octets[2 * i] as int * 256 + octets[2 * i + 1] as int) as u16,
    )
}

/// The octets of a list of sixteen-bit groups, high octet first.
pub open spec fn octets_of(groups: Seq<u16>) -> Seq<u8> {
    Seq::new(
        2 * groups.len(),
        |i: int|
            if i % 2 == 0 {
                (groups[i / 2] / 256) as u8
            } else {
                (groups[i / 2] % 256) as u8
            },
    )
}

// ---------------------------------------------------------------------------
// Reading
// ---------------------------------------------------------------------------

/// The value of one decimal field of an IPv4 text: one to three digits, no
/// leading zero, at most 255.
pub open spec fn octet_value(s: Seq<char>) -> Option<u8> {
    if 1 <= s.len() <= 3 && all_digits(s, 10) && (s.len() > 1 ==> s[0] != '0') && number_value(
        s,
        10,
    ) <= 255 {
        Some(number_value(s, 10) as u8)
    } else {
        None
    }
}

/// The octets that an IPv4 text denotes: four decimal fields with dots between.
pub open spec fn ipv4_value(s: Seq<char>) -> Option<Seq<u8>> {
    let fields = split(s, '.');
    if fields.len() == 4 && forall|i: int| 0 <= i < 4 ==> (#[trigger] octet_value(fields[i])) is Some {
        Some(Seq::new(4, |i: int| octet_value(fields[i])->0))
    } else {
        None
    }
}

/// The value of one hexadecimal field of an IPv6 text: one to four digits.
pub open spec fn group_value(s: Seq<char>) -> Option<u16> {
    if 1 <= s.len() <= 4 && all_digits(s, 16) {
        Some(number_value(s, 16) as u16)
    } else {
        None
    }
}

/// The groups that a list of hexadecimal fields denotes.
pub open spec fn fields_value(fields: Seq<Seq<char>>) -> Option<Seq<u16>> {
    if forall|i: int| 0 <= i < fields.len() ==> (#[trigger] group_value(fields[i])) is Some {
        Some(Seq::new(fields.len(), |i: int| group_value(fields[i])->0))
    } else {
        None
    }
}

/// The groups that one side of an IPv6 text denotes: nothing, or fields with
/// colons between, the last of which may be an IPv4 text where that is allowed.
pub open spec fn side_value(s: Seq<char>, ipv4_last: bool) -> Option<Seq<u16>> {
    let fields = split(s, ':');
    if s.len() == 0 {
        Some(Seq::empty())
    } else if ipv4_last && ipv4_value(fields.last()) is Some {
        match fields_value(fields.drop_last()) {
            Some(groups) => Some(groups + groups_of(ipv4_value(fields.last())->0)),
            None => None,
        }
    } else {
        fields_value(fields)
    }
}

/// Two colons stand at index `i`.
pub open spec fn double_colon_at(s: Seq<char>, i: int) -> bool {
    0 <= i && i + 1 < s.len() && s[i] == ':' && s[i + 1] == ':'
}

/// The index of the first double colon at or after `from`.
pub open spec fn double_colon(s: Seq<char>, from: int) -> Option<int>
    decreases s.len() - from,
{
    if from < 0 || from >= s.len() {
        None
    } else if double_colon_at(s, from) {
        Some(from)
    } else {
        double_colon(s, from + 1)
    }
}

/// The eight groups that an IPv6 text denotes. A double colon stands for one or
/// more groups of zeros.
pub open spec fn ipv6_value(s: Seq<char>) -> Option<Seq<u16>> {
    match double_colon(s, 0) {
        None => match side_value(s, true) {
            Some(groups) => if groups.len() == 8 {
                Some(groups)
            } else {
                None
            },
            None => None,
        },
        Some(i) => match (side_value(s.take(i), false), side_value(s.skip(i + 2), true)) {
            (Some(head), Some(tail)) => if head.len() + tail.len() <= 7 {
                Some(head + zeros((8 - head.len() - tail.len()) as nat) + tail)
            } else {
                None
            },
            _ => None,
        },
    }
}

/// A list of `n` groups of zeros.
pub open spec fn zeros(n: nat) -> Seq<u16> {
    Seq::new(n, |i: int| 0u16)
}

/// The IP address that a text denotes, of either version.
pub open spec fn ip_value(s: Seq<char>) -> Option<IpModel> {
    match ipv4_value(s) {
        Some(octets) => Some(IpModel::V4(octets)),
        None => match ipv6_value(s) {
            Some(groups) => Some(IpModel::V6(octets_of(groups))),
            None => None,
        },
    }
}

fn parse_octet(s: &[char]) -> (octet: Option<u8>)
    ensures
        octet == octet_value(s@),
{
    if s.len() < 1 || s.len() > 3 {
        return None;
    }
    if s.len() > 1 && s[0] == '0' {
        return None;
    }
    match parse_number(s, 10, 255) {
        Some(v) => Some(v as u8),
        None => None,
    }
}

/// A number of `k` hexadecimal digits is less than the `k`-th power of sixteen.
proof fn lemma_four_hex_digits(s: Seq<char>)
    requires
        s.len() <= 4,
        all_digits(s, 16),
    ensures
        number_value(s, 16) <= 0xffff,
        s.len() <= 3 ==> number_value(s, 16) <= 0xfff,
        s.len() <= 2 ==> number_value(s, 16) <= 0xff,
        s.len() <= 1 ==> number_value(s, 16) <= 0xf,
        s.len() == 0 ==> number_value(s, 16) == 0,
    decreases s.len(),
{
    if s.len() > 0 {
        let t = s.drop_last();
        assert forall|i: int| 0 <= i < t.len() implies (#[trigger] digit_value(
            t[i],
            16,
        )) is Some by {
            assert(t[i] == s[i]);
        }
        assert(digit_value(s[s.len() - 1], 16) is Some);
        lemma_four_hex_digits(t);
    }
}

fn parse_group(s: &[char]) -> (group: Option<u16>)
    ensures
        group == group_value(s@),
{
    if s.len() < 1 || s.len() > 4 {
        return None;
    }
    proof {
        if all_digits(s@, 16) {
            lemma_four_hex_digits(s@);
        }
    }
    match parse_number(s, 16, 0xffff) {
        Some(v) => Some(v as u16),
        None => None,
    }
}

fn parse_ipv4(s: &[char]) -> (ip: Option<[u8; 4]>)
    ensures
        match ip {
            Some(octets) => ipv4_value(s@) == Some(octets@),
            None => ipv4_value(s@) is None,
        },
{
    let fields = split_chars(s, '.');
    let ghost model = split(s@, '.');
    if fields.len() != 4 {
        return None;
    }
    assert(forall|i: int| 0 <= i < 4 ==> model[i] == fields@[i]@);
    match (
        parse_octet(fields[0].as_slice()),
        parse_octet(fields[1].as_slice()),
        parse_octet(fields[2].as_slice()),
        parse_octet(fields[3].as_slice()),
    ) {
        (Some(a), Some(b), Some(c), Some(d)) => {
            let octets: [u8; 4] = [a, b, c, d];
            proof {
                assert forall|i: int| 0 <= i < 4 implies (#[trigger] octet_value(model[i])) is Some by {}
                assert(octets@ =~= Seq::new(4, |i: int| octet_value(model[i])->0));
            }
            Some(octets)
        },
        _ => {
            assert(octet_value(model[0]) is None || octet_value(model[1]) is None || octet_value(
                model[2],
            ) is None || octet_value(model[3]) is None);
            None
        },
    }
}

/// Reads the first `count` fields as hexadecimal groups.
fn parse_fields(fields: &Vec<Vec<char>>, count: usize) -> (groups: Option<Vec<u16>>)
    requires
        count <= fields@.len(),
    ensures
        match groups {
            Some(g) => fields_value(contents(fields@).take(count as int)) == Some(g@),
            None => fields_value(contents(fields@).take(count as int)) is None,
        },
{
    let ghost model = contents(fields@).take(count as int);
    let mut groups: Vec<u16> = Vec::new();
    let mut i: usize = 0;
    while i < count
        invariant
            count <= fields@.len(),
            0 <= i <= count,
            model == contents(fields@).take(count as int),
            groups@.len() == i,
            forall|j: int|
                0 <= j < i ==> (#[trigger] group_value(model[j])) == Some(groups@[j]),
        decreases count - i,
    {
        assert(model[i as int] == fields@[i as int]@);
        match parse_group(fields[i].as_slice()) {
            Some(g) => {
                groups.push(g);
            },
            None => {
                assert(group_value(model[i as int]) is None);
                return None;
            },
        }
        i += 1;
    }
    proof {
        assert(groups@ =~= Seq::new(model.len(), |i: int| group_value(model[i])->0));
    }
    Some(groups)
}

fn parse_side(s: &[char], ipv4_last: bool) -> (groups: Option<Vec<u16>>)
    ensures
        match groups {
            Some(g) => side_value(s@, ipv4_last) == Some(g@),
            None => side_value(s@, ipv4_last) is None,
        },
{
    if s.len() == 0 {
        let groups: Vec<u16> = Vec::new();
        assert(groups@ =~= Seq::<u16>::empty());
        return Some(groups);
    }
    let fields = split_chars(s, ':');
    let ghost model = split(s@, ':');
    let last: usize = fields.len() - 1;
    assert(model.last() == fields@[last as int]@);
    if ipv4_last {
        match parse_ipv4(fields[last].as_slice()) {
            Some(octets) => {
                assert(contents(fields@).take(last as int) =~= model.drop_last());
                return match parse_fields(&fields, last) {
                    Some(mut groups) => {
                        let ghost head = groups@;
                        groups.push(octets[0] as u16 * 256 + octets[1] as u16);
                        groups.push(octets[2] as u16 * 256 + octets[3] as u16);
                        assert(groups@ =~= head + groups_of(octets@));
                        Some(groups)
                    },
                    None => None,
                };
            },
            None => {},
        }
    }
    assert(contents(fields@).take(fields@.len() as int) =~= model);
    parse_fields(&fields, fields.len())
}

fn find_double_colon(s: &[char]) -> (at: Option<usize>)
    ensures
        match at {
            Some(i) => double_colon(s@, 0) == Some(i as int) && i + 1 < s@.len(),
            None => double_colon(s@, 0) is None,
        },
{
    let mut i: usize = 0;
    while i < s.len()
        invariant
            0 <= i <= s@.len(),
            double_colon(s@, 0) == double_colon(s@, i as int),
        decreases s@.len() - i,
    {
        if s[i] == ':' && i + 1 < s.len() && s[i + 1] == ':' {
            return Some(i);
        }
        i += 1;
    }
    None
}

fn parse_ipv6(s: &[char]) -> (groups: Option<Vec<u16>>)
    ensures
        match groups {
            Some(g) => ipv6_value(s@) == Some(g@) && g@.len() == 8,
            None => ipv6_value(s@) is None,
        },
{
    match find_double_colon(s) {
        None => match parse_side(s, true) {
            Some(groups) => if groups.len() == 8 {
                Some(groups)
            } else {
                None
            },
            None => None,
        },
        Some(i) => {
            let len: usize = s.len();
            let head = parse_side(vstd::slice::slice_subrange(s, 0, i), false);
            let tail = parse_side(vstd::slice::slice_subrange(s, i + 2, len), true);
            proof {
                assert(s@.subrange(0, i as int) =~= s@.take(i as int));
                assert(s@.subrange(i + 2, s@.len() as int) =~= s@.skip(i + 2));
            }
            match (head, tail) {
                (Some(mut groups), Some(mut rest)) => {
                    if groups.len() > 7 || rest.len() > 7 - groups.len() {
                        return None;
                    }
                    let ghost h = groups@;
                    let ghost t = rest@;
                    let missing: usize = 8 - groups.len() - rest.len();
                    let mut k: usize = 0;
                    assert(groups@ =~= h + zeros(0));
                    while k < missing
                        invariant
                            0 <= k <= missing,
                            groups@ == h + zeros(k as nat),
                        decreases missing - k,
                    {
                        groups.push(0);
                        k += 1;
                        assert(groups@ =~= h + zeros(k as nat));
                    }
                    groups.append(&mut rest);
                    assert(groups@ =~= h + zeros(missing as nat) + t);
                    Some(groups)
                },
                _ => None,
            }
        },
    }
}

/// The octets of eight groups.
fn to_octets(groups: &Vec<u16>) -> (octets: [u8; 16])
    requires
        groups@.len() == 8,
    ensures
        octets@ == octets_of(groups@),
{
    let mut octets: [u8; 16] = [0;16];
    let mut i: usize = 0;
    while i < 8
        invariant
            0 <= i <= 8,
            groups@.len() == 8,
            forall|j: int| 0 <= j < 2 * i ==> octets@[j] == octets_of(groups@)[j],
        decreases 8 - i,
    {
        octets[2 * i] = (groups[i] / 256) as u8;
        octets[2 * i + 1] = (groups[i] % 256) as u8;
        i += 1;
    }
    assert(octets@ =~= octets_of(groups@));
    octets
}

/// Reads an IP address of either version.
pub fn parse_ip(s: &[char]) -> (ip: Option<IpAddr>)
    ensures
        match ip {
            Some(a) => ip_value(s@) == Some(a@),
            None => ip_value(s@) is None,
        },
{
    match parse_ipv4(s) {
        Some(octets) => {
            return Some(IpAddr::V4(octets));
        },
        None => {},
    }
    match parse_ipv6(s) {
        Some(g) => {
            Some(IpAddr::V6(to_octets(&g)))
        },
        None => None,
    }
}

// ---------------------------------------------------------------------------
// Writing
// ---------------------------------------------------------------------------

/// The dotted decimal text of four octets.
pub open spec fn ipv4_text(octets: Seq<u8>) -> Seq<char> {
    digits(octets[0] as nat, 10) + seq!['.'] + digits(octets[1] as nat, 10) + seq!['.'] + digits(
        octets[2] as nat,
        10,
    ) + seq!['.'] + digits(octets[3] as nat, 10)
}

/// Groups in hexadecimal with colons between.
pub open spec fn groups_text(groups: Seq<u16>) -> Seq<char>
    decreases groups.len(),
{
    if groups.len() == 0 {
        Seq::empty()
    } else if groups.len() == 1 {
        digits(groups[0] as nat, 16)
    } else {
        groups_text(groups.drop_last()) + seq![':'] + digits(groups.last() as nat, 16)
    }
}

/// The number of consecutive zero groups from index `i` on.
pub open spec fn zero_run(groups: Seq<u16>, i: int) -> nat
    decreases groups.len() - i,
{
    if i < 0 || i >= groups.len() || groups[i] != 0 {
        0
    } else {
        1 + zero_run(groups, i + 1)
    }
}

/// The first index below `n` from which the run of zero groups is longest.
pub open spec fn longest_zero_run(groups: Seq<u16>, n: nat) -> int
    decreases n,
{
    if n <= 1 {
        0
    } else {
        let best = longest_zero_run(groups, (n - 1) as nat);
        if zero_run(groups, n - 1) > zero_run(groups, best) {
            n - 1
        } else {
            best
        }
    }
}

/// The groups are those of an IPv4-mapped address.
pub open spec fn ipv4_mapped(groups: Seq<u16>) -> bool {
    &&& groups[0] == 0
    &&& groups[1] == 0
    &&& groups[2] == 0
    &&& groups[3] == 0
    &&& groups[4] == 0
    &&& groups[5] == 0xffff
}

/// The text of an IPv6 address: an IPv4-mapped address ends in dotted decimal;
/// otherwise the first longest run of two or more zero groups becomes a double colon.
pub open spec fn ipv6_text(octets: Seq<u8>) -> Seq<char> {
    let groups = groups_of(octets);
    let start = longest_zero_run(groups, 8);
    let len = zero_run(groups, start);
    if ipv4_mapped(groups) {
        seq![':', ':', 'f', 'f', 'f', 'f', ':'] + ipv4_text(octets.skip(12))
    } else if len >= 2 {
        groups_text(groups.take(start)) + seq![':', ':'] + groups_text(groups.skip(start + len))
    } else {
        groups_text(groups)
    }
}

/// The text of a socket address: the IP address, an IPv6 one in brackets and
/// with its scope where that is not zero, then a colon and the port.
pub open spec fn socket_text(addr: SocketModel) -> Seq<char> {
    match addr {
        SocketModel::V4 { ip, port } => ipv4_text(ip) + seq![':'] + digits(port as nat, 10),
        SocketModel::V6 { ip, port, scope_id, .. } => seq!['['] + ipv6_text(ip) + (if scope_id == 0 {
            Seq::empty()
        } else {
            seq!['%'] + digits(scope_id as nat, 10)
        }) + seq![']', ':'] + digits(port as nat, 10),
    }
}

fn push_ipv4(out: &mut String, a: u8, b: u8, c: u8, d: u8)
    ensures
        final(out)@ == old(out)@ + ipv4_text(seq![a, b, c, d]),
{
    push_number(out, a as u32, 10);
    out.push('.');
    push_number(out, b as u32, 10);
    out.push('.');
    push_number(out, c as u32, 10);
    out.push('.');
    push_number(out, d as u32, 10);
    assert(out@ =~= old(out)@ + ipv4_text(seq![a, b, c, d]));
}

fn push_groups(out: &mut String, groups: &Vec<u16>, from: usize, to: usize)
    requires
        from <= to <= groups@.len(),
    ensures
        final(out)@ == old(out)@ + groups_text(groups@.subrange(from as int, to as int)),
{
    let mut i: usize = from;
    assert(out@ =~= old(out)@ + groups_text(groups@.subrange(from as int, from as int)));
    while i < to
        invariant
            from <= i <= to <= groups@.len(),
            out@ == old(out)@ + groups_text(groups@.subrange(from as int, i as int)),
        decreases to - i,
    {
        let ghost before = groups@.subrange(from as int, i as int);
        let ghost after = groups@.subrange(from as int, i + 1);
        assert(after.drop_last() =~= before);
        assert(after.last() == groups@[i as int]);
        if i > from {
            out.push(':');
        }
        push_number(out, groups[i] as u32, 16);
        assert(out@ =~= old(out)@ + groups_text(after));
        i += 1;
    }
}

fn count_zero_run(groups: &Vec<u16>, i: usize) -> (len: usize)
    requires
        i <= groups@.len(),
    ensures
        len == zero_run(groups@, i as int),
        i + len <= groups@.len(),
{
    let mut j: usize = i;
    while j < groups.len() && groups[j] == 0
        invariant
            i <= j <= groups@.len(),
            zero_run(groups@, i as int) == (j - i) + zero_run(groups@, j as int),
        decreases groups@.len() - j,
    {
        j += 1;
    }
    j - i
}

/// The groups of an IPv6 address.
fn to_groups(ip: &[u8; 16]) -> (groups: Vec<u16>)
    ensures
        groups@ == groups_of(ip@),
{
    let mut groups: Vec<u16> = Vec::new();
    let mut i: usize = 0;
    while i < 8
        invariant
            0 <= i <= 8,
            groups@ == groups_of(ip@).take(i as int),
        decreases 8 - i,
    {
        groups.push(ip[2 * i] as u16 * 256 + ip[2 * i + 1] as u16);
        i += 1;
        assert(groups@ =~= groups_of(ip@).take(i as int));
    }
    assert(groups_of(ip@).take(8) =~= groups_of(ip@));
    groups
}

fn push_ipv6(out: &mut String, ip: &[u8; 16])
    ensures
        final(out)@ == old(out)@ + ipv6_text(ip@),
{
    let g = to_groups(ip);
    if g[0] == 0 && g[1] == 0 && g[2] == 0 && g[3] == 0 && g[4] == 0 && g[5] == 0xffff {
        out.push(':');
        out.push(':');
        out.push('f');
        out.push('f');
        out.push('f');
        out.push('f');
        out.push(':');
        push_ipv4(out, ip[12], ip[13], ip[14], ip[15]);
        assert(ip@.skip(12) =~= seq![ip@[12], ip@[13], ip@[14], ip@[15]]);
        assert(out@ =~= old(out)@ + ipv6_text(ip@));
        return;
    }
    let mut best: usize = 0;
    let mut best_len: usize = count_zero_run(&g, 0);
    let mut i: usize = 1;
    while i < 8
        invariant
            1 <= i <= 8,
            g@.len() == 8,
            best < i,
            best == longest_zero_run(g@, i as nat),
            best_len == zero_run(g@, best as int),
            best + best_len <= 8,
        decreases 8 - i,
    {
        let len: usize = count_zero_run(&g, i);
        if len > best_len {
            best = i;
            best_len = len;
        }
        i += 1;
    }
    if best_len >= 2 {
        push_groups(out, &g, 0, best);
        out.push(':');
        out.push(':');
        push_groups(out, &g, best + best_len, 8);
        assert(g@.subrange(0, best as int) =~= g@.take(best as int));
        assert(g@.subrange(best + best_len, 8) =~= g@.skip(best + best_len));
    } else {
        push_groups(out, &g, 0, 8);
        assert(g@.subrange(0, 8) =~= g@);
    }
    assert(out@ =~= old(out)@ + ipv6_text(ip@));
}

impl SocketAddr {
    /// Appends the text of the address.
    pub fn push_text(&self, out: &mut String)
        ensures
            final(out)@ == old(out)@ + socket_text(self@),
    {
        match self {
            SocketAddr::V4(a) => {
                push_ipv4(out, a.ip[0], a.ip[1], a.ip[2], a.ip[3]);
                assert(a.ip@ =~= seq![a.ip@[0], a.ip@[1], a.ip@[2], a.ip@[3]]);
                out.push(':');
                push_number(out, a.port as u32, 10);
            },
            SocketAddr::V6(a) => {
                out.push('[');
                push_ipv6(out, &a.ip);
                if a.scope_id != 0 {
                    out.push('%');
                    push_number(out, a.scope_id, 10);
                }
                out.push(']');
                out.push(':');
                push_number(out, a.port as u32, 10);
            },
        }
        assert(out@ =~= old(out)@ + socket_text(self@));
    }
}

// ---------------------------------------------------------------------------
// Laws
// ---------------------------------------------------------------------------

/// The number of digits of a small number.
proof fn lemma_few_digits(n: nat, radix: nat)
    requires
        radix == 10 || radix == 16,
    ensures
        n < radix ==> digits(n, radix).len() == 1,
        n < radix * radix ==> digits(n, radix).len() <= 2,
        n < radix * radix * radix ==> digits(n, radix).len() <= 3,
        n < radix * radix * radix * radix ==> digits(n, radix).len() <= 4,
{
    reveal_with_fuel(digits, 5);
}

/// The decimal digits of an octet denote it.
proof fn lemma_octet(octet: u8)
    ensures
        octet_value(digits(octet as nat, 10)) == Some(octet),
        !digits(octet as nat, 10).contains('.'),
        !digits(octet as nat, 10).contains(':'),
        !digits(octet as nat, 10).contains('['),
        digits(octet as nat, 10).len() > 0,
{
    lemma_digits_denote(octet as nat, 10);
    lemma_few_digits(octet as nat, 10);
    lemma_digit_is_no_mark(digits(octet as nat, 10), 10, '.');
    lemma_digit_is_no_mark(digits(octet as nat, 10), 10, ':');
    lemma_digit_is_no_mark(digits(octet as nat, 10), 10, '[');
}

/// The hexadecimal digits of a group denote it.
proof fn lemma_group(group: u16)
    ensures
        group_value(digits(group as nat, 16)) == Some(group),
        !digits(group as nat, 16).contains('.'),
        !digits(group as nat, 16).contains(':'),
        digits(group as nat, 16).len() > 0,
{
    lemma_digits_denote(group as nat, 16);
    lemma_few_digits(group as nat, 16);
    lemma_digit_is_no_mark(digits(group as nat, 16), 16, '.');
    lemma_digit_is_no_mark(digits(group as nat, 16), 16, ':');
}

/// The text of an IPv4 address denotes it. It has neither colons nor brackets.
pub proof fn lemma_ipv4_round_trip(octets: Seq<u8>)
    requires
        octets.len() == 4,
    ensures
        ipv4_value(ipv4_text(octets)) == Some(octets),
        !ipv4_text(octets).contains(':'),
        !ipv4_text(octets).contains('['),
        ipv4_text(octets).len() > 0,
{
    let a = digits(octets[0] as nat, 10);
    let b = digits(octets[1] as nat, 10);
    let c = digits(octets[2] as nat, 10);
    let d = digits(octets[3] as nat, 10);
    lemma_octet(octets[0]);
    lemma_octet(octets[1]);
    lemma_octet(octets[2]);
    lemma_octet(octets[3]);
    let ab = a + seq!['.'] + b;
    let abc = ab + seq!['.'] + c;
    let text = abc + seq!['.'] + d;
    assert(text =~= ipv4_text(octets));
    lemma_split_one(a, '.');
    lemma_split_last(a, b, '.');
    lemma_split_last(ab, c, '.');
    lemma_split_last(abc, d, '.');
    let fields = split(text, '.');
    assert(fields =~= seq![a, b, c, d]);
    assert forall|i: int| 0 <= i < 4 implies (#[trigger] octet_value(fields[i])) == Some(
        octets[i],
    ) by {}
    assert(Seq::new(4, |i: int| octet_value(fields[i])->0) =~= octets);
    lemma_not_in_joined(a, b, '.', ':');
    lemma_not_in_joined(ab, c, '.', ':');
    lemma_not_in_joined(abc, d, '.', ':');
    lemma_not_in_joined(a, b, '.', '[');
    lemma_not_in_joined(ab, c, '.', '[');
    lemma_not_in_joined(abc, d, '.', '[');
}

/// What is in neither part nor the separator is not in what they make up.
proof fn lemma_not_in_joined(a: Seq<char>, b: Seq<char>, sep: char, c: char)
    requires
        !a.contains(c),
        !b.contains(c),
        sep != c,
    ensures
        !(a + seq![sep] + b).contains(c),
{
    let s = a + seq![sep] + b;
    if s.contains(c) {
        let i = choose|i: int| 0 <= i < s.len() && s[i] == c;
        if i < a.len() {
            assert(a[i] == c);
        } else if i > a.len() {
            assert(b[i - a.len() - 1] == c);
        }
    }
}

/// An IPv4 text has no colon.
proof fn lemma_ipv4_has_no_colon(s: Seq<char>)
    requires
        s.contains(':'),
    ensures
        ipv4_value(s) is None,
{
    lemma_split_keeps(s, '.', ':');
    let fields = split(s, '.');
    let k = choose|k: int| 0 <= k < fields.len() && (#[trigger] fields[k]).contains(':');
    if ipv4_value(s) is Some {
        assert(octet_value(fields[k]) is Some);
        lemma_digit_is_no_mark(fields[k], 10, ':');
    }
}

/// No double colon stands in `s`, and no colon at its ends.
spec fn plain(s: Seq<char>) -> bool {
    &&& forall|i: int| !#[trigger] double_colon_at(s, i)
    &&& s.len() > 0 ==> s[0] != ':' && s.last() != ':'
}

/// Groups that are written out denote themselves, and are plain.
proof fn lemma_groups_round_trip(groups: Seq<u16>)
    ensures
        side_value(groups_text(groups), true) == Some(groups),
        side_value(groups_text(groups), false) == Some(groups),
        plain(groups_text(groups)),
        groups.len() > 0 ==> groups_text(groups).len() > 0,
        groups.len() > 1 ==> groups_text(groups).contains(':'),
{
    let s = groups_text(groups);
    if groups.len() == 0 {
        assert(groups =~= Seq::empty());
    } else {
        lemma_groups_split(groups);
        let fields = split(s, ':');
        let last = fields.last();
        assert forall|i: int| 0 <= i < fields.len() implies (#[trigger] group_value(fields[i]))
            == Some(groups[i]) by {
            lemma_group(groups[i]);
        }
        assert(Seq::new(fields.len(), |i: int| group_value(fields[i])->0) =~= groups);
        lemma_group(groups.last());
        lemma_split_one(last, '.');
        assert(ipv4_value(last) is None);
    }
}

/// The fields of groups that are written out.
proof fn lemma_groups_split(groups: Seq<u16>)
    requires
        groups.len() > 0,
    ensures
        split(groups_text(groups), ':') == Seq::new(
            groups.len(),
            |i: int| digits(groups[i] as nat, 16),
        ),
        plain(groups_text(groups)),
        groups_text(groups).len() > 0,
        groups.len() > 1 ==> groups_text(groups).contains(':'),
    decreases groups.len(),
{
    let s = groups_text(groups);
    let d = digits(groups.last() as nat, 16);
    lemma_group(groups.last());
    if groups.len() == 1 {
        lemma_split_one(d, ':');
        assert(split(s, ':') =~= Seq::new(
            groups.len(),
            |i: int| digits(groups[i] as nat, 16),
        ));
        assert(d.contains(d[0]) && d.contains(d.last())) by {
            assert(d[d.len() - 1] == d.last());
        }
        assert forall|i: int| !#[trigger] double_colon_at(s, i) by {
            if double_colon_at(s, i) {
                assert(d[i] == ':');
            }
        }
    } else {
        let head = groups.drop_last();
        let a = groups_text(head);
        lemma_groups_split(head);
        lemma_split_last(a, d, ':');
        assert(split(s, ':') =~= Seq::new(
            groups.len(),
            |i: int| digits(groups[i] as nat, 16),
        ));
        assert(s[a.len() as int] == ':');
        assert(d.contains(d[0]) && d.contains(d.last())) by {
            assert(d[d.len() - 1] == d.last());
        }
        assert forall|i: int| !#[trigger] double_colon_at(s, i) by {
            if double_colon_at(s, i) {
                if i + 1 < a.len() {
                    assert(double_colon_at(a, i));
                } else if i + 1 == a.len() {
                    assert(a.last() == ':');
                } else {
                    assert(s[i + 1] == d[i - a.len()]);
                    assert(d.contains(':'));
                }
            }
        }
        assert(s[0] == a[0]);
        assert(s.last() == d.last());
    }
}

/// The first double colon.
proof fn lemma_first_double_colon(s: Seq<char>, from: int, at: int)
    requires
        0 <= from <= at,
        double_colon_at(s, at),
        forall|i: int| from <= i < at ==> !#[trigger] double_colon_at(s, i),
    ensures
        double_colon(s, from) == Some(at),
    decreases at - from,
{
    if from < at {
        lemma_first_double_colon(s, from + 1, at);
    }
}

/// A text without double colon.
proof fn lemma_no_double_colon(s: Seq<char>, from: int)
    requires
        0 <= from,
        forall|i: int| !#[trigger] double_colon_at(s, i),
    ensures
        double_colon(s, from) is None,
    decreases s.len() - from,
{
    if from < s.len() {
        lemma_no_double_colon(s, from + 1);
    }
}

/// The double colon between two texts, the first of which is plain.
proof fn lemma_compressed(a: Seq<char>, b: Seq<char>)
    requires
        plain(a),
    ensures
        ({
            let s = a + seq![':', ':'] + b;
            &&& double_colon(s, 0) == Some(a.len() as int)
            &&& s.take(a.len() as int) == a
            &&& s.skip(a.len() as int + 2) == b
            &&& s.contains(':')
        }),
{
    let s = a + seq![':', ':'] + b;
    let at = a.len() as int;
    assert(s[at] == ':' && s[at + 1] == ':');
    assert forall|i: int| 0 <= i < at implies !#[trigger] double_colon_at(s, i) by {
        if double_colon_at(s, i) {
            if i + 1 < at {
                assert(double_colon_at(a, i));
            } else {
                assert(a.last() == ':');
            }
        }
    }
    lemma_first_double_colon(s, 0, at);
    assert(s.take(at) =~= a);
    assert(s.skip(at + 2) =~= b);
}

/// A run of zero groups consists of zero groups.
proof fn lemma_zero_run(groups: Seq<u16>, i: int)
    requires
        0 <= i <= groups.len(),
    ensures
        i + zero_run(groups, i) <= groups.len(),
        forall|j: int| i <= j < i + zero_run(groups, i) ==> groups[j] == 0,
    decreases groups.len() - i,
{
    if i < groups.len() && groups[i] == 0 {
        lemma_zero_run(groups, i + 1);
    }
}

/// The longest run starts below the bound.
proof fn lemma_longest_zero_run(groups: Seq<u16>, n: nat)
    requires
        n >= 1,
    ensures
        0 <= longest_zero_run(groups, n) < n,
    decreases n,
{
    if n > 1 {
        lemma_longest_zero_run(groups, (n - 1) as nat);
    }
}

/// The text of an IPv4-mapped address denotes it.
proof fn lemma_mapped_round_trip(octets: Seq<u8>)
    requires
        octets.len() == 16,
        ipv4_mapped(groups_of(octets)),
    ensures
        ipv6_value(ipv6_text(octets)) == Some(groups_of(octets)),
        ipv6_text(octets).contains(':'),
{
    let groups = groups_of(octets);
    let rest = octets.skip(12);
    let ffff = seq!['f', 'f', 'f', 'f'];
    let tail = ffff + seq![':'] + ipv4_text(rest);
    lemma_ipv4_round_trip(rest);
    lemma_compressed(Seq::empty(), tail);
    assert(ipv6_text(octets) =~= Seq::<char>::empty() + seq![':', ':'] + tail);
    assert(!ffff.contains(':'));
    lemma_split_one(ffff, ':');
    lemma_split_last(ffff, ipv4_text(rest), ':');
    let fields = split(tail, ':');
    assert(fields =~= seq![ffff, ipv4_text(rest)]);
    assert(fields.drop_last() =~= seq![ffff]);
    lemma_ffff(ffff);
    assert(fields_value(seq![ffff])->0 =~= seq![0xffffu16]);
    let tail_groups = seq![0xffffu16] + groups_of(rest);
    assert(side_value(tail, true)->0 =~= tail_groups);
    assert(tail_groups[1] == groups[6] && tail_groups[2] == groups[7]);
    assert(groups =~= Seq::<u16>::empty() + zeros(5) + tail_groups);
}

/// The text of an address with a double colon denotes it.
proof fn lemma_compressed_round_trip(groups: Seq<u16>, start: int, len: nat)
    requires
        groups.len() == 8,
        0 <= start,
        start + len <= 8,
        len >= 2,
        forall|j: int| start <= j < start + len ==> groups[j] == 0,
    ensures
        ({
            let text = groups_text(groups.take(start)) + seq![':', ':'] + groups_text(
                groups.skip(start + len),
            );
            ipv6_value(text) == Some(groups) && text.contains(':')
        }),
{
    let head = groups.take(start);
    let tail = groups.skip(start + len);
    lemma_groups_round_trip(head);
    lemma_groups_round_trip(tail);
    lemma_compressed(groups_text(head), groups_text(tail));
    assert(groups =~= head + zeros(len) + tail);
}

/// The text of an IPv6 address denotes it, and is no IPv4 text.
pub proof fn lemma_ipv6_round_trip(octets: Seq<u8>)
    requires
        octets.len() == 16,
    ensures
        ipv6_value(ipv6_text(octets)) == Some(groups_of(octets)),
        octets_of(groups_of(octets)) == octets,
        ipv4_value(ipv6_text(octets)) is None,
{
    let groups = groups_of(octets);
    let text = ipv6_text(octets);
    let start = longest_zero_run(groups, 8);
    let len = zero_run(groups, start);
    assert(octets_of(groups) =~= octets);
    if ipv4_mapped(groups) {
        lemma_mapped_round_trip(octets);
    } else {
        lemma_longest_zero_run(groups, 8);
        lemma_zero_run(groups, start);
        if len >= 2 {
            lemma_compressed_round_trip(groups, start, len);
        } else {
            lemma_groups_round_trip(groups);
            lemma_no_double_colon(text, 0);
        }
    }
    lemma_ipv4_has_no_colon(text);
}

/// Four times the digit for fifteen.
proof fn lemma_ffff(s: Seq<char>)
    requires
        s == seq!['f', 'f', 'f', 'f'],
    ensures
        group_value(s) == Some(0xffffu16),
{
    reveal_with_fuel(number_value, 5);
    assert(s.drop_last() =~= seq!['f', 'f', 'f']);
    assert(seq!['f', 'f', 'f'].drop_last() =~= seq!['f', 'f']);
    assert(seq!['f', 'f'].drop_last() =~= seq!['f']);
    assert(seq!['f'].drop_last() =~= Seq::<char>::empty());
}

/// An IP text denotes as many octets as the version asks for.
pub proof fn lemma_ip_value_valid(s: Seq<char>)
    ensures
        match ip_value(s) {
            Some(IpModel::V4(octets)) => octets.len() == 4,
            Some(IpModel::V6(octets)) => octets.len() == 16,
            None => true,
        },
{
}

/// One field of an IPv4 text is a number of at most three figures and at most 255, without a
/// zero in front of another figure.
pub proof fn lemma_octet_text(s: Seq<char>, octet: u8)
    ensures
        octet_value(s) == Some(octet) <==> {
            &&& 1 <= s.len() <= 3
            &&& all_digits(s, 10)
            &&& number_value(s, 10) == octet
            &&& s.len() > 1 ==> s[0] != '0'
        },
{
}

/// Four fields with dots between denote the four octets that they denote, in their order,
/// and nothing else is an IPv4 text.
pub proof fn lemma_ipv4_fields(s: Seq<char>, octets: Seq<u8>)
    ensures
        ipv4_value(s) == Some(octets) <==> {
            let fields = split(s, '.');
            &&& fields.len() == 4
            &&& octets.len() == 4
            &&& octet_value(fields[0]) == Some(octets[0])
            &&& octet_value(fields[1]) == Some(octets[1])
            &&& octet_value(fields[2]) == Some(octets[2])
            &&& octet_value(fields[3]) == Some(octets[3])
        },
{
    let fields = split(s, '.');
    if fields.len() == 4 && octets.len() == 4 && octet_value(fields[0]) == Some(octets[0])
        && octet_value(fields[1]) == Some(octets[1]) && octet_value(fields[2]) == Some(octets[2])
        && octet_value(fields[3]) == Some(octets[3]) {
        assert(Seq::new(4, |i: int| octet_value(fields[i])->0) =~= octets);
    }
    if ipv4_value(s) == Some(octets) {
        assert(octet_value(fields[0]) is Some && octet_value(fields[1]) is Some && octet_value(
            fields[2],
        ) is Some && octet_value(fields[3]) is Some);
    }
}

/// One to four hexadecimal digits, in either case and with any zeros in front, denote their
/// number as a group, and nothing else does.
pub proof fn lemma_group_text(s: Seq<char>, group: u16)
    ensures
        group_value(s) == Some(group) <==> 1 <= s.len() <= 4 && all_digits(s, 16) && number_value(
            s,
            16,
        ) == group,
        group_value(s) is Some <==> 1 <= s.len() <= 4 && all_digits(s, 16),
{
    if 1 <= s.len() <= 4 && all_digits(s, 16) {
        lemma_four_hex_digits(s);
    }
}

/// Fields denote groups where each of them does, in their order.
pub proof fn lemma_fields_text(fields: Seq<Seq<char>>, groups: Seq<u16>)
    ensures
        fields_value(fields) == Some(groups) <==> {
            &&& groups.len() == fields.len()
            &&& forall|k: int|
                0 <= k < fields.len() ==> (#[trigger] group_value(fields[k])) == Some(groups[k])
        },
{
    if groups.len() == fields.len() && forall|k: int|
        0 <= k < fields.len() ==> (#[trigger] group_value(fields[k])) == Some(groups[k]) {
        assert(Seq::new(fields.len(), |i: int| group_value(fields[i])->0) =~= groups);
    }
}

/// An IPv4 text is no group.
proof fn lemma_ipv4_is_no_group(s: Seq<char>)
    requires
        ipv4_value(s) is Some,
    ensures
        group_value(s) is None,
{
    if group_value(s) is Some {
        lemma_digit_is_no_mark(s, 16, '.');
        lemma_split_one(s, '.');
    }
}

/// One side of an IPv6 text is empty, or fields with colons between that denote a group
/// each. Where that is allowed, the last one may be an IPv4 text instead, which denotes
/// two.
pub proof fn lemma_side_text(s: Seq<char>, ipv4_last: bool, groups: Seq<u16>)
    ensures
        side_value(s, ipv4_last) == Some(groups) <==> {
            let fields = split(s, ':');
            let m = fields.len() - 1;
            ||| s.len() == 0 && groups.len() == 0
            ||| {
                &&& s.len() > 0
                &&& groups.len() == fields.len()
                &&& forall|k: int|
                    0 <= k < fields.len() ==> (#[trigger] group_value(fields[k])) == Some(groups[k])
            }
            ||| {
                &&& s.len() > 0
                &&& ipv4_last
                &&& ipv4_value(fields[m]) is Some
                &&& groups.len() == fields.len() + 1
                &&& forall|k: int|
                    0 <= k < m ==> (#[trigger] group_value(fields[k])) == Some(groups[k])
                &&& groups[m] == ipv4_value(fields[m])->0[0] * 256 + ipv4_value(fields[m])->0[1]
                &&& groups[m + 1] == ipv4_value(fields[m])->0[2] * 256 + ipv4_value(fields[m])->0[3]
            }
        },
{
    let fields = split(s, ':');
    lemma_split_nonempty(s, ':');
    let m = fields.len() - 1;
    let last = fields.last();
    let head = fields.drop_last();
    assert(fields[m] == last);
    lemma_fields_text(fields, groups);
    if s.len() == 0 {
        assert(groups.len() == 0 ==> groups =~= Seq::empty());
    } else if ipv4_last && ipv4_value(last) is Some {
        let octets = ipv4_value(last)->0;
        lemma_ipv4_is_no_group(last);
        assert(group_value(fields[m]) is None);
        assert forall|k: int| 0 <= k < m implies head[k] == fields[k] by {}
        if side_value(s, ipv4_last) == Some(groups) {
            let front = fields_value(head)->0;
            lemma_fields_text(head, front);
            assert(groups =~= front + groups_of(octets));
            assert forall|k: int| 0 <= k < m implies (#[trigger] group_value(fields[k])) == Some(
                groups[k],
            ) by {
                assert(group_value(head[k]) == Some(front[k]));
            }
            assert(groups_of(octets)[0] == groups[m] && groups_of(octets)[1] == groups[m + 1]);
        }
        if groups.len() == fields.len() + 1 && (forall|k: int|
            0 <= k < m ==> (#[trigger] group_value(fields[k])) == Some(groups[k])) && groups[m]
            == octets[0] * 256 + octets[1] && groups[m + 1] == octets[2] * 256 + octets[3] {
            let front = groups.take(m);
            assert forall|k: int| 0 <= k < head.len() implies (#[trigger] group_value(head[k]))
                == Some(front[k]) by {
                assert(group_value(fields[k]) == Some(groups[k]));
            }
            lemma_fields_text(head, front);
            assert(groups =~= front + groups_of(octets));
        }
    }
}

/// An IPv6 text without a double colon writes eight groups out.
pub proof fn lemma_ipv6_written_out(s: Seq<char>, groups: Seq<u16>)
    requires
        forall|i: int|
            0 <= i < s.len() - 1 ==> !(s[i] == ':' && #[trigger] s[i + 1] == ':'),
    ensures
        ipv6_value(s) == Some(groups) <==> groups.len() == 8 && side_value(s, true) == Some(groups),
{
    assert forall|i: int| !#[trigger] double_colon_at(s, i) by {
        if double_colon_at(s, i) {
            assert(s[i + 1] == ':');
        }
    }
    lemma_no_double_colon(s, 0);
}

/// The first double colon of an IPv6 text stands for the zeros that are missing between
/// what is in front of it and what is behind it, at least one group of them.
pub proof fn lemma_ipv6_shortened(s: Seq<char>, at: int, groups: Seq<u16>)
    requires
        0 <= at < s.len() - 1,
        s[at] == ':',
        s[at + 1] == ':',
        forall|i: int| 0 <= i < at ==> !(s[i] == ':' && #[trigger] s[i + 1] == ':'),
    ensures
        ipv6_value(s) is Some <==> {
            let head = side_value(s.take(at), false);
            let tail = side_value(s.skip(at + 2), true);
            head is Some && tail is Some && head->0.len() + tail->0.len() <= 7
        },
        ipv6_value(s) == Some(groups) ==> {
            let head = side_value(s.take(at), false)->0;
            let tail = side_value(s.skip(at + 2), true)->0;
            &&& groups.len() == 8
            &&& forall|k: int| 0 <= k < head.len() ==> groups[k] == head[k]
            &&& forall|k: int| head.len() <= k < 8 - tail.len() ==> groups[k] == 0
            &&& forall|k: int| 0 <= k < tail.len() ==> groups[8 - tail.len() + k] == #[trigger] tail[k]
        },
{
    assert forall|i: int| 0 <= i < at implies !#[trigger] double_colon_at(s, i) by {
        if double_colon_at(s, i) {
            assert(s[i + 1] == ':');
        }
    }
    lemma_first_double_colon(s, 0, at);
}

/// Eight texts of one to four hexadecimal digits, however each is written, with colons
/// between denote the eight groups that are their numbers.
pub proof fn lemma_eight_groups(fields: Seq<Seq<char>>, k: int)
    requires
        fields.len() == 8,
        forall|i: int|
            0 <= i < 8 ==> 1 <= (#[trigger] fields[i]).len() <= 4 && all_digits(fields[i], 16),
        0 <= k < 8,
    ensures
        ipv6_value(joined(fields, ':')) is Some,
        ipv6_value(joined(fields, ':'))->0.len() == 8,
        ipv6_value(joined(fields, ':'))->0[k] == number_value(fields[k], 16),
        ipv4_value(joined(fields, ':')) is None,
{
    let s = joined(fields, ':');
    let groups = Seq::new(8, |i: int| group_value(fields[i])->0);
    assert forall|i: int| 0 <= i < 8 implies !(#[trigger] fields[i]).contains(':') by {
        lemma_digit_is_no_mark(fields[i], 16, ':');
    }
    lemma_split_joined(fields, ':');
    lemma_joined_is_plain(fields);
    lemma_no_double_colon(s, 0);
    assert forall|i: int| 0 <= i < 8 implies (#[trigger] group_value(fields[i])) == Some(
        groups[i],
    ) by {
        lemma_group_text(fields[i], groups[i]);
    }
    assert(s.len() > 0);
    lemma_side_text(s, true, groups);
    lemma_group_text(fields[k], groups[k]);
    lemma_ipv4_has_no_colon(s);
}

/// Fields that are not empty and hold no colon are plain when joined.
proof fn lemma_joined_is_plain(fields: Seq<Seq<char>>)
    requires
        fields.len() > 0,
        forall|i: int|
            0 <= i < fields.len() ==> (#[trigger] fields[i]).len() > 0 && !fields[i].contains(':'),
    ensures
        plain(joined(fields, ':')),
        joined(fields, ':').len() > 0,
        fields.len() > 1 ==> joined(fields, ':').contains(':'),
    decreases fields.len(),
{
    let s = joined(fields, ':');
    let d = fields.last();
    assert(fields[fields.len() - 1] == d);
    assert(d[d.len() - 1] == d.last());
    if fields.len() == 1 {
        assert forall|i: int| !#[trigger] double_colon_at(s, i) by {
            if double_colon_at(s, i) {
                assert(d[i] == ':');
            }
        }
    } else {
        let head = fields.drop_last();
        let a = joined(head, ':');
        assert forall|i: int| 0 <= i < head.len() implies (#[trigger] head[i]).len() > 0
            && !head[i].contains(':') by {
            assert(head[i] == fields[i]);
        }
        lemma_joined_is_plain(head);
        assert(s[a.len() as int] == ':');
        assert forall|i: int| !#[trigger] double_colon_at(s, i) by {
            if double_colon_at(s, i) {
                if i + 1 < a.len() {
                    assert(double_colon_at(a, i));
                } else if i + 1 == a.len() {
                    assert(a.last() == ':');
                } else {
                    assert(s[i + 1] == d[i - a.len()]);
                    assert(d.contains(':'));
                }
            }
        }
        assert(s[0] == a[0]);
        assert(s.last() == d.last());
    }
}

/// Each group is two octets, the high one first.
pub proof fn lemma_groups_and_octets(octets: Seq<u8>, groups: Seq<u16>, k: int)
    ensures
        groups_of(octets).len() == octets.len() / 2,
        0 <= k < octets.len() / 2 ==> groups_of(octets)[k] == octets[2 * k] * 256 + octets[2 * k
            + 1],
        octets_of(groups).len() == 2 * groups.len(),
        0 <= k < groups.len() ==> octets_of(groups)[2 * k] * 256 + octets_of(groups)[2 * k + 1]
            == groups[k],
{
}

/// An IP address is of version 4 where the text is one of that version, and else of version
/// 6 with the octets of its groups.
pub proof fn lemma_ip_text(s: Seq<char>, k: int)
    ensures
        ipv4_value(s) is Some ==> ip_value(s) == Some(IpModel::V4(ipv4_value(s)->0)),
        ipv4_value(s) is None && ipv6_value(s) is None ==> ip_value(s) is None,
        ipv4_value(s) is None && ipv6_value(s) is Some ==> {
            &&& ip_value(s) is Some
            &&& ip_value(s)->0 is V6
            &&& ip_value(s)->0->V6_0.len() == 2 * ipv6_value(s)->0.len()
            &&& 0 <= k < ipv6_value(s)->0.len() ==> ip_value(s)->0->V6_0[2 * k] * 256
                + ip_value(s)->0->V6_0[2 * k + 1] == ipv6_value(s)->0[k]
        },
{
}

/// A socket address of an IP address and a port has that address, that port, and neither
/// flow information nor scope.
pub proof fn lemma_socket_of(octets: Seq<u8>, port: u16)
    ensures
        socket_of(IpModel::V4(octets), port) == (SocketModel::V4 { ip: octets, port }),
        socket_of(IpModel::V6(octets), port) == (SocketModel::V6 {
            ip: octets,
            port,
            flowinfo: 0,
            scope_id: 0,
        }),
{
}

/// An IP address and a socket address stand for their octets and numbers.
pub proof fn lemma_addresses_stand_for_themselves(ip: IpAddr, addr: SocketAddr)
    ensures
        match ip {
            IpAddr::V4(octets) => ip@ == IpModel::V4(octets@),
            IpAddr::V6(octets) => ip@ == IpModel::V6(octets@),
        },
        match addr {
            SocketAddr::V4(a) => addr@ == (SocketModel::V4 { ip: a.ip@, port: a.port }),
            SocketAddr::V6(a) => addr@ == (SocketModel::V6 {
                ip: a.ip@,
                port: a.port,
                flowinfo: a.flowinfo,
                scope_id: a.scope_id,
            }),
        },
{
}

/// An IPv4 address is written as its four octets in decimal with dots between.
pub proof fn lemma_ipv4_text(octets: Seq<u8>)
    requires
        octets.len() == 4,
    ensures
        split(ipv4_text(octets), '.') == Seq::new(4, |k: int| digits(octets[k] as nat, 10)),
{
    let fields = Seq::new(4, |k: int| digits(octets[k] as nat, 10));
    assert forall|k: int| 0 <= k < 4 implies !(#[trigger] fields[k]).contains('.') by {
        lemma_octet(octets[k]);
    }
    lemma_split_joined(fields, '.');
    let three = fields.drop_last();
    let two = three.drop_last();
    let one = two.drop_last();
    assert(joined(one, '.') == fields[0]);
    assert(joined(two, '.') == joined(one, '.') + seq!['.'] + fields[1]);
    assert(joined(three, '.') == joined(two, '.') + seq!['.'] + fields[2]);
    assert(joined(fields, '.') == joined(three, '.') + seq!['.'] + fields[3]);
    assert(joined(fields, '.') =~= ipv4_text(octets));
}

/// Groups are written in hexadecimal with colons between.
pub proof fn lemma_groups_text(groups: Seq<u16>)
    ensures
        groups_text(groups) == joined(
            Seq::new(groups.len(), |k: int| digits(groups[k] as nat, 16)),
            ':',
        ),
    decreases groups.len(),
{
    let fields = Seq::new(groups.len(), |k: int| digits(groups[k] as nat, 16));
    if groups.len() > 1 {
        let head = groups.drop_last();
        lemma_groups_text(head);
        assert(fields.drop_last() =~= Seq::new(head.len(), |k: int| digits(head[k] as nat, 16)));
    }
}

/// A run of zero groups goes on as long as there are zeros and no longer.
pub proof fn lemma_zero_run_is_full(groups: Seq<u16>, i: int)
    requires
        0 <= i <= groups.len(),
    ensures
        i + zero_run(groups, i) <= groups.len(),
        forall|j: int| i <= j < i + zero_run(groups, i) ==> groups[j] == 0,
        i + zero_run(groups, i) < groups.len() ==> groups[i + zero_run(groups, i)] != 0,
    decreases groups.len() - i,
{
    if i < groups.len() && groups[i] == 0 {
        lemma_zero_run_is_full(groups, i + 1);
    }
}

/// An IPv4-mapped address is written with its last four octets in dotted decimal.
pub proof fn lemma_mapped_text(octets: Seq<u8>)
    requires
        octets.len() == 16,
        forall|i: int| 0 <= i < 10 ==> octets[i] == 0,
        octets[10] == 255,
        octets[11] == 255,
    ensures
        ipv6_text(octets) == seq![':', ':', 'f', 'f', 'f', 'f', ':'] + ipv4_text(octets.skip(12)),
{
    let groups = groups_of(octets);
    assert(groups[0] == 0 && groups[1] == 0 && groups[2] == 0 && groups[3] == 0 && groups[4] == 0
        && groups[5] == 0xffff);
}

/// Any other IPv6 address is written as its groups, with a double colon for the longest run
/// of two or more zero groups, for the first of them where several are as long.
pub proof fn lemma_ipv6_text_short(octets: Seq<u8>, start: int)
    requires
        octets.len() == 16,
        !(forall|i: int| 0 <= i < 10 ==> octets[i] == 0) || octets[10] != 255 || octets[11] != 255,
        0 <= start < 8,
        forall|i: int|
            0 <= i < start ==> (#[trigger] zero_run(groups_of(octets), i)) < zero_run(
                groups_of(octets),
                start,
            ),
        forall|i: int|
            start <= i < 8 ==> (#[trigger] zero_run(groups_of(octets), i)) <= zero_run(
                groups_of(octets),
                start,
            ),
    ensures
        ({
            let groups = groups_of(octets);
            let len = zero_run(groups, start);
            ipv6_text(octets) == (if len >= 2 {
                groups_text(groups.take(start)) + seq![':', ':'] + groups_text(
                    groups.skip(start + len),
                )
            } else {
                groups_text(groups)
            })
        }),
{
    let groups = groups_of(octets);
    lemma_longest_is_first(groups, start, 8);
    if ipv4_mapped(groups) {
        assert forall|i: int| 0 <= i < 10 implies octets[i] == 0 by {
            assert(groups[i / 2] == 0);
        }
        assert(groups[5] == 0xffff);
        assert(false);
    }
}

/// The first of the longest runs is the one that is found.
proof fn lemma_longest_is_first(groups: Seq<u16>, start: int, n: nat)
    requires
        0 <= start < n,
        forall|i: int|
            0 <= i < start ==> (#[trigger] zero_run(groups, i)) < zero_run(groups, start),
        forall|i: int|
            start <= i < n ==> (#[trigger] zero_run(groups, i)) <= zero_run(groups, start),
    ensures
        longest_zero_run(groups, n) == start,
    decreases n,
{
    if n > 1 {
        if start < n - 1 {
            lemma_longest_is_first(groups, start, (n - 1) as nat);
        } else {
            lemma_longest_zero_run(groups, (n - 1) as nat);
        }
    }
}

/// A socket address is written as its IP address, a colon and its port. An IPv6 address
/// stands in brackets, with a percent sign and the scope behind it where there is one.
pub proof fn lemma_socket_text(ip: Seq<u8>, port: u16, flowinfo: u32, scope_id: u32)
    ensures
        socket_text(SocketModel::V4 { ip, port }) == ipv4_text(ip) + seq![':'] + digits(
            port as nat,
            10,
        ),
        socket_text(SocketModel::V6 { ip, port, flowinfo, scope_id: 0 }) == seq!['['] + ipv6_text(
            ip,
        ) + seq![']', ':'] + digits(port as nat, 10),
        scope_id != 0 ==> socket_text(SocketModel::V6 { ip, port, flowinfo, scope_id }) == seq!['[']
            + ipv6_text(ip) + seq!['%'] + digits(scope_id as nat, 10) + seq![']', ':'] + digits(
            port as nat,
            10,
        ),
{
    assert(socket_text(SocketModel::V6 { ip, port, flowinfo, scope_id: 0 }) =~= seq!['[']
        + ipv6_text(ip) + seq![']', ':'] + digits(port as nat, 10));
    if scope_id != 0 {
        assert(socket_text(SocketModel::V6 { ip, port, flowinfo, scope_id }) =~= seq!['[']
            + ipv6_text(ip) + seq!['%'] + digits(scope_id as nat, 10) + seq![']', ':'] + digits(
            port as nat,
            10,
        ));
    }
}

} // verus!
