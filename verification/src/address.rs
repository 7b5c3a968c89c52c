//! IP addresses, their textual forms, and socket addresses.

use vstd::prelude::*;

use crate::text::{
    chars_of, joined, split, split_on, splitting_cuts_at_each_separator, splitting_undoes_joining,
    texts,
};

verus! {

/// An IP address. An IPv6 address is held as its eight 16-bit groups.
#[derive(Clone, Copy, Debug, PartialEq, Eq)]
pub enum IpAddr {
    V4([u8; 4]),
    V6([u16; 8]),
}

/// What an [`IpAddr`] stands for.
pub enum IpAddrView {
    V4(Seq<u8>),
    V6(Seq<u16>),
}

impl View for IpAddr {
    type V = IpAddrView;

    open spec fn view(&self) -> IpAddrView {
        match *self {
            IpAddr::V4(octets) => IpAddrView::V4(octets@),
            IpAddr::V6(groups) => IpAddrView::V6(groups@),
        }
    }
}

/// The value of a hexadecimal digit.
pub open spec fn digit_value(c: char) -> Option<nat> {
    if '0' <= c <= '9' {
        Some((c as u32 - '0' as u32) as nat)
    } else if 'a' <= c <= 'f' {
        Some((c as u32 - 'a' as u32 + 10) as nat)
    } else if 'A' <= c <= 'F' {
        Some((c as u32 - 'A' as u32 + 10) as nat)
    } else {
        None
    }
}

/// The number that `digits` stand for in base ten.
pub open spec fn decimal_value(digits: Seq<char>) -> nat
    decreases digits.len(),
{
    if digits.len() == 0 {
        0
    } else {
        10 * decimal_value(digits.drop_last()) + digit_value(digits.last()).unwrap()
    }
}

/// The number that `digits` stand for in base sixteen.
pub open spec fn hexadecimal_value(digits: Seq<char>) -> nat
    decreases digits.len(),
{
    if digits.len() == 0 {
        0
    } else {
        16 * hexadecimal_value(digits.drop_last()) + digit_value(digits.last()).unwrap()
    }
}

/// A part of a dotted IPv4 address: one to three decimal digits, without a
/// superfluous leading zero, that stand for a number below 256.
pub open spec fn octet_of(text: Seq<char>) -> Option<u8> {
    if 1 <= text.len() <= 3 && (forall|i: int|
        0 <= i < text.len() ==> '0' <= #[trigger] text[i] <= '9') && (text.len() > 1 ==> text[0]
        != '0') && decimal_value(text) <= 255 {
        Some(decimal_value(text) as u8)
    } else {
        None
    }
}

/// A group of an IPv6 address: one to four hexadecimal digits.
pub open spec fn group_of(text: Seq<char>) -> Option<u16> {
    if 1 <= text.len() <= 4 && (forall|i: int|
        0 <= i < text.len() ==> digit_value(#[trigger] text[i]) is Some) {
        Some(hexadecimal_value(text) as u16)
    } else {
        None
    }
}

/// The octets of an IPv4 address in dotted decimal form.
pub open spec fn ipv4_of(text: Seq<char>) -> Option<Seq<u8>> {
    let parts = split_on(text, '.');
    if parts.len() == 4 && forall|i: int| 0 <= i < 4 ==> octet_of(#[trigger] parts[i]) is Some {
        Some(Seq::new(4, |i: int| octet_of(parts[i]).unwrap()))
    } else {
        None
    }
}

/// The groups that the parts of an IPv6 address stand for, if each of them is a group.
pub open spec fn groups_of(parts: Seq<Seq<char>>) -> Option<Seq<u16>> {
    if forall|i: int| 0 <= i < parts.len() ==> group_of(#[trigger] parts[i]) is Some {
        Some(Seq::new(parts.len(), |i: int| group_of(parts[i]).unwrap()))
    } else {
        None
    }
}

/// The two groups that four octets make up.
pub open spec fn groups_of_octets(octets: Seq<u8>) -> Seq<u16> {
    seq![(octets[0] * 256 + octets[1]) as u16, (octets[2] * 256 + octets[3]) as u16]
}

/// The groups of one side of an IPv6 address. Where `ends_address` holds, the
/// last part may be an IPv4 address in place of two groups.
pub open spec fn side_of(text: Seq<char>, ends_address: bool) -> Option<Seq<u16>> {
    let parts = split_on(text, ':');
    if text.len() == 0 {
        Some(Seq::empty())
    } else if ends_address && ipv4_of(parts.last()) is Some {
        match groups_of(parts.drop_last()) {
            Some(groups) => Some(groups + groups_of_octets(ipv4_of(parts.last()).unwrap())),
            None => None,
        }
    } else {
        groups_of(parts)
    }
}

/// Where the first `::` at or after `from` stands.
pub open spec fn double_colon(text: Seq<char>, from: int) -> Option<int>
    decreases text.len() - from,
{
    if from + 1 >= text.len() {
        None
    } else if text[from] == ':' && text[from + 1] == ':' {
        Some(from)
    } else {
        double_colon(text, from + 1)
    }
}

/// The groups of an IPv6 address in text form: eight groups, or fewer groups
/// around one `::` that stands for at least one group of zeros.
pub open spec fn ipv6_of(text: Seq<char>) -> Option<Seq<u16>> {
    match double_colon(text, 0) {
        None => match side_of(text, true) {
            Some(groups) if groups.len() == 8 => Some(groups),
            _ => None,
        },
        Some(at) => match (side_of(text.take(at), false), side_of(text.skip(at + 2), true)) {
            (Some(head), Some(tail)) if head.len() + tail.len() <= 7 => Some(
                head + Seq::new((8 - head.len() - tail.len()) as nat, |i: int| 0u16) + tail,
            ),
            _ => None,
        },
    }
}

/// The IP address that a text stands for.
pub open spec fn ip_of(text: Seq<char>) -> Option<IpAddrView> {
    if ipv4_of(text) is Some {
        Some(IpAddrView::V4(ipv4_of(text).unwrap()))
    } else if ipv6_of(text) is Some {
        Some(IpAddrView::V6(ipv6_of(text).unwrap()))
    } else {
        None
    }
}

fn parse_octet(text: &str) -> (result: Option<u8>)
    ensures
        result == octet_of(text@),
{
    let chars = chars_of(text);
    if chars.len() == 0 || chars.len() > 3 {
        return None;
    }
    if chars.len() > 1 && chars[0] == '0' {
        return None;
    }
    let mut value: u16 = 0;
    let mut i: usize = 0;
    assert(text@.take(0) == Seq::<char>::empty());
    while i < chars.len()
        invariant
            chars@ == text@,
            i <= chars.len() <= 3,
            value == decimal_value(text@.take(i as int)),
            i == 0 ==> value == 0,
            i == 1 ==> value <= 9,
            i == 2 ==> value <= 99,
            i == 3 ==> value <= 999,
            forall|j: int| 0 <= j < i ==> '0' <= #[trigger] text@[j] <= '9',
        decreases chars.len() - i,
    {
        let c = chars[i];
        if c < '0' || '9' < c {
            assert(!('0' <= text@[i as int] <= '9'));
            return None;
        }
        assert(text@.take(i + 1).drop_last() == text@.take(i as int));
        value = 10 * value + (c as u8 - '0' as u8) as u16;
        i = i + 1;
    }
    assert(text@.take(i as int) == text@);
    if value > 255 {
        None
    } else {
        Some(value as u8)
    }
}

fn parse_digit(c: char) -> (result: Option<u16>)
    ensures
        match result {
            Some(value) => digit_value(c) == Some(value as nat) && value < 16,
            None => digit_value(c) is None,
        },
{
    if '0' <= c && c <= '9' {
        Some((c as u8 - '0' as u8) as u16)
    } else if 'a' <= c && c <= 'f' {
        Some((c as u8 - 'a' as u8 + 10) as u16)
    } else if 'A' <= c && c <= 'F' {
        Some((c as u8 - 'A' as u8 + 10) as u16)
    } else {
        None
    }
}

fn parse_group(text: &str) -> (result: Option<u16>)
    ensures
        result == group_of(text@),
{
    let chars = chars_of(text);
    if chars.len() == 0 || chars.len() > 4 {
        return None;
    }
    let mut value: u16 = 0;
    let mut i: usize = 0;
    assert(text@.take(0) == Seq::<char>::empty());
    while i < chars.len()
        invariant
            chars@ == text@,
            i <= chars.len() <= 4,
            value == hexadecimal_value(text@.take(i as int)),
            i == 0 ==> value == 0,
            i == 1 ==> value <= 0xf,
            i == 2 ==> value <= 0xff,
            i == 3 ==> value <= 0xfff,
            forall|j: int| 0 <= j < i ==> digit_value(#[trigger] text@[j]) is Some,
        decreases chars.len() - i,
    {
        match parse_digit(chars[i]) {
            Some(digit) => {
                assert(text@.take(i + 1).drop_last() == text@.take(i as int));
                value = 16 * value + digit;
            },
            None => {
                assert(digit_value(text@[i as int]) is None);
                return None;
            },
        }
        i = i + 1;
    }
    assert(text@.take(i as int) == text@);
    Some(value)
}

fn parse_ipv4(text: &str) -> (result: Option<[u8; 4]>)
    ensures
        match result {
            Some(octets) => ipv4_of(text@) == Some(octets@),
            None => ipv4_of(text@) is None,
        },
{
    let parts = split(text, '.');
    let ghost pieces = split_on(text@, '.');
    if parts.len() != 4 {
        return None;
    }
    assert(forall|i: int| 0 <= i < 4 ==> pieces[i] == parts@[i]@) by {
        assert(pieces == texts(parts@));
    }
    match (parse_octet(parts[0]), parse_octet(parts[1]), parse_octet(parts[2]), parse_octet(
        parts[3],
    )) {
        (Some(a), Some(b), Some(c), Some(d)) => {
            let octets = [a, b, c, d];
            assert(octets@ == Seq::new(4, |i: int| octet_of(pieces[i]).unwrap()));
            Some(octets)
        },
        _ => {
            assert(octet_of(pieces[0]) is None || octet_of(pieces[1]) is None || octet_of(
                pieces[2],
            ) is None || octet_of(pieces[3]) is None);
            None
        },
    }
}

/// The groups that the first `count` of `parts` stand for.
fn parse_groups(parts: &Vec<&str>, count: usize) -> (result: Option<Vec<u16>>)
    requires
        count <= parts.len(),
    ensures
        match result {
            Some(groups) => groups_of(texts(parts@).take(count as int)) == Some(groups@),
            None => groups_of(texts(parts@).take(count as int)) is None,
        },
{
    let ghost pieces = texts(parts@).take(count as int);
    let mut groups: Vec<u16> = Vec::new();
    let mut i: usize = 0;
    while i < count
        invariant
            i <= count <= parts.len(),
            pieces == texts(parts@).take(count as int),
            groups.len() == i,
            forall|j: int|
                0 <= j < i ==> group_of(#[trigger] pieces[j]) == Some(groups@[j]),
        decreases count - i,
    {
        assert(pieces[i as int] == parts@[i as int]@);
        match parse_group(parts[i]) {
            Some(group) => {
                groups.push(group);
            },
            None => {
                return None;
            },
        }
        i = i + 1;
    }
    assert(groups@ == Seq::new(pieces.len(), |j: int| group_of(pieces[j]).unwrap()));
    Some(groups)
}

fn parse_side(text: &str, ends_address: bool) -> (result: Option<Vec<u16>>)
    ensures
        match result {
            Some(groups) => side_of(text@, ends_address) == Some(groups@),
            None => side_of(text@, ends_address) is None,
        },
{
    if text.is_empty() {
        let groups: Vec<u16> = Vec::new();
        assert(groups@ == Seq::<u16>::empty());
        return Some(groups);
    }
    let parts = split(text, ':');
    let ghost pieces = split_on(text@, ':');
    let last = parts.len() - 1;
    assert(pieces.last() == parts@[last as int]@) by {
        assert(pieces == texts(parts@));
    }
    assert(pieces.take(last as int) == pieces.drop_last());
    assert(pieces.take(parts.len() as int) == pieces);
    if ends_address {
        if let Some(octets) = parse_ipv4(parts[last]) {
            return match parse_groups(&parts, last) {
                Some(mut groups) => {
                    let ghost before = groups@;
                    groups.push(octets[0] as u16 * 256 + octets[1] as u16);
                    groups.push(octets[2] as u16 * 256 + octets[3] as u16);
                    assert(groups@ == before + groups_of_octets(octets@));
                    Some(groups)
                },
                None => None,
            };
        }
    }
    parse_groups(&parts, parts.len())
}

fn find_double_colon(chars: &Vec<char>) -> (result: Option<usize>)
    ensures
        match result {
            Some(at) => double_colon(chars@, 0) == Some(at as int) && at + 2 <= chars.len(),
            None => double_colon(chars@, 0) is None,
        },
{
    let mut i: usize = 0;
    while chars.len() - i > 1
        invariant
            i <= chars.len(),
            double_colon(chars@, 0) == double_colon(chars@, i as int),
        decreases chars.len() - i,
    {
        if chars[i] == ':' && chars[i + 1] == ':' {
            return Some(i);
        }
        i = i + 1;
    }
    None
}

/// The array of the eight groups in `groups`.
fn eight_groups(groups: &Vec<u16>) -> (result: [u16; 8])
    requires
        groups.len() == 8,
    ensures
        result@ == groups@,
{
    let result = [
        groups[0],
        groups[1],
        groups[2],
        groups[3],
        groups[4],
        groups[5],
        groups[6],
        groups[7],
    ];
    assert(result@ == groups@);
    result
}

fn parse_ipv6(text: &str) -> (result: Option<[u16; 8]>)
    ensures
        match result {
            Some(groups) => ipv6_of(text@) == Some(groups@),
            None => ipv6_of(text@) is None,
        },
{
    let chars = chars_of(text);
    match find_double_colon(&chars) {
        None => match parse_side(text, true) {
            Some(groups) => {
                if groups.len() == 8 {
                    Some(eight_groups(&groups))
                } else {
                    None
                }
            },
            None => None,
        },
        Some(at) => {
            let left = text.substring_char(0, at);
            let right = text.substring_char(at + 2, chars.len());
            assert(text@.take(at as int) == left@);
            assert(text@.skip(at + 2) == right@);
            match (parse_side(left, false), parse_side(right, true)) {
                (Some(mut groups), Some(mut tail)) => {
                    if groups.len() > 7 || tail.len() > 7 - groups.len() {
                        return None;
                    }
                    let ghost head = groups@;
                    while groups.len() + tail.len() < 8
                        invariant
                            head.len() + tail.len() <= 7,
                            head.len() <= groups.len(),
                            groups.len() + tail.len() <= 8,
                            groups@ == head + Seq::new(
                                (groups.len() - head.len()) as nat,
                                |i: int| 0u16,
                            ),
                        decreases 8 - groups.len(),
                    {
                        groups.push(0);
                    }
                    groups.append(&mut tail);
                    Some(eight_groups(&groups))
                },
                _ => None,
            }
        },
    }
}

/// The IP address that `text` stands for.
pub fn parse_ip(text: &str) -> (result: Option<IpAddr>)
    ensures
        match result {
            Some(ip) => ip_of(text@) == Some(ip@),
            None => ip_of(text@) is None,
        },
{
    match parse_ipv4(text) {
        Some(octets) => Some(IpAddr::V4(octets)),
        None => match parse_ipv6(text) {
            Some(groups) => Some(IpAddr::V6(groups)),
            None => None,
        },
    }
}

/// The address and port of one end of a connection.
#[derive(Clone, Copy, Debug, PartialEq, Eq)]
pub enum SocketAddr {
    V4 { octets: [u8; 4], port: u16 },
    V6 { groups: [u16; 8], port: u16, flowinfo: u32, scope_id: u32 },
}

/// What a [`SocketAddr`] stands for.
pub enum SocketAddrView {
    V4 { octets: Seq<u8>, port: u16 },
    V6 { groups: Seq<u16>, port: u16, flowinfo: u32, scope_id: u32 },
}

impl View for SocketAddr {
    type V = SocketAddrView;

    open spec fn view(&self) -> SocketAddrView {
        match *self {
            SocketAddr::V4 { octets, port } => SocketAddrView::V4 { octets: octets@, port },
            SocketAddr::V6 { groups, port, flowinfo, scope_id } => SocketAddrView::V6 {
                groups: groups@,
                port,
                flowinfo,
                scope_id,
            },
        }
    }
}

impl SocketAddrView {
    pub open spec fn port(self) -> u16 {
        match self {
            SocketAddrView::V4 { port, .. } => port,
            SocketAddrView::V6 { port, .. } => port,
        }
    }
}

/// The socket address made up of an IP address and a port.
pub open spec fn socket_addr_of(ip: IpAddrView, port: u16) -> SocketAddrView {
    match ip {
        IpAddrView::V4(octets) => SocketAddrView::V4 { octets, port },
        IpAddrView::V6(groups) => SocketAddrView::V6 { groups, port, flowinfo: 0, scope_id: 0 },
    }
}

impl SocketAddr {
    /// The socket address made up of an IP address and a port.
    pub fn new(ip: IpAddr, port: u16) -> (addr: Self)
        ensures
            addr@ == socket_addr_of(ip@, port),
    {
        match ip {
            IpAddr::V4(octets) => SocketAddr::V4 { octets, port },
            IpAddr::V6(groups) => SocketAddr::V6 { groups, port, flowinfo: 0, scope_id: 0 },
        }
    }

    pub fn is_ipv4(&self) -> (result: bool)
        ensures
            result == (self@ is V4),
    {
        match self {
            SocketAddr::V4 { .. } => true,
            SocketAddr::V6 { .. } => false,
        }
    }
}

/// Whether an IPv6 address is an IPv4 address in IPv6 form (`::ffff:a.b.c.d`).
pub open spec fn is_ipv4_mapped(groups: Seq<u16>) -> bool {
    &&& groups[0] == 0
    &&& groups[1] == 0
    &&& groups[2] == 0
    &&& groups[3] == 0
    &&& groups[4] == 0
    &&& groups[5] == 0xffff
}

/// The octets of an IPv4 address in IPv6 form.
pub open spec fn mapped_octets(groups: Seq<u16>) -> Seq<u8> {
    seq![
        (groups[6] / 256) as u8,
        (groups[6] % 256) as u8,
        (groups[7] / 256) as u8,
        (groups[7] % 256) as u8,
    ]
}

/// The socket address with an IPv4 address in IPv6 form written as an IPv4 address.
pub open spec fn canonical_of(addr: SocketAddrView) -> SocketAddrView {
    match addr {
        SocketAddrView::V6 { groups, port, .. } if is_ipv4_mapped(groups) => SocketAddrView::V4 {
            octets: mapped_octets(groups),
            port,
        },
        _ => addr,
    }
}

/// A socket address that is not an IPv4 address in IPv6 form.
#[derive(Clone, Copy, Debug, PartialEq, Eq)]
pub struct CanonicalSocketAddr(SocketAddr);

impl View for CanonicalSocketAddr {
    type V = SocketAddrView;

    closed spec fn view(&self) -> SocketAddrView {
        self.0@
    }
}

impl CanonicalSocketAddr {
    #[verifier::type_invariant]
    spec fn settled(self) -> bool {
        self.0@ matches SocketAddrView::V6 { groups, .. } ==> !is_ipv4_mapped(groups)
    }

    pub fn new(addr: SocketAddr) -> (canonical: Self)
        ensures
            canonical@ == canonical_of(addr@),
    {
        match addr {
            SocketAddr::V6 { groups, port, .. } => {
                if groups[0] == 0 && groups[1] == 0 && groups[2] == 0 && groups[3] == 0 && groups[4] == 0 && groups[5]
                    == 0xffff {
                    let octets = [
                        (groups[6] / 256) as u8,
                        (groups[6] % 256) as u8,
                        (groups[7] / 256) as u8,
                        (groups[7] % 256) as u8,
                    ];
                    assert(octets@ == mapped_octets(groups@));
                    CanonicalSocketAddr(SocketAddr::V4 { octets, port })
                } else {
                    CanonicalSocketAddr(addr)
                }
            },
            SocketAddr::V4 { .. } => CanonicalSocketAddr(addr),
        }
    }

    /// The address itself.
    pub fn get(&self) -> (addr: SocketAddr)
        ensures
            addr@ == self@,
            addr@ matches SocketAddrView::V6 { groups, .. } ==> !is_ipv4_mapped(groups),
    {
        proof {
            use_type_invariant(self);
        }
        self.0
    }

    pub fn is_ipv4(&self) -> (result: bool)
        ensures
            result == (self@ is V4),
    {
        self.0.is_ipv4()
    }
}

/// A canonical address is never an IPv4 address in IPv6 form, keeps its port,
/// and is its own canonical form.
pub proof fn canonical_address_is_settled(addr: SocketAddrView)
    ensures
        canonical_of(canonical_of(addr)) == canonical_of(addr),
        canonical_of(addr).port() == addr.port(),
        canonical_of(addr) matches SocketAddrView::V6 { groups, .. } ==> !is_ipv4_mapped(groups),
        addr matches SocketAddrView::V4 { .. } ==> canonical_of(addr) == addr,
{
}

/// An IPv4 address and the same address in IPv6 form have one canonical socket
/// address.
pub proof fn mapped_form_is_the_ipv4_address(octets: Seq<u8>, port: u16)
    requires
        octets.len() == 4,
    ensures
        canonical_of(
            socket_addr_of(
                IpAddrView::V6(
                    seq![0u16, 0u16, 0u16, 0u16, 0u16, 0xffffu16] + groups_of_octets(octets),
                ),
                port,
            ),
        ) == socket_addr_of(IpAddrView::V4(octets), port),
{
    let groups = seq![0u16, 0u16, 0u16, 0u16, 0u16, 0xffffu16] + groups_of_octets(octets);
    assert(mapped_octets(groups) =~= octets);
}

/// The decimal digits of a number.
pub open spec fn decimal_text(number: nat) -> Seq<char>
    decreases number,
{
    if number < 10 {
        seq![('0' as u32 + number) as char]
    } else {
        decimal_text(number / 10).push(('0' as u32 + number % 10) as char)
    }
}

/// An IPv4 address in dotted decimal form.
pub open spec fn dotted(octets: Seq<u8>) -> Seq<char> {
    joined(octets.map_values(|octet: u8| decimal_text(octet as nat)), '.')
}

proof fn lemma_octet_text(octet: u8)
    ensures
        octet_of(decimal_text(octet as nat)) == Some(octet),
        forall|i: int|
            0 <= i < decimal_text(octet as nat).len() ==> '0' <= #[trigger] decimal_text(
                octet as nat,
            )[i] <= '9',
{
    reveal_with_fuel(decimal_text, 3);
    reveal_with_fuel(decimal_value, 4);
    let number = octet as nat;
    let text = decimal_text(number);
    if number < 10 {
        assert(text.drop_last() =~= Seq::<char>::empty());
    } else if number < 100 {
        assert(text.drop_last() =~= decimal_text(number / 10));
        assert(text.drop_last().drop_last() =~= Seq::<char>::empty());
    } else {
        assert(text.drop_last() =~= decimal_text(number / 10));
        assert(text.drop_last().drop_last() =~= decimal_text(number / 10 / 10));
        assert(text.drop_last().drop_last().drop_last() =~= Seq::<char>::empty());
    }
}

proof fn lemma_octet_has_one_text(text: Seq<char>)
    requires
        octet_of(text) is Some,
    ensures
        text == decimal_text(octet_of(text).unwrap() as nat),
{
    reveal_with_fuel(decimal_text, 3);
    reveal_with_fuel(decimal_value, 4);
    let number = decimal_value(text);
    assert('0' <= text[text.len() - 1] <= '9');
    if text.len() == 1 {
        assert(text =~= seq![text[0]]);
        assert(number == text[0] as u32 - '0' as u32);
    } else if text.len() == 2 {
        assert('0' <= text[0] <= '9');
        assert(text.drop_last() =~= seq![text[0]]);
        assert(number == 10 * (text[0] as u32 - '0' as u32) + (text[1] as u32 - '0' as u32));
        assert(text =~= decimal_text(number));
    } else {
        assert('0' <= text[0] <= '9' && '0' <= text[1] <= '9');
        assert(text.drop_last() =~= seq![text[0], text[1]]);
        assert(text.drop_last().drop_last() =~= seq![text[0]]);
        assert(number == 100 * (text[0] as u32 - '0' as u32) + 10 * (text[1] as u32 - '0' as u32)
            + (text[2] as u32 - '0' as u32));
        assert(text =~= decimal_text(number));
    }
}

proof fn lemma_dotted_form(octets: Seq<u8>)
    requires
        octets.len() == 4,
    ensures
        ipv4_of(dotted(octets)) == Some(octets),
{
    let parts = octets.map_values(|octet: u8| decimal_text(octet as nat));
    assert forall|i: int| 0 <= i < 4 implies !(#[trigger] parts[i]).contains('.') && octet_of(
        parts[i],
    ) == Some(octets[i]) by {
        lemma_octet_text(octets[i]);
    }
    splitting_undoes_joining(parts, parts[0], '.');
    assert(Seq::new(4, |i: int| octet_of(parts[i]).unwrap()) =~= octets);
}

/// The texts that stand for IPv4 addresses are exactly their dotted decimal forms, and
/// each stands for the address whose form it is.
pub proof fn ipv4_addresses_are_their_dotted_forms(text: Seq<char>, octets: Seq<u8>)
    requires
        octets.len() == 4,
    ensures
        ip_of(text) == Some(IpAddrView::V4(octets)) <==> text == dotted(octets),
{
    lemma_dotted_form(octets);
    if ip_of(text) == Some(IpAddrView::V4(octets)) {
        let parts = split_on(text, '.');
        let forms = octets.map_values(|octet: u8| decimal_text(octet as nat));
        assert forall|i: int| 0 <= i < 4 implies parts[i] == forms[i] by {
            assert(octet_of(parts[i]) is Some);
            lemma_octet_has_one_text(parts[i]);
            assert(ipv4_of(text).unwrap()[i] == octet_of(parts[i]).unwrap());
        }
        assert(parts =~= forms);
        splitting_undoes_joining(seq![Seq::<char>::empty()], text, '.');
    }
}

/// Whether each of `parts` is a group of an IPv6 address.
pub open spec fn are_groups(parts: Seq<Seq<char>>) -> bool {
    forall|i: int| 0 <= i < parts.len() ==> group_of(#[trigger] parts[i]) is Some
}

proof fn lemma_group_characters(text: Seq<char>)
    requires
        group_of(text) is Some,
    ensures
        text.len() > 0,
        !text.contains(':'),
        !text.contains('.'),
{
    assert(forall|i: int| 0 <= i < text.len() ==> digit_value(#[trigger] text[i]) is Some);
}

proof fn lemma_double_colon(text: Seq<char>, from: int, at: int)
    requires
        0 <= from <= at,
        at + 1 < text.len(),
        text[at] == ':',
        text[at + 1] == ':',
        forall|i: int| from <= i < at ==> !(#[trigger] text[i] == ':' && text[i + 1] == ':'),
    ensures
        double_colon(text, from) == Some(at),
    decreases at - from,
{
    if from < at {
        assert(!(text[from] == ':' && text[from + 1] == ':'));
        lemma_double_colon(text, from + 1, at);
    }
}

proof fn lemma_no_double_colon(text: Seq<char>, from: int)
    requires
        0 <= from,
        forall|i: int|
            from <= i < text.len() - 1 ==> !(#[trigger] text[i] == ':' && text[i + 1] == ':'),
    ensures
        double_colon(text, from) is None,
    decreases text.len() - from,
{
    if from + 1 < text.len() {
        assert(!(text[from] == ':' && text[from + 1] == ':'));
        lemma_no_double_colon(text, from + 1);
    }
}

/// Whether no part of a text is empty between colons, and no colon stands at its ends.
spec fn is_plain_side(text: Seq<char>) -> bool {
    &&& forall|i: int| 0 <= i < text.len() - 1 ==> !(#[trigger] text[i] == ':' && text[i + 1] == ':')
    &&& text.len() > 0 ==> text[0] != ':' && text.last() != ':'
}

proof fn lemma_joined_parts(parts: Seq<Seq<char>>)
    requires
        forall|i: int|
            0 <= i < parts.len() ==> (#[trigger] parts[i]).len() > 0 && !parts[i].contains(':'),
    ensures
        is_plain_side(joined(parts, ':')),
        parts.len() > 0 ==> joined(parts, ':').len() > 0,
    decreases parts.len(),
{
    let text = joined(parts, ':');
    if parts.len() > 0 {
        let last = parts.last();
        assert(parts[parts.len() - 1] == last);
        assert(forall|i: int| 0 <= i < last.len() ==> last[i] != ':');
        if parts.len() > 1 {
            let rest = parts.drop_last();
            assert forall|i: int| 0 <= i < rest.len() implies (#[trigger] rest[i]).len() > 0
                && !rest[i].contains(':') by {
                assert(rest[i] == parts[i]);
            }
            lemma_joined_parts(rest);
            let before = joined(rest, ':');
            assert forall|i: int| 0 <= i < text.len() - 1 implies !(#[trigger] text[i] == ':'
                && text[i + 1] == ':') by {
                if i + 1 < before.len() {
                    assert(before[i] == text[i] && before[i + 1] == text[i + 1]);
                } else if i + 1 == before.len() {
                    assert(text[i] == before.last());
                } else {
                    assert(text[i + 1] == last[i + 1 - before.len() - 1]);
                }
            }
            assert(text[0] == before[0]);
            assert(text.last() == last.last());
        }
    }
}

proof fn lemma_side(parts: Seq<Seq<char>>, ends_address: bool)
    requires
        are_groups(parts),
    ensures
        side_of(joined(parts, ':'), ends_address) == Some(
            Seq::new(parts.len(), |i: int| group_of(parts[i]).unwrap()),
        ),
        is_plain_side(joined(parts, ':')),
        !joined(parts, ':').contains('.'),
{
    assert forall|i: int| 0 <= i < parts.len() implies (#[trigger] parts[i]).len() > 0
        && !parts[i].contains(':') && !parts[i].contains('.') by {
        lemma_group_characters(parts[i]);
    }
    lemma_joined_parts(parts);
    lemma_joined_without(parts, ':', '.');
    let groups = Seq::new(parts.len(), |i: int| group_of(parts[i]).unwrap());
    if parts.len() == 0 {
        assert(groups =~= Seq::<u16>::empty());
    } else {
        splitting_undoes_joining(parts, parts[0], ':');
        splitting_cuts_at_each_separator(Seq::empty(), '.', parts[parts.len() - 1]);
        assert(split_on(parts.last(), '.').len() == 1);
        assert(ipv4_of(parts.last()) is None);
    }
}

/// Eight groups with colons between them stand for the IPv6 address of these groups.
pub proof fn eight_groups_make_up_an_address(parts: Seq<Seq<char>>)
    requires
        parts.len() == 8,
        are_groups(parts),
    ensures
        ip_of(joined(parts, ':')) == Some(
            IpAddrView::V6(Seq::new(8, |i: int| group_of(parts[i]).unwrap())),
        ),
{
    let text = joined(parts, ':');
    lemma_side(parts, true);
    lemma_no_double_colon(text, 0);
    splitting_cuts_at_each_separator(Seq::empty(), '.', text);
    assert(split_on(text, '.').len() == 1);
    assert(Seq::new(parts.len(), |i: int| group_of(parts[i]).unwrap()) =~= Seq::new(
        8,
        |i: int| group_of(parts[i]).unwrap(),
    ));
}

/// Up to seven groups around a double colon stand for the IPv6 address in which groups
/// of zeros take the place of the double colon.
pub proof fn double_colon_stands_for_zeros(head: Seq<Seq<char>>, tail: Seq<Seq<char>>)
    requires
        head.len() + tail.len() <= 7,
        are_groups(head),
        are_groups(tail),
    ensures
        ({
            let text = joined(head, ':') + seq![':', ':'] + joined(tail, ':');
            &&& ip_of(text) matches Some(IpAddrView::V6(groups))
            &&& groups.len() == 8
            &&& forall|i: int|
                0 <= i < head.len() ==> #[trigger] groups[i] == group_of(head[i]).unwrap()
            &&& forall|i: int| head.len() <= i < 8 - tail.len() ==> #[trigger] groups[i] == 0
            &&& forall|i: int|
                8 - tail.len() <= i < 8 ==> #[trigger] groups[i] == group_of(
                    tail[i - (8 - tail.len())],
                ).unwrap()
        }),
{
    let before = joined(head, ':');
    let after = joined(tail, ':');
    let text = before + seq![':', ':'] + after;
    let at = before.len() as int;
    lemma_side(head, false);
    lemma_side(tail, true);
    lemma_first_double_colon(before, after);
    assert(text.take(at) =~= before);
    assert(text.skip(at + 2) =~= after);
    assert(ipv4_of(text) is None) by {
        assert forall|i: int| 0 <= i < text.len() implies text[i] != '.' by {
            if i < at {
                assert(text[i] == before[i]);
            } else if i >= at + 2 {
                assert(text[i] == after[i - at - 2]);
            }
        }
        splitting_cuts_at_each_separator(Seq::empty(), '.', text);
        assert(split_on(text, '.').len() == 1);
    }
    let heads = Seq::new(head.len(), |i: int| group_of(head[i]).unwrap());
    let tails = Seq::new(tail.len(), |i: int| group_of(tail[i]).unwrap());
    let zeros = Seq::new((8 - heads.len() - tails.len()) as nat, |i: int| 0u16);
    assert(ip_of(text) == Some(IpAddrView::V6(heads + zeros + tails)));
}

proof fn lemma_first_double_colon(before: Seq<char>, after: Seq<char>)
    requires
        is_plain_side(before),
    ensures
        double_colon(before + seq![':', ':'] + after, 0) == Some(before.len() as int),
{
    let text = before + seq![':', ':'] + after;
    let at = before.len() as int;
    assert forall|i: int| 0 <= i < at implies !(#[trigger] text[i] == ':' && text[i + 1] == ':') by {
        assert(text[i] == before[i]);
        if i + 1 < at {
            assert(text[i + 1] == before[i + 1]);
        } else {
            assert(text[i] == before.last());
        }
    }
    lemma_double_colon(text, 0, at);
}

/// Six groups and an IPv4 address in dotted form stand for the IPv6 address that ends
/// in the octets of that address.
pub proof fn ipv4_address_ends_an_ipv6_address(parts: Seq<Seq<char>>, octets: Seq<u8>)
    requires
        parts.len() == 6,
        are_groups(parts),
        octets.len() == 4,
    ensures
        ({
            let text = joined(parts.push(dotted(octets)), ':');
            &&& ip_of(text) matches Some(IpAddrView::V6(groups))
            &&& groups.len() == 8
            &&& forall|i: int|
                0 <= i < 6 ==> #[trigger] groups[i] == group_of(parts[i]).unwrap()
            &&& groups[6] == octets[0] * 256 + octets[1]
            &&& groups[7] == octets[2] * 256 + octets[3]
        }),
{
    let form = dotted(octets);
    let all = parts.push(form);
    let text = joined(all, ':');
    lemma_dotted_form(octets);
    lemma_dotted_characters(octets);
    assert forall|i: int| 0 <= i < all.len() implies (#[trigger] all[i]).len() > 0
        && !all[i].contains(':') by {
        if i < 6 {
            lemma_group_characters(parts[i]);
        }
    }
    lemma_joined_parts(all);
    splitting_undoes_joining(all, form, ':');
    lemma_no_double_colon(text, 0);
    assert(all.drop_last() =~= parts);
    assert(ipv4_of(text) is None) by {
        if ipv4_of(text) is Some {
            ipv4_addresses_are_their_dotted_forms(text, ipv4_of(text).unwrap());
            lemma_dotted_characters(ipv4_of(text).unwrap());
            let before = joined(parts, ':');
            assert(text == before.push(':') + form);
            assert(text[before.len() as int] == ':');
        }
    }
}

proof fn lemma_dotted_characters(octets: Seq<u8>)
    requires
        octets.len() == 4,
    ensures
        !dotted(octets).contains(':'),
        dotted(octets).len() > 0,
{
    let parts = octets.map_values(|octet: u8| decimal_text(octet as nat));
    assert forall|i: int| 0 <= i < 4 implies !(#[trigger] parts[i]).contains(':') by {
        lemma_octet_text(octets[i]);
    }
    lemma_joined_without(parts, '.', ':');
    reveal_with_fuel(joined, 5);
    assert(dotted(octets).len() >= 3);
}

proof fn lemma_joined_without(parts: Seq<Seq<char>>, separator: char, c: char)
    requires
        c != separator,
        forall|i: int| 0 <= i < parts.len() ==> !(#[trigger] parts[i]).contains(c),
    ensures
        !joined(parts, separator).contains(c),
    decreases parts.len(),
{
    let text = joined(parts, separator);
    if parts.len() > 0 {
        let last = parts.last();
        assert(parts[parts.len() - 1] == last);
        if parts.len() > 1 {
            let rest = parts.drop_last();
            assert forall|i: int| 0 <= i < rest.len() implies !(#[trigger] rest[i]).contains(c) by {
                assert(rest[i] == parts[i]);
            }
            lemma_joined_without(rest, separator, c);
            let before = joined(rest, separator);
            assert forall|i: int| 0 <= i < text.len() implies text[i] != c by {
                if i < before.len() {
                    assert(text[i] == before[i]);
                } else if i > before.len() {
                    assert(text[i] == last[i - before.len() - 1]);
                }
            }
        }
    }
}

/// A group is a number in hexadecimal digits, in either case: a digit behind a group
/// counts once and what stands before it sixteen times, up to four digits. Each group
/// in an address that is accepted is one of eight.
pub proof fn groups_are_hexadecimal_numbers(text: Seq<char>, digit: char)
    ensures
        '0' <= digit <= '9' ==> group_of(seq![digit]) == Some((digit as u32 - 48) as u16),
        'a' <= digit <= 'f' ==> group_of(seq![digit]) == Some((digit as u32 - 87) as u16),
        'A' <= digit <= 'F' ==> group_of(seq![digit]) == Some((digit as u32 - 55) as u16),
        group_of(text) is Some && group_of(seq![digit]) is Some && text.len() < 4 ==> group_of(
            text.push(digit),
        ) == Some((16 * group_of(text).unwrap() + group_of(seq![digit]).unwrap()) as u16),
        text.len() == 0 || text.len() > 4 ==> group_of(text) is None,
        ip_of(text) matches Some(IpAddrView::V6(groups)) ==> groups.len() == 8,
{
    let one = seq![digit];
    reveal_with_fuel(hexadecimal_value, 2);
    assert(one.drop_last() =~= Seq::<char>::empty());
    if group_of(one) is Some {
        assert(digit_value(one[0]) is Some);
        assert(hexadecimal_value(one) == digit_value(digit).unwrap());
    }
    if '0' <= digit <= '9' || 'a' <= digit <= 'f' || 'A' <= digit <= 'F' {
        assert(forall|i: int| 0 <= i < one.len() ==> digit_value(#[trigger] one[i]) is Some);
    }
    if group_of(text) is Some && group_of(one) is Some && text.len() < 4 {
        let longer = text.push(digit);
        assert(longer.drop_last() =~= text);
        assert forall|i: int| 0 <= i < longer.len() implies digit_value(
            #[trigger] longer[i],
        ) is Some by {
            if i < text.len() {
                assert(longer[i] == text[i]);
            }
        }
        lemma_short_group_is_small(text);
        assert(hexadecimal_value(longer) == 16 * hexadecimal_value(text) + digit_value(
            digit,
        ).unwrap());
    }
}

proof fn lemma_short_group_is_small(text: Seq<char>)
    requires
        text.len() <= 3,
        forall|i: int| 0 <= i < text.len() ==> digit_value(#[trigger] text[i]) is Some,
    ensures
        hexadecimal_value(text) < 4096,
        text.len() <= 2 ==> hexadecimal_value(text) < 256,
        text.len() <= 1 ==> hexadecimal_value(text) < 16,
    decreases text.len(),
{
    if text.len() > 0 {
        let rest = text.drop_last();
        assert forall|i: int| 0 <= i < rest.len() implies digit_value(#[trigger] rest[i]) is Some by {
            assert(rest[i] == text[i]);
        }
        lemma_short_group_is_small(rest);
        assert(digit_value(text[text.len() - 1]) is Some);
    }
}

/// An address that is not an IPv4 address in IPv6 form is its own canonical form, with
/// all its parts.
pub proof fn other_addresses_are_canonical(
    groups: Seq<u16>,
    port: u16,
    flowinfo: u32,
    scope_id: u32,
)
    requires
        groups.len() == 8,
    ensures
        groups.take(6) != seq![0u16, 0, 0, 0, 0, 0xffff] ==> canonical_of(
            SocketAddrView::V6 { groups, port, flowinfo, scope_id },
        ) == (SocketAddrView::V6 { groups, port, flowinfo, scope_id }),
        groups.take(6) == seq![0u16, 0, 0, 0, 0, 0xffff] ==> (canonical_of(
            SocketAddrView::V6 { groups, port, flowinfo, scope_id },
        ) matches SocketAddrView::V4 { octets, port: same } && same == port && octets.len() == 4
            && groups.skip(6) == groups_of_octets(octets)),
{
    if is_ipv4_mapped(groups) {
        assert(groups.take(6) =~= seq![0u16, 0, 0, 0, 0, 0xffff]);
    }
    if groups.take(6) == seq![0u16, 0, 0, 0, 0, 0xffff] {
        assert(forall|i: int| 0 <= i < 6 ==> groups[i] == #[trigger] groups.take(6)[i]);
        assert(is_ipv4_mapped(groups));
        assert(groups.skip(6) =~= groups_of_octets(mapped_octets(groups)));
    }
}

} // verus!
