//! Network interfaces: which are tracked, their order on screen, their
//! state, and the counter deltas between readings.
use crate::cpu::{now, sat_sub};
use crate::order::{
    key_class, lemma_text_le_total, lemma_text_le_transitive, sort_by_key, sorted_by_key, str_le,
    text_le, SortKey,
};
use crate::text::{
    all_digits, chars_equal, chars_of, digits_value, has_prefix, parse_u64, parse_u64_spec,
    starts_with, trim, trim_chars,
};
use vstd::prelude::*;

verus! {

/// Raw counters of one interface from /sys/class/net/<iface>/statistics.
#[derive(Debug, Clone)]
pub struct NetworkRawCounters {
    pub name: String,
    pub rx_bytes: u64,
    pub tx_bytes: u64,
    pub rx_packets: u64,
    pub tx_packets: u64,
    pub rx_errors: u64,
    pub tx_errors: u64,
    pub rx_dropped: u64,
    pub tx_dropped: u64,
}

/// Loopback, libvirt, docker, bridge and veth interfaces are not shown.
pub open spec fn tracked_interface(name: Seq<char>) -> bool {
    !(starts_with(name, "lo"@) || starts_with(name, "virbr"@) || starts_with(name, "docker"@)
        || starts_with(name, "br-"@) || starts_with(name, "veth"@))
}

pub fn is_tracked_interface(name: &str) -> (b: bool)
    ensures
        b == tracked_interface(name@),
{
    let n = chars_of(name);
    !(has_prefix(&n, &chars_of("lo")) || has_prefix(&n, &chars_of("virbr")) || has_prefix(
        &n,
        &chars_of("docker"),
    ) || has_prefix(&n, &chars_of("br-")) || has_prefix(&n, &chars_of("veth")))
}

/// Display priority: WiFi first, then Ethernet, then InfiniBand, then
/// the rest.
pub open spec fn interface_priority(name: Seq<char>) -> u8 {
    if starts_with(name, "wl"@) {
        0
    } else if starts_with(name, "en"@) || starts_with(name, "eth"@) || starts_with(name, "em"@) {
        1
    } else if starts_with(name, "ib"@) {
        2
    } else {
        3
    }
}

fn priority_of(name: &str) -> (r: u8)
    ensures
        r == interface_priority(name@),
{
    let n = chars_of(name);
    if has_prefix(&n, &chars_of("wl")) {
        0
    } else if has_prefix(&n, &chars_of("en")) || has_prefix(&n, &chars_of("eth")) || has_prefix(
        &n,
        &chars_of("em"),
    ) {
        1
    } else if has_prefix(&n, &chars_of("ib")) {
        2
    } else {
        3
    }
}

/// The key interfaces are ordered by: priority, then name.
pub fn interface_sort_key(name: &str) -> (r: (u8, String))
    ensures
        r.0 == interface_priority(name@),
        r.1@ == name@,
{
    (priority_of(name), crate::text::string_from_chars(&chars_of(name)))
}

/// An interface's place in the display order, with its position in the
/// reading it came from.
#[derive(Debug, Clone)]
pub struct InterfaceKey {
    pub priority: u8,
    pub name: String,
    pub position: usize,
}

impl SortKey for InterfaceKey {
    open spec fn key_le(&self, other: &Self) -> bool {
        self.priority < other.priority || (self.priority == other.priority && text_le(
            self.name@,
            other.name@,
        ))
    }

    proof fn lemma_key_total(a: &Self, b: &Self) {
        lemma_text_le_total(a.name@, b.name@);
    }

    proof fn lemma_key_transitive(a: &Self, b: &Self, c: &Self) {
        if a.priority == b.priority && b.priority == c.priority {
            lemma_text_le_transitive(a.name@, b.name@, c.name@);
        }
    }

    fn le(&self, other: &Self) -> (r: bool) {
        self.priority < other.priority || (self.priority == other.priority && str_le(
            self.name.as_str(),
            other.name.as_str(),
        ))
    }
}

/// The key of each interface, at its position.
pub open spec fn keys_of(names: Seq<String>) -> Seq<InterfaceKey> {
    Seq::new(
        names.len(),
        |i: int|
            InterfaceKey {
                priority: interface_priority(names[i]@),
                name: names[i],
                position: i as usize,
            },
    )
}

/// The interfaces in display order.
pub fn order_interfaces(names: &[String]) -> (r: Vec<InterfaceKey>)
    ensures
        sorted_by_key(r@),
        r@.to_multiset() == keys_of(names@).to_multiset(),
        forall|x: InterfaceKey| #[trigger] key_class(r@, x) == key_class(keys_of(names@), x),
{
    let mut keys: Vec<InterfaceKey> = Vec::new();
    let mut i: usize = 0;
    while i < names.len()
        invariant
            i <= names@.len(),
            keys@ =~= keys_of(names@).take(i as int),
        decreases names.len() - i,
    {
        keys.push(
            InterfaceKey {
                priority: priority_of(names[i].as_str()),
                name: names[i].clone(),
                position: i,
            },
        );
        i += 1;
    }
    assert(keys_of(names@).take(names@.len() as int) =~= keys_of(names@));
    assert(keys@ == keys_of(names@));
    sort_by_key(keys)
}

/// Whether an `operstate` file says the interface is up.
pub fn operstate_is_up(text: &str) -> (b: bool)
    ensures
        b == (trim(text@) == "up"@),
{
    let t = trim_chars(&chars_of(text));
    chars_equal(&t, &chars_of("up"))
}

/// What `str::parse::<i64>` gives: an optional sign, then digits whose
/// value fits.
pub open spec fn parse_i64_spec(s: Seq<char>) -> Option<i64> {
    if s.len() > 0 && s[0] == '-' {
        let d = s.drop_first();
        if d.len() > 0 && all_digits(d) && digits_value(d) <= 0x8000_0000_0000_0000 {
            Some((-digits_value(d)) as i64)
        } else {
            None
        }
    } else {
        match parse_u64_spec(s) {
            Some(v) => if v <= i64::MAX {
                Some(v as i64)
            } else {
                None
            },
            None => None,
        }
    }
}

/// The link speed in Mb/s that a `speed` file gives, when positive.
pub open spec fn speed_spec(text: Seq<char>) -> Option<u64> {
    match parse_i64_spec(trim(text)) {
        Some(v) => if v > 0 {
            Some(v as u64)
        } else {
            None
        },
        None => None,
    }
}

pub fn parse_speed(text: &str) -> (r: Option<u64>)
    ensures
        r == speed_spec(text@),
{
    let t = trim_chars(&chars_of(text));
    if t.len() > 0 && t[0] == '-' {
        return None;
    }
    match parse_u64(&t) {
        Some(v) => if v > 0 && v <= 0x7FFF_FFFF_FFFF_FFFF {
            Some(v)
        } else {
            None
        },
        None => None,
    }
}

/// Bytes and packets moved on one interface since the previous reading.
#[derive(PartialEq, Eq, Structural, Clone, Copy, Debug)]
pub struct NetworkDelta {
    pub rx_bytes: u64,
    pub tx_bytes: u64,
    pub rx_packets: u64,
    pub tx_packets: u64,
}

pub open spec fn net_delta_spec(prev: NetworkRawCounters, curr: NetworkRawCounters) -> NetworkDelta {
    NetworkDelta {
        rx_bytes: sat_sub(curr.rx_bytes, prev.rx_bytes),
        tx_bytes: sat_sub(curr.tx_bytes, prev.tx_bytes),
        rx_packets: sat_sub(curr.rx_packets, prev.rx_packets),
        tx_packets: sat_sub(curr.tx_packets, prev.tx_packets),
    }
}

/// Position of the first interface named `name` among the first `n`.
pub open spec fn interface_of(cs: Seq<NetworkRawCounters>, name: Seq<char>, n: nat) -> Option<int>
    decreases n,
{
    if n == 0 {
        None
    } else {
        match interface_of(cs, name, (n - 1) as nat) {
            Some(j) => Some(j),
            None => if cs[n - 1].name@ == name {
                Some(n - 1)
            } else {
                None
            },
        }
    }
}

proof fn lemma_interface_of_in_range(cs: Seq<NetworkRawCounters>, name: Seq<char>, n: nat)
    requires
        n <= cs.len(),
    ensures
        interface_of(cs, name, n) matches Some(j) ==> 0 <= j < n && cs[j].name@ == name,
    decreases n,
{
    if n > 0 {
        lemma_interface_of_in_range(cs, name, (n - 1) as nat);
    }
}

proof fn lemma_interface_of_stable(cs: Seq<NetworkRawCounters>, name: Seq<char>, m: nat, n: nat)
    requires
        m <= n,
        interface_of(cs, name, m) is Some,
    ensures
        interface_of(cs, name, n) == interface_of(cs, name, m),
    decreases n - m,
{
    if m < n {
        lemma_interface_of_stable(cs, name, m, (n - 1) as nat);
    }
}

fn find_interface(cs: &Vec<NetworkRawCounters>, name: &String) -> (r: Option<usize>)
    ensures
        match r {
            Some(j) => interface_of(cs@, name@, cs@.len()) == Some(j as int),
            None => interface_of(cs@, name@, cs@.len()) is None,
        },
{
    let mut j: usize = 0;
    while j < cs.len()
        invariant
            j <= cs@.len(),
            interface_of(cs@, name@, j as nat) is None,
        decreases cs.len() - j,
    {
        if cs[j].name == *name {
            proof {
                assert(interface_of(cs@, name@, (j + 1) as nat) == Some(j as int));
                lemma_interface_of_stable(cs@, name@, (j + 1) as nat, cs@.len());
            }
            return Some(j);
        }
        j += 1;
    }
    None
}

/// What the network collector remembers between readings.
pub struct NetworkCollector {
    prev_counters: Vec<NetworkRawCounters>,
    prev_time: std::time::Instant,
}

impl NetworkCollector {
    pub closed spec fn last_counters(self) -> Seq<NetworkRawCounters> {
        self.prev_counters@
    }

    /// When the previous reading was taken (creation time before the first).
    pub closed spec fn last_time(self) -> std::time::Instant {
        self.prev_time
    }

    pub fn new() -> (r: Self)
        ensures
            r.last_counters() == Seq::<NetworkRawCounters>::empty(),
    {
        NetworkCollector { prev_counters: Vec::new(), prev_time: now() }
    }

    /// When the previous reading was taken (creation time before the first).
    pub fn prev_time(&self) -> (r: std::time::Instant)
        ensures
            r == self.last_time(),
    {
        self.prev_time
    }

    /// Takes in a new reading taken at `now`; gives, for each interface of
    /// this reading, what it moved since the previous reading (`None` when
    /// the previous reading did not have it).
    pub fn advance(&mut self, current: Vec<NetworkRawCounters>, now: std::time::Instant) -> (r: Vec<
        Option<NetworkDelta>,
    >)
        ensures
            r@.len() == current@.len(),
            forall|i: int|
                0 <= i < r@.len() ==> #[trigger] r@[i] == match interface_of(
                    old(self).last_counters(),
                    current@[i].name@,
                    old(self).last_counters().len(),
                ) {
                    Some(j) => Some(net_delta_spec(old(self).last_counters()[j], current@[i])),
                    None => None,
                },
            final(self).last_counters() == current@,
            final(self).last_time() == now,
    {
        let mut out: Vec<Option<NetworkDelta>> = Vec::new();
        let mut i: usize = 0;
        let ghost prev = self.prev_counters@;
        while i < current.len()
            invariant
                i <= current@.len(),
                prev == self.prev_counters@,
                out@.len() == i,
                forall|k: int|
                    0 <= k < i ==> #[trigger] out@[k] == match interface_of(
                        prev,
                        current@[k].name@,
                        prev.len(),
                    ) {
                        Some(j) => Some(net_delta_spec(prev[j], current@[k])),
                        None => None,
                    },
            decreases current.len() - i,
        {
            let c = &current[i];
            match find_interface(&self.prev_counters, &c.name) {
                Some(j) => {
                    proof {
                        lemma_interface_of_in_range(prev, c.name@, prev.len());
                    }
                    let p = &self.prev_counters[j];
                    out.push(
                        Some(
                            NetworkDelta {
                                rx_bytes: c.rx_bytes.saturating_sub(p.rx_bytes),
                                tx_bytes: c.tx_bytes.saturating_sub(p.tx_bytes),
                                rx_packets: c.rx_packets.saturating_sub(p.rx_packets),
                                tx_packets: c.tx_packets.saturating_sub(p.tx_packets),
                            },
                        ),
                    );
                },
                None => {
                    out.push(None);
                },
            }
            i += 1;
        }
        self.prev_counters = current;
        self.prev_time = now;
        out
    }
}

/// Law: in display order, WiFi interfaces come first, then Ethernet, then
/// InfiniBand, then the rest; within a group, by name.
pub proof fn lemma_display_order(keys: Seq<InterfaceKey>, i: int, j: int)
    requires
        sorted_by_key(keys),
        0 <= i < j < keys.len(),
    ensures
        keys[i].priority <= keys[j].priority,
        keys[i].priority == keys[j].priority ==> text_le(keys[i].name@, keys[j].name@),
{
    assert(keys[i].key_le(&keys[j]));
}

/// Law: the first reading only sets the baseline: against a collector
/// that has seen nothing, no interface has a delta.
pub proof fn lemma_first_network_reading_has_no_deltas(name: Seq<char>)
    ensures
        interface_of(Seq::<NetworkRawCounters>::empty(), name, 0) is None,
{
}

/// The name begins with the two characters `a` and `b`.
pub open spec fn begins_with_pair(name: Seq<char>, a: char, b: char) -> bool {
    name.len() >= 2 && name[0] == a && name[1] == b
}

proof fn lemma_interface_prefixes_revealed()
    ensures
        "wl"@ == seq!['w', 'l'],
        "en"@ == seq!['e', 'n'],
        "eth"@ == seq!['e', 't', 'h'],
        "em"@ == seq!['e', 'm'],
        "ib"@ == seq!['i', 'b'],
{
    reveal_strlit("wl");
    reveal_strlit("en");
    reveal_strlit("eth");
    reveal_strlit("em");
    reveal_strlit("ib");
    assert("wl"@ =~= seq!['w', 'l']);
    assert("en"@ =~= seq!['e', 'n']);
    assert("eth"@ =~= seq!['e', 't', 'h']);
    assert("em"@ =~= seq!['e', 'm']);
    assert("ib"@ =~= seq!['i', 'b']);
}

/// Law: the priority of every interface name, by its first characters:
/// "wl…" (WiFi) is 0; "en…", "eth…" and "em…" (Ethernet) are 1; "ib…"
/// (InfiniBand) is 2; any other name is 3.
pub proof fn lemma_priority_by_prefix(name: Seq<char>)
    ensures
        begins_with_pair(name, 'w', 'l') ==> interface_priority(name) == 0,
        begins_with_pair(name, 'e', 'n') ==> interface_priority(name) == 1,
        begins_with_pair(name, 'e', 'm') ==> interface_priority(name) == 1,
        (name.len() >= 3 && name[0] == 'e' && name[1] == 't' && name[2] == 'h') ==> interface_priority(
            name,
        ) == 1,
        begins_with_pair(name, 'i', 'b') ==> interface_priority(name) == 2,
        !begins_with_pair(name, 'w', 'l') && !begins_with_pair(name, 'e', 'n') && !begins_with_pair(
            name,
            'e',
            'm',
        ) && !(name.len() >= 3 && name[0] == 'e' && name[1] == 't' && name[2] == 'h')
            && !begins_with_pair(name, 'i', 'b') ==> interface_priority(name) == 3,
{
    lemma_interface_prefixes_revealed();
    if name.len() >= 2 {
        assert(name.take(2)[0] == name[0]);
        assert(name.take(2)[1] == name[1]);
        if begins_with_pair(name, 'w', 'l') {
            assert(name.take(2) =~= "wl"@);
        }
        if begins_with_pair(name, 'e', 'n') {
            assert(name.take(2) =~= "en"@);
        }
        if begins_with_pair(name, 'e', 'm') {
            assert(name.take(2) =~= "em"@);
        }
        if begins_with_pair(name, 'i', 'b') {
            assert(name.take(2) =~= "ib"@);
        }
    }
    if name.len() >= 3 {
        assert(name.take(3)[0] == name[0]);
        assert(name.take(3)[1] == name[1]);
        assert(name.take(3)[2] == name[2]);
        if name[0] == 'e' && name[1] == 't' && name[2] == 'h' {
            assert(name.take(3) =~= "eth"@);
        }
    }
}

/// Law: in display order an Ethernet interface whose name begins with
/// "en" comes before every InfiniBand interface.
pub proof fn lemma_ethernet_before_infiniband(names: Seq<String>, keys: Seq<InterfaceKey>, i: int, j: int)
    requires
        sorted_by_key(keys),
        keys.to_multiset() == keys_of(names).to_multiset(),
        0 <= i < keys.len(),
        0 <= j < keys.len(),
        begins_with_pair(keys[i].name@, 'i', 'b'),
        begins_with_pair(keys[j].name@, 'e', 'n'),
    ensures
        j < i,
{
    let ks = keys_of(names);
    keys.to_multiset_ensures();
    ks.to_multiset_ensures();
    assert(keys.contains(keys[i]));
    assert(keys.contains(keys[j]));
    assert(keys.to_multiset().count(keys[i]) > 0);
    assert(keys.to_multiset().count(keys[j]) > 0);
    assert(ks.to_multiset().count(keys[i]) > 0);
    assert(ks.to_multiset().count(keys[j]) > 0);
    assert(ks.contains(keys[i]));
    assert(ks.contains(keys[j]));
    let a = choose|a: int| 0 <= a < ks.len() && ks[a] == keys[i];
    let b = choose|b: int| 0 <= b < ks.len() && ks[b] == keys[j];
    lemma_priority_by_prefix(names[a]@);
    lemma_priority_by_prefix(names[b]@);
    assert(keys[i].priority == 2);
    assert(keys[j].priority == 1);
    if i < j {
        assert(keys[i].key_le(&keys[j]));
    }
}

} // verus!
