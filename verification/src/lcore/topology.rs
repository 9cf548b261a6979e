//! Where a PCI device sits: its root port, its root bus and its CPU package.
//!
//! PCM numbers IIO stacks per socket in root-bus order, and numbers parts by the device number of
//! the root port within the stack, so all of it falls out of sysfs. Reading sysfs is left to the
//! caller, who hands over what the files hold.

use crate::text;
use vstd::prelude::*;

verus! {

/// Why a device cannot be placed.
#[derive(Debug, Clone, Copy, PartialEq, Eq, Structural)]
pub enum TopologyError {
    /// There is no such device.
    NoDevice,
    /// The device's path names no root complex.
    NoRootComplex,
    /// The name is not that of a root complex.
    NotRootComplex,
    /// The name is not a PCI address.
    NotPciAddress,
    /// A hexadecimal number cannot be read.
    BadNumber,
    /// There is nothing below the root complex.
    NoRootPort,
    /// The path has no `devices` directory.
    NoSysfsRoot,
    /// Neither the package of the local CPUs nor the NUMA node is known.
    UnknownSocket,
    /// The devices cannot be listed.
    CannotList,
    /// The root bus is not among those of the socket.
    NotOnSocket { domain: u32, bus: u32, socket: u32 },
}

/// What sysfs says of a device.
#[derive(Debug)]
pub struct SysfsDevice {
    /// The components of its path, root first.
    pub path: Vec<String>,
    /// Its `local_cpulist`, if readable.
    pub local_cpulist: Option<String>,
    /// The `physical_package_id` of the first CPU in that list, if readable.
    pub package_id: Option<String>,
    /// Its `numa_node`, if readable.
    pub numa_node: Option<String>,
}

/// A device directly below a root complex.
#[derive(Debug)]
pub struct RootChild {
    pub name: String,
    pub device: SysfsDevice,
}

/// A directory beside the root complexes.
#[derive(Debug)]
pub struct RootEntry {
    pub name: String,
    /// What is in it, if it can be listed.
    pub children: Option<Vec<RootChild>>,
}

/// What sysfs says of a device and of the root complexes.
#[derive(Debug)]
pub struct Sysfs {
    /// The device, if there is one.
    pub device: Option<SysfsDevice>,
    /// The directories in which the root complexes are, if they can be listed.
    pub entries: Option<Vec<RootEntry>>,
}

/// A 32-bit hexadecimal number.
pub open spec fn hex(s: Seq<char>) -> Result<u32, TopologyError> {
    match text::unsigned_value(s, 16, u32::MAX as nat) {
        Some(value) => Ok(value as u32),
        None => Err(TopologyError::BadNumber),
    }
}

/// The domain and the bus that the name of a root complex gives.
pub open spec fn root_complex(name: Seq<char>) -> Result<(u32, u32), TopologyError> {
    match text::after_prefix(name, "pci"@) {
        None => Err(TopologyError::NotRootComplex),
        Some(rest) => match text::split_first(rest, ':') {
            None => Err(TopologyError::NotRootComplex),
            Some((domain, bus)) => match (hex(domain), hex(bus)) {
                (Err(error), _) => Err(error),
                (Ok(_), Err(error)) => Err(error),
                (Ok(d), Ok(b)) => Ok((d, b)),
            },
        },
    }
}

/// The device number that a PCI address gives.
pub open spec fn device_number(bdf: Seq<char>) -> Result<u32, TopologyError> {
    match text::split_last(bdf, ':') {
        None => Err(TopologyError::NotPciAddress),
        Some((_, device_function)) => match text::split_first(device_function, '.') {
            None => Err(TopologyError::NotPciAddress),
            Some((device, _)) => hex(device),
        },
    }
}

/// The first CPU of a list such as `0-17,36-53`.
pub open spec fn first_cpu_of(list: Seq<char>) -> Option<nat> {
    text::unsigned_value(
        text::trimmed(text::split_at_char(text::split_at_char(list, ',')[0], '-')[0]),
        10,
        u32::MAX as nat,
    )
}

/// The last component named `devices`.
pub open spec fn devices_index(path: Seq<Seq<char>>) -> Option<int>
    decreases path.len(),
{
    if path.len() == 0 {
        None
    } else if path.last() == "devices"@ {
        Some(path.len() - 1)
    } else {
        devices_index(path.drop_last())
    }
}

/// The trimmed contents of a file.
pub open spec fn contents(file: Option<String>) -> Option<Seq<char>> {
    match file {
        Some(s) => Some(text::trimmed(s@)),
        None => None,
    }
}

/// The CPU package of the first local CPU.
pub open spec fn package_of(device: SysfsDevice) -> Option<nat> {
    match contents(device.local_cpulist) {
        None => None,
        Some(list) => match first_cpu_of(list) {
            None => None,
            Some(_) => match contents(device.package_id) {
                None => None,
                Some(id) => text::unsigned_value(id, 10, u32::MAX as nat),
            },
        },
    }
}

/// The NUMA node.
pub open spec fn node_of(device: SysfsDevice) -> Option<int> {
    match contents(device.numa_node) {
        None => None,
        Some(id) => text::i32_value(id),
    }
}

/// The CPU package that a device is attached to: that of its local CPUs, or else its NUMA node.
pub open spec fn socket_at(device: SysfsDevice) -> Result<u32, TopologyError> {
    if devices_index(text::string_views(device.path@)) is None {
        Err(TopologyError::NoSysfsRoot)
    } else {
        match package_of(device) {
            Some(id) => Ok(id as u32),
            None => match node_of(device) {
                Some(node) => if node >= 0 {
                    Ok(node as u32)
                } else {
                    Err(TopologyError::UnknownSocket)
                },
                None => Err(TopologyError::UnknownSocket),
            },
        }
    }
}

/// The socket of the first child from `from` on that is a PCI device and reports one.
pub open spec fn first_socket(children: Seq<RootChild>, from: nat) -> Option<u32>
    decreases children.len() - from,
{
    if from >= children.len() {
        None
    } else {
        let child = children[from as int];
        match (text::index_of_first(child.name@, ':') < child.name@.len(), socket_at(child.device)) {
            (true, Ok(socket)) => Some(socket),
            _ => first_socket(children, from + 1),
        }
    }
}

/// The socket of a root complex.
pub open spec fn socket_of_entry(entry: RootEntry) -> Option<u32> {
    match entry.children {
        Some(children) => first_socket(children@, 0),
        None => None,
    }
}

/// The root buses of `socket` among the first `n` entries.
pub open spec fn buses_on(entries: Seq<RootEntry>, socket: u32, n: nat) -> Seq<(u32, u32)>
    decreases n,
{
    if n == 0 {
        Seq::empty()
    } else {
        let before = buses_on(entries, socket, (n - 1) as nat);
        match root_complex(entries[n - 1].name@) {
            Ok(address) => if socket_of_entry(entries[n - 1]) == Some(socket) {
                before.push(address)
            } else {
                before
            },
            Err(_) => before,
        }
    }
}

/// The names of the root complexes without a socket among the first `n` entries.
pub open spec fn unresolved_in(entries: Seq<RootEntry>, n: nat) -> Seq<Seq<char>>
    decreases n,
{
    if n == 0 {
        Seq::empty()
    } else {
        let before = unresolved_in(entries, (n - 1) as nat);
        if root_complex(entries[n - 1].name@) is Ok && socket_of_entry(entries[n - 1]) is None {
            before.push(entries[n - 1].name@)
        } else {
            before
        }
    }
}

/// The order of root buses: by domain, then by bus.
pub open spec fn bus_before(a: (u32, u32), b: (u32, u32)) -> bool {
    a.0 < b.0 || (a.0 == b.0 && a.1 < b.1)
}

/// How many of `buses` come before `address`.
pub open spec fn buses_before(buses: Seq<(u32, u32)>, address: (u32, u32)) -> nat
    decreases buses.len(),
{
    if buses.len() == 0 {
        0
    } else {
        buses_before(buses.drop_last(), address) + if bus_before(buses.last(), address) {
            1nat
        } else {
            0
        }
    }
}

/// The position of a root bus among those of its socket, ascending, which is how PCM numbers IIO
/// stacks.
pub open spec fn stack_at(
    entries: Option<Vec<RootEntry>>,
    socket: u32,
    domain: u32,
    bus: u32,
) -> Result<u32, TopologyError> {
    match entries {
        None => Err(TopologyError::CannotList),
        Some(list) => {
            let buses = buses_on(list@, socket, list@.len());
            if buses.contains((domain, bus)) {
                Ok((buses_before(buses, (domain, bus)) % 0x1_0000_0000) as u32)
            } else {
                Err(TopologyError::NotOnSocket { domain, bus, socket })
            }
        },
    }
}

/// The first component from `from` on that names a root complex.
pub open spec fn root_index(path: Seq<Seq<char>>, from: nat) -> Option<nat>
    decreases path.len() - from,
{
    if from >= path.len() {
        None
    } else if text::begins_with(path[from as int], "pci"@) && text::index_of_first(
        path[from as int],
        ':',
    ) < path[from as int].len() {
        Some(from)
    } else {
        root_index(path, from + 1)
    }
}

/// The domain and the bus of the root complex, and the device number of the root port directly
/// below it, that a path goes through.
pub open spec fn root_port_at(path: Seq<Seq<char>>) -> Result<(u32, u32, u32), TopologyError> {
    match root_index(path, 0) {
        None => Err(TopologyError::NoRootComplex),
        Some(k) => match root_complex(path[k as int]) {
            Err(error) => Err(error),
            Ok((domain, bus)) => if k + 1 >= path.len() {
                Err(TopologyError::NoRootPort)
            } else {
                match device_number(path[k as int + 1]) {
                    Err(error) => Err(error),
                    Ok(part) => Ok((domain, bus, part)),
                }
            },
        },
    }
}

/// The socket, the stack and the part of the root port above a device.
pub open spec fn placed(sysfs: Sysfs) -> Result<(u32, u32, u32), TopologyError> {
    match sysfs.device {
        None => Err(TopologyError::NoDevice),
        Some(device) => match root_port_at(text::string_views(device.path@)) {
            Err(error) => Err(error),
            Ok((domain, bus, part)) => match socket_at(device) {
                Err(error) => Err(error),
                Ok(socket) => match stack_at(sysfs.entries, socket, domain, bus) {
                    Err(error) => Err(error),
                    Ok(stack) => Ok((socket, stack, part)),
                },
            },
        },
    }
}

fn parse_hex(s: &[char]) -> (value: Result<u32, TopologyError>)
    ensures
        value == hex(s@),
{
    match text::parse_hex_u32(s) {
        Some(value) => Ok(value),
        None => Err(TopologyError::BadNumber),
    }
}

/// `"pci0000:3a"` gives domain `0x0000` and bus `0x3a`.
pub fn parse_root_complex(name: &str) -> (address: Result<(u32, u32), TopologyError>)
    ensures
        address == root_complex(name@),
{
    let rest = match text::strip_prefix(&text::chars_of(name), "pci") {
        Some(rest) => rest,
        None => {
            return Err(TopologyError::NotRootComplex);
        },
    };
    let (domain, bus) = match text::split_once(&rest, ':') {
        Some(halves) => halves,
        None => {
            return Err(TopologyError::NotRootComplex);
        },
    };
    let domain: u32 = match parse_hex(&domain) {
        Ok(domain) => domain,
        Err(error) => {
            return Err(error);
        },
    };
    match parse_hex(&bus) {
        Ok(bus) => Ok((domain, bus)),
        Err(error) => Err(error),
    }
}

/// `"0000:3a:00.0"` gives device number `0x00`, which is the part.
pub fn root_port_device_number(bdf: &str) -> (number: Result<u32, TopologyError>)
    ensures
        number == device_number(bdf@),
{
    let device_function = match text::rsplit_once(&text::chars_of(bdf), ':') {
        Some((_, device_function)) => device_function,
        None => {
            return Err(TopologyError::NotPciAddress);
        },
    };
    match text::split_once(&device_function, '.') {
        Some((device, _)) => parse_hex(&device),
        None => Err(TopologyError::NotPciAddress),
    }
}

/// First CPU of a `local_cpulist` such as `"0-17,36-53"`.
pub fn first_cpu(list: &str) -> (cpu: Option<u32>)
    ensures
        match cpu {
            Some(c) => first_cpu_of(list@) == Some(c as nat),
            None => first_cpu_of(list@) is None,
        },
{
    let ranges = text::split(&text::chars_of(list), ',');
    proof {
        text::lemma_there_is_a_piece(list@, ',');
        assert(text::views(ranges@)[0] == ranges@[0]@);
        text::lemma_there_is_a_piece(ranges@[0]@, '-');
    }
    let ends = text::split(&ranges[0], '-');
    proof {
        assert(text::views(ends@)[0] == ends@[0]@);
    }
    text::parse_u32(&text::trim(&ends[0]))
}

/// How many components of a device's path lead to the sysfs mount point: those above the last
/// `devices`.
pub fn sysfs_root(path: &Vec<String>) -> (above: Result<usize, TopologyError>)
    ensures
        above == (match devices_index(text::string_views(path@)) {
            Some(k) => Ok(k as usize),
            None => Err(TopologyError::NoSysfsRoot),
        }),
{
    let wanted = text::chars_of("devices");
    let ghost names = text::string_views(path@);
    let mut k: usize = path.len();
    proof {
        assert(names.take(k as int) =~= names);
    }
    while k > 0
        invariant
            k <= path@.len(),
            names == text::string_views(path@),
            wanted@ == "devices"@,
            devices_index(names) == devices_index(names.take(k as int)),
        decreases k,
    {
        proof {
            assert(names.take(k as int).last() == path@[k - 1]@);
            assert(names.take(k as int).drop_last() =~= names.take(k - 1));
        }
        if text::same_text(&text::chars_of(path[k - 1].as_str()), &wanted) {
            return Ok(k - 1);
        }
        k = k - 1;
    }
    Err(TopologyError::NoSysfsRoot)
}

fn trimmed_contents(file: &Option<String>) -> (read: Option<Vec<char>>)
    ensures
        match read {
            Some(r) => contents(*file) == Some(r@),
            None => contents(*file) is None,
        },
{
    match file {
        Some(s) => Some(text::trim(&text::chars_of(s.as_str()))),
        None => None,
    }
}

fn package_id(device: &SysfsDevice) -> (id: Option<u32>)
    ensures
        match id {
            Some(i) => package_of(*device) == Some(i as nat),
            None => package_of(*device) is None,
        },
{
    let list = match trimmed_contents(&device.local_cpulist) {
        Some(list) => list,
        None => {
            return None;
        },
    };
    if first_cpu(text::string_of(&list).as_str()).is_none() {
        return None;
    }
    match trimmed_contents(&device.package_id) {
        Some(id) => text::parse_u32(&id),
        None => None,
    }
}

/// CPU package of a PCI device, via the package of its local CPUs. Falls back to the NUMA node,
/// which is the same number unless sub-NUMA clustering is on.
pub fn socket_of_device(device: &SysfsDevice) -> (socket: Result<u32, TopologyError>)
    ensures
        socket == socket_at(*device),
{
    if let Err(error) = sysfs_root(&device.path) {
        return Err(error);
    }
    if let Some(id) = package_id(device) {
        return Ok(id);
    }
    let node: Option<i32> = match trimmed_contents(&device.numa_node) {
        Some(id) => text::parse_i32(&id),
        None => None,
    };
    match node {
        Some(node) => if node >= 0 {
            Ok(node as u32)
        } else {
            Err(TopologyError::UnknownSocket)
        },
        None => Err(TopologyError::UnknownSocket),
    }
}

/// CPU package a PCI device is attached to.
pub fn socket_of_pci_device(device: &Option<SysfsDevice>) -> (socket: Result<u32, TopologyError>)
    ensures
        socket == (match *device {
            Some(d) => socket_at(d),
            None => Err(TopologyError::NoDevice),
        }),
{
    match device {
        Some(device) => socket_of_device(device),
        None => Err(TopologyError::NoDevice),
    }
}

fn has_colon(name: &str) -> (found: bool)
    ensures
        found == (text::index_of_first(name@, ':') < name@.len()),
{
    text::split_once(&text::chars_of(name), ':').is_some()
}

/// Socket of a root complex, taken from the first child device that reports one.
pub fn socket_of_root_complex(entry: &RootEntry) -> (socket: Option<u32>)
    ensures
        socket == socket_of_entry(*entry),
{
    let children = match &entry.children {
        Some(children) => children,
        None => {
            return None;
        },
    };
    let mut k: usize = 0;
    while k < children.len()
        invariant
            k <= children@.len(),
            entry.children == Some(*children),
            first_socket(children@, 0) == first_socket(children@, k as nat),
        decreases children@.len() - k,
    {
        if has_colon(children[k].name.as_str()) {
            if let Ok(socket) = socket_of_device(&children[k].device) {
                return Some(socket);
            }
        }
        k = k + 1;
    }
    None
}

/// A stack's index, and the root complexes that might shift it.
#[derive(Debug)]
pub struct StackIndex {
    pub index: Result<u32, TopologyError>,
    /// Root complexes whose socket is not known. Each might shift every index after it.
    pub unresolved: Vec<String>,
}

/// Position of a root bus among the root buses of its socket, ascending.
pub fn stack_index(entries: &Option<Vec<RootEntry>>, socket: u32, domain: u32, bus: u32) -> (found:
    StackIndex)
    ensures
        found.index == stack_at(*entries, socket, domain, bus),
        text::string_views(found.unresolved@) == (match *entries {
            Some(list) => unresolved_in(list@, list@.len()),
            None => Seq::empty(),
        }),
{
    let mut unresolved: Vec<String> = Vec::new();
    let list = match entries {
        Some(list) => list,
        None => {
            proof {
                assert(text::string_views(unresolved@) =~= Seq::empty());
            }
            return StackIndex { index: Err(TopologyError::CannotList), unresolved };
        },
    };
    let mut buses: Vec<(u32, u32)> = Vec::new();
    let mut k: usize = 0;
    proof {
        assert(text::string_views(unresolved@) =~= Seq::empty());
    }
    while k < list.len()
        invariant
            k <= list@.len(),
            buses@ == buses_on(list@, socket, k as nat),
            text::string_views(unresolved@) == unresolved_in(list@, k as nat),
        decreases list@.len() - k,
    {
        if let Ok(address) = parse_root_complex(list[k].name.as_str()) {
            match socket_of_root_complex(&list[k]) {
                Some(root_socket) => {
                    if root_socket == socket {
                        buses.push(address);
                    }
                },
                None => {
                    let ghost before = text::string_views(unresolved@);
                    unresolved.push(text::copied(list[k].name.as_str()));
                    proof {
                        assert(text::string_views(unresolved@) =~= before.push(
                            list@[k as int].name@,
                        ));
                    }
                },
            }
        }
        k = k + 1;
    }
    let mut present = false;
    let mut before: u64 = 0;
    let mut i: usize = 0;
    let count: usize = buses.len();
    while i < count
        invariant
            i <= count == buses@.len(),
            before <= i,
            before == buses_before(buses@.take(i as int), (domain, bus)),
            present == buses@.take(i as int).contains((domain, bus)),
        decreases count - i,
    {
        let (d, b) = buses[i];
        proof {
            let head = buses@.take(i as int);
            let more = buses@.take(i + 1);
            assert(more.drop_last() =~= head);
            assert(more.last() == buses@[i as int]);
            assert(more =~= head.push(buses@[i as int]));
            if more.contains((domain, bus)) && !head.contains((domain, bus)) {
                let j = choose|j: int| 0 <= j < more.len() && more[j] == (domain, bus);
                if j < i {
                    assert(head[j] == (domain, bus));
                }
            }
            if head.contains((domain, bus)) {
                let j = choose|j: int| 0 <= j < head.len() && head[j] == (domain, bus);
                assert(more[j] == (domain, bus));
            }
            if buses@[i as int] == (domain, bus) {
                assert(more[i as int] == (domain, bus));
            }
        }
        if d == domain && b == bus {
            present = true;
        }
        if d < domain || (d == domain && b < bus) {
            before = before + 1;
        }
        i = i + 1;
    }
    proof {
        assert(buses@.take(count as int) =~= buses@);
    }
    let index = if present {
        Ok((before % 0x1_0000_0000) as u32)
    } else {
        Err(TopologyError::NotOnSocket { domain, bus, socket })
    };
    StackIndex { index, unresolved }
}

/// The root complex and the root port that a device's path goes through.
pub fn root_port_of(path: &Vec<String>) -> (port: Result<(u32, u32, u32), TopologyError>)
    ensures
        port == root_port_at(text::string_views(path@)),
{
    let ghost names = text::string_views(path@);
    let pci = text::chars_of("pci");
    let mut k: usize = 0;
    let count: usize = path.len();
    while k < count
        invariant
            k <= count == path@.len(),
            names == text::string_views(path@),
            pci@ == "pci"@,
            root_index(names, 0) == root_index(names, k as nat),
        decreases count - k,
    {
        proof {
            assert(names[k as int] == path@[k as int]@);
        }
        if text::starts_with(&text::chars_of(path[k].as_str()), &pci) && has_colon(
            path[k].as_str(),
        ) {
            let (domain, bus) = match parse_root_complex(path[k].as_str()) {
                Ok(address) => address,
                Err(error) => {
                    return Err(error);
                },
            };
            // The root port is the device directly below the root complex; PCM counts traffic
            // there, however deep the NIC itself sits behind it.
            if k + 1 >= count {
                return Err(TopologyError::NoRootPort);
            }
            proof {
                assert(names[k + 1] == path@[k + 1]@);
            }
            return match root_port_device_number(path[k + 1].as_str()) {
                Ok(part) => Ok((domain, bus, part)),
                Err(error) => Err(error),
            };
        }
        k = k + 1;
    }
    Err(TopologyError::NoRootComplex)
}

/// PCM's numbering within a socket is a numbering: of two root buses of one socket, the one that
/// comes first has the lower stack index.
pub proof fn law_stacks_follow_bus_order(buses: Seq<(u32, u32)>, a: (u32, u32), b: (u32, u32))
    requires
        buses.contains(a),
        bus_before(a, b),
    ensures
        buses_before(buses, a) < buses_before(buses, b),
    decreases buses.len(),
{
    let init = buses.drop_last();
    lemma_fewer_before(init, a, b);
    if buses.last() != a {
        let i = choose|i: int| 0 <= i < buses.len() && buses[i] == a;
        assert(init[i] == a);
        law_stacks_follow_bus_order(init, a, b);
    }
}

proof fn lemma_fewer_before(buses: Seq<(u32, u32)>, a: (u32, u32), b: (u32, u32))
    requires
        bus_before(a, b),
    ensures
        buses_before(buses, a) <= buses_before(buses, b),
    decreases buses.len(),
{
    if buses.len() > 0 {
        lemma_fewer_before(buses.drop_last(), a, b);
    }
}

/// A stack index is within the root buses of the socket.
pub proof fn law_stack_index_is_within_the_socket(buses: Seq<(u32, u32)>, a: (u32, u32))
    requires
        buses.contains(a),
    ensures
        buses_before(buses, a) < buses.len(),
    decreases buses.len(),
{
    let init = buses.drop_last();
    lemma_at_most_all(init, a);
    if buses.last() != a {
        let i = choose|i: int| 0 <= i < buses.len() && buses[i] == a;
        assert(init[i] == a);
        law_stack_index_is_within_the_socket(init, a);
    }
}

proof fn lemma_at_most_all(buses: Seq<(u32, u32)>, a: (u32, u32))
    ensures
        buses_before(buses, a) <= buses.len(),
    decreases buses.len(),
{
    if buses.len() > 0 {
        lemma_at_most_all(buses.drop_last(), a);
    }
}

/// Digits of base sixteen read as the number they write, if it fits in 32 bits; nothing else reads
/// as a number, a plus sign in front aside.
pub proof fn law_hexadecimal_digits_read_as_their_number(s: Seq<char>, n: u32)
    ensures
        hex(text::in_base(n as nat, 16)) == Ok::<u32, TopologyError>(n),
        s.len() > 0 && text::all_digits(s, 16) && text::digits_value(s, 16) <= u32::MAX ==> hex(s)
            == Ok::<u32, TopologyError>(text::digits_value(s, 16) as u32),
        s.len() > 0 && text::all_digits(s, 16) && text::digits_value(s, 16) > u32::MAX ==> hex(s)
            == Err::<u32, TopologyError>(TopologyError::BadNumber),
        s.len() == 0 ==> hex(s) == Err::<u32, TopologyError>(TopologyError::BadNumber),
{
    text::law_numbers_read_back_in_any_base(n as nat, 16, u32::MAX as nat);
    if s.len() > 0 && text::all_digits(s, 16) {
        assert(text::digit_value(s[0]) < 16);
    }
}

/// A root complex is named by `pci`, its domain, a colon and its bus, both in base sixteen.
pub proof fn law_a_root_complex_is_named_by_domain_and_bus(domain: Seq<char>, bus: Seq<char>)
    requires
        domain.len() > 0 && text::all_digits(domain, 16),
        bus.len() > 0 && text::all_digits(bus, 16),
        text::digits_value(domain, 16) <= u32::MAX,
        text::digits_value(bus, 16) <= u32::MAX,
    ensures
        root_complex("pci"@ + (domain + seq![':'] + bus)) == Ok::<(u32, u32), TopologyError>(
            (text::digits_value(domain, 16) as u32, text::digits_value(bus, 16) as u32),
        ),
{
    let rest = domain + seq![':'] + bus;
    assert(("pci"@ + rest).take("pci"@.len() as int) =~= "pci"@);
    assert(("pci"@ + rest).skip("pci"@.len() as int) =~= rest);
    lemma_no_colon(domain);
    text::law_halves_come_back(domain, bus, ':');
    law_hexadecimal_digits_read_as_their_number(domain, 0);
    law_hexadecimal_digits_read_as_their_number(bus, 0);
}

proof fn lemma_no_colon(digits: Seq<char>)
    requires
        text::all_digits(digits, 16),
    ensures
        !digits.contains(':'),
        !digits.contains('.'),
{
    if digits.contains(':') {
        let i = choose|i: int| 0 <= i < digits.len() && digits[i] == ':';
        assert(text::digit_value(digits[i]) < 16);
    }
    if digits.contains('.') {
        let i = choose|i: int| 0 <= i < digits.len() && digits[i] == '.';
        assert(text::digit_value(digits[i]) < 16);
    }
}

/// The device number stands between the last colon and the dot of a PCI address.
pub proof fn law_the_device_number_stands_before_the_function(
    bus: Seq<char>,
    device: Seq<char>,
    function: Seq<char>,
)
    requires
        device.len() > 0 && text::all_digits(device, 16),
        text::digits_value(device, 16) <= u32::MAX,
        !function.contains(':'),
    ensures
        device_number(bus + seq![':'] + (device + seq!['.'] + function)) == Ok::<
            u32,
            TopologyError,
        >(text::digits_value(device, 16) as u32),
{
    let tail = device + seq!['.'] + function;
    lemma_no_colon(device);
    assert(!tail.contains(':')) by {
        if tail.contains(':') {
            let i = choose|i: int| 0 <= i < tail.len() && tail[i] == ':';
            if i < device.len() {
                assert(device[i] == ':');
            } else if i > device.len() {
                assert(function[i - device.len() - 1] == ':');
            }
        }
    }
    text::law_halves_come_back(bus, tail, ':');
    text::law_halves_come_back(device, function, '.');
    law_hexadecimal_digits_read_as_their_number(device, 0);
}

/// The first CPU of a list is the number that it begins with, a range or not, alone or not.
pub proof fn law_the_first_cpu_begins_the_list(n: u32, rest: Seq<char>, more: Seq<char>)
    requires
        !rest.contains(','),
    ensures
        first_cpu_of(text::decimal(n as nat)) == Some(n as nat),
        first_cpu_of(text::decimal(n as nat) + seq![','] + more) == Some(n as nat),
        first_cpu_of(text::decimal(n as nat) + seq!['-'] + rest) == Some(n as nat),
        first_cpu_of((text::decimal(n as nat) + seq!['-'] + rest) + seq![','] + more) == Some(
            n as nat,
        ),
{
    let d = text::decimal(n as nat);
    let range = d + seq!['-'] + rest;
    text::law_numbers_have_no_margins(Seq::empty(), n as nat, Seq::empty());
    text::law_decimal_reads_back(n as nat);
    assert(!d.contains(',') && !d.contains('-')) by {
        assert forall|i: int| 0 <= i < d.len() implies d[i] != ',' && d[i] != '-' by {
            assert('0' <= d[i] <= '9');
        }
    }
    assert(!range.contains(',')) by {
        if range.contains(',') {
            let i = choose|i: int| 0 <= i < range.len() && range[i] == ',';
            if i < d.len() {
                assert(d[i] == ',');
            } else if i > d.len() {
                assert(rest[i - d.len() - 1] == ',');
            }
        }
    }
    text::law_the_first_piece_ends_at_the_first_separator(d, more, ',');
    text::law_the_first_piece_ends_at_the_first_separator(range, more, ',');
    text::law_the_first_piece_ends_at_the_first_separator(d, rest, '-');
}

/// The sysfs mount point is above the last component `devices`.
pub proof fn law_the_last_devices_directory_counts(path: Seq<Seq<char>>)
    ensures
        devices_index(path) is None <==> forall|i: int|
            0 <= i < path.len() ==> #[trigger] path[i] != "devices"@,
        devices_index(path) matches Some(k) ==> 0 <= k < path.len() && path[k] == "devices"@
            && forall|i: int| k < i < path.len() ==> #[trigger] path[i] != "devices"@,
    decreases path.len(),
{
    if path.len() > 0 {
        let init = path.drop_last();
        law_the_last_devices_directory_counts(init);
        if path.last() == "devices"@ {
            assert(path[path.len() - 1] == "devices"@);
        } else {
            assert forall|i: int| 0 <= i < init.len() implies init[i] == path[i] by {}
            if devices_index(init) is None {
                assert forall|i: int| 0 <= i < path.len() implies #[trigger] path[i]
                    != "devices"@ by {
                    if i < init.len() {
                        assert(init[i] == path[i]);
                    }
                }
            } else {
                let k = devices_index(init)->0;
                assert(path[k] == init[k]);
                assert forall|i: int| k < i < path.len() implies #[trigger] path[i]
                    != "devices"@ by {
                    if i < init.len() {
                        assert(init[i] == path[i]);
                    }
                }
            }
        }
    }
}

/// A device below a `devices` directory is on the package of its local CPUs where that can be read,
/// and else on its NUMA node, unless that is negative; the NUMA node does not count where the
/// package can be read.
pub proof fn law_the_package_counts_before_the_node(device: SysfsDevice, id: u32, node: u32)
    requires
        exists|i: int|
            0 <= i < device.path@.len() && (#[trigger] device.path@[i])@ == "devices"@,
        node <= i32::MAX,
    ensures
        device.local_cpulist matches Some(list) && first_cpu_of(text::trimmed(list@)) is Some && (
        device.package_id matches Some(file) && text::trimmed(file@) == text::decimal(id as nat))
            ==> socket_at(device) == Ok::<u32, TopologyError>(id),
        (device.local_cpulist is None || device.package_id is None) && (
        device.numa_node matches Some(file) && text::trimmed(file@) == text::decimal(node as nat))
            ==> socket_at(device) == Ok::<u32, TopologyError>(node),
        (device.local_cpulist is None || device.package_id is None) && device.numa_node is None
            ==> socket_at(device) == Err::<u32, TopologyError>(TopologyError::UnknownSocket),
        node > 0 && (device.local_cpulist is None || device.package_id is None) && (
        device.numa_node matches Some(file) && text::trimmed(file@) == seq!['-'] + text::decimal(
            node as nat,
        )) ==> socket_at(device) == Err::<u32, TopologyError>(TopologyError::UnknownSocket),
{
    let names = text::string_views(device.path@);
    let i = choose|i: int| 0 <= i < device.path@.len() && (#[trigger] device.path@[i])@
        == "devices"@;
    assert(names[i] == "devices"@);
    law_the_last_devices_directory_counts(names);
    text::law_decimal_reads_back(id as nat);
    text::law_signed_numbers_read_back(node as nat);
}

/// A device without a `devices` directory above it cannot be placed.
pub proof fn law_a_device_outside_sysfs_has_no_socket(device: SysfsDevice)
    requires
        forall|i: int|
            0 <= i < device.path@.len() ==> (#[trigger] device.path@[i])@ != "devices"@,
    ensures
        socket_at(device) == Err::<u32, TopologyError>(TopologyError::NoSysfsRoot),
{
    let names = text::string_views(device.path@);
    assert forall|i: int| 0 <= i < names.len() implies #[trigger] names[i] != "devices"@ by {
        assert(names[i] == device.path@[i]@);
    }
    law_the_last_devices_directory_counts(names);
}

/// The root buses of a socket are those of the root complexes that are on it, and no others.
pub proof fn law_a_sockets_buses_are_those_of_its_root_complexes(
    entries: Seq<RootEntry>,
    socket: u32,
    n: nat,
    address: (u32, u32),
)
    requires
        n <= entries.len(),
    ensures
        buses_on(entries, socket, n).contains(address) <==> exists|i: int|
            0 <= i < n && root_complex((#[trigger] entries[i]).name@) == Ok::<
                (u32, u32),
                TopologyError,
            >(address) && socket_of_entry(entries[i]) == Some(socket),
        buses_on(entries, socket, n).len() <= n,
    decreases n,
{
    if n > 0 {
        let m = (n - 1) as nat;
        law_a_sockets_buses_are_those_of_its_root_complexes(entries, socket, m, address);
        let before = buses_on(entries, socket, m);
        let all = buses_on(entries, socket, n);
        if before.contains(address) {
            let k = choose|k: int| 0 <= k < before.len() && before[k] == address;
            assert(all[k] == address);
        }
        if all.contains(address) && !before.contains(address) {
            let k = choose|k: int| 0 <= k < all.len() && all[k] == address;
            if k < before.len() {
                assert(before[k] == address);
            }
            assert(root_complex(entries[m as int].name@) == Ok::<(u32, u32), TopologyError>(
                address,
            ));
        }
        if root_complex(entries[m as int].name@) == Ok::<(u32, u32), TopologyError>(address)
            && socket_of_entry(entries[m as int]) == Some(socket) {
            assert(all[before.len() as int] == address);
        }
    }
}

/// The stacks of a socket are numbered in the order of their root buses, by domain and then by bus,
/// from zero; a root bus that is not on the socket has no stack there.
pub proof fn law_stacks_are_numbered_in_bus_order(
    list: Vec<RootEntry>,
    socket: u32,
    a: (u32, u32),
    b: (u32, u32),
)
    requires
        list@.len() <= u32::MAX,
    ensures
        ({
            let buses = buses_on(list@, socket, list@.len());
            let first = stack_at(Some(list), socket, a.0, a.1);
            let second = stack_at(Some(list), socket, b.0, b.1);
            &&& first is Ok <==> buses.contains(a)
            &&& first matches Err(error) ==> error == (TopologyError::NotOnSocket {
                domain: a.0,
                bus: a.1,
                socket,
            })
            &&& first matches Ok(x) ==> (second matches Ok(y) ==> {
                &&& x < buses.len()
                &&& (a.0 < b.0 || (a.0 == b.0 && a.1 < b.1)) <==> x < y
            })
            &&& (forall|i: int|
                0 <= i < buses.len() ==> !((#[trigger] buses[i]).0 < a.0 || (buses[i].0 == a.0
                    && buses[i].1 < a.1))) ==> (first matches Ok(x) ==> x == 0)
        }),
{
    let buses = buses_on(list@, socket, list@.len());
    law_a_sockets_buses_are_those_of_its_root_complexes(list@, socket, list@.len(), a);
    if buses.contains(a) && buses.contains(b) {
        law_stack_index_is_within_the_socket(buses, a);
        law_stack_index_is_within_the_socket(buses, b);
        if bus_before(a, b) {
            law_stacks_follow_bus_order(buses, a, b);
        }
        if bus_before(b, a) {
            law_stacks_follow_bus_order(buses, b, a);
        }
    }
    if buses.contains(a) {
        law_stack_index_is_within_the_socket(buses, a);
        if forall|i: int|
            0 <= i < buses.len() ==> !((#[trigger] buses[i]).0 < a.0 || (buses[i].0 == a.0
                && buses[i].1 < a.1)) {
            lemma_none_before(buses, a);
        }
    }
}

proof fn lemma_none_before(buses: Seq<(u32, u32)>, a: (u32, u32))
    requires
        forall|i: int|
            0 <= i < buses.len() ==> !((#[trigger] buses[i]).0 < a.0 || (buses[i].0 == a.0
                && buses[i].1 < a.1)),
    ensures
        buses_before(buses, a) == 0,
    decreases buses.len(),
{
    if buses.len() > 0 {
        let init = buses.drop_last();
        assert forall|i: int| 0 <= i < init.len() implies !((#[trigger] init[i]).0 < a.0 || (
        init[i].0 == a.0 && init[i].1 < a.1)) by {
            assert(init[i] == buses[i]);
        }
        lemma_none_before(init, a);
        assert(buses[buses.len() - 1] == buses.last());
    }
}

/// A stack's number is how many root buses of its socket come before its own: one more root bus in
/// front moves it up by one, one behind does not.
pub proof fn law_a_bus_in_front_moves_a_stack_up(
    buses: Seq<(u32, u32)>,
    more: (u32, u32),
    a: (u32, u32),
)
    ensures
        buses_before(buses.push(more), a) == buses_before(buses, a) + if more.0 < a.0 || (more.0
            == a.0 && more.1 < a.1) {
            1nat
        } else {
            0
        },
{
    assert(buses.push(more).drop_last() =~= buses);
}

/// A root complex is on the socket of the first device in it that reports one, and on none if no
/// device does.
pub proof fn law_the_first_device_places_its_root_complex(children: Seq<RootChild>, at: int, from: nat)
    requires
        from <= at <= children.len(),
        forall|i: int|
            0 <= i < at ==> !(#[trigger] children[i]).name@.contains(':') || socket_at(
                children[i].device,
            ) is Err,
        at < children.len() ==> children[at].name@.contains(':') && socket_at(
            children[at].device,
        ) is Ok,
    ensures
        at < children.len() ==> (socket_at(children[at].device) matches Ok(socket)
            ==> first_socket(children, from) == Some(socket)),
        at == children.len() ==> first_socket(children, from) is None,
    decreases at - from,
{
    if from < children.len() {
        let child = children[from as int];
        text::law_halves_at_the_first_make_the_whole(child.name@, ':');
        if from < at {
            assert(!child.name@.contains(':') || socket_at(child.device) is Err);
            law_the_first_device_places_its_root_complex(children, at, from + 1);
        }
    }
}

/// The root port of a device is directly below the first root complex on its path, however deep the
/// device is behind it.
pub proof fn law_the_root_port_is_below_the_first_root_complex(
    path: Seq<Seq<char>>,
    at: int,
    domain: u32,
    bus: u32,
    part: u32,
)
    requires
        0 <= at,
        at + 1 < path.len(),
        forall|i: int|
            0 <= i < at ==> !text::begins_with(#[trigger] path[i], "pci"@) || !path[i].contains(
                ':',
            ),
        root_complex(path[at]) == Ok::<(u32, u32), TopologyError>((domain, bus)),
        device_number(path[at + 1]) == Ok::<u32, TopologyError>(part),
    ensures
        root_port_at(path) == Ok::<(u32, u32, u32), TopologyError>((domain, bus, part)),
{
    let name = path[at];
    assert(text::begins_with(name, "pci"@));
    assert(name.contains(':')) by {
        let rest = name.skip("pci"@.len() as int);
        text::law_halves_at_the_first_make_the_whole(rest, ':');
        let i = choose|i: int| 0 <= i < rest.len() && rest[i] == ':';
        assert(name[i + "pci"@.len()] == ':');
    }
    lemma_root_index(path, 0, at);
}

proof fn lemma_root_index(path: Seq<Seq<char>>, from: nat, at: int)
    requires
        from <= at < path.len(),
        forall|i: int|
            0 <= i < at ==> !text::begins_with(#[trigger] path[i], "pci"@) || !path[i].contains(
                ':',
            ),
        text::begins_with(path[at], "pci"@),
        path[at].contains(':'),
    ensures
        root_index(path, from) == Some(at as nat),
    decreases at - from,
{
    text::law_halves_at_the_first_make_the_whole(path[from as int], ':');
    if from < at {
        assert(!text::begins_with(path[from as int], "pci"@) || !path[from as int].contains(':'));
        lemma_root_index(path, from + 1, at);
    }
}

/// A device is placed by its root port, its package and the place of its root bus among those of
/// the package: the part is the root port's device number and the stack that place.
pub proof fn law_a_device_is_placed_by_its_root_port(
    sysfs: Sysfs,
    domain: u32,
    bus: u32,
    part: u32,
    socket: u32,
    stack: u32,
)
    requires
        sysfs.device is Some,
        root_port_at(text::string_views(sysfs.device->0.path@)) == Ok::<
            (u32, u32, u32),
            TopologyError,
        >((domain, bus, part)),
        socket_at(sysfs.device->0) == Ok::<u32, TopologyError>(socket),
    ensures
        placed(sysfs) == Ok::<(u32, u32, u32), TopologyError>((socket, stack, part)) <==> stack_at(
            sysfs.entries,
            socket,
            domain,
            bus,
        ) == Ok::<u32, TopologyError>(stack),
{
}

/// The root complexes reported as unresolved are those on no socket.
pub proof fn law_unresolved_root_complexes_are_on_no_socket(
    entries: Seq<RootEntry>,
    n: nat,
    name: Seq<char>,
)
    requires
        n <= entries.len(),
    ensures
        unresolved_in(entries, n).contains(name) <==> exists|i: int|
            0 <= i < n && (#[trigger] entries[i]).name@ == name && root_complex(name) is Ok
                && socket_of_entry(entries[i]) is None,
    decreases n,
{
    if n > 0 {
        let m = (n - 1) as nat;
        law_unresolved_root_complexes_are_on_no_socket(entries, m, name);
        let before = unresolved_in(entries, m);
        let all = unresolved_in(entries, n);
        if before.contains(name) {
            let k = choose|k: int| 0 <= k < before.len() && before[k] == name;
            assert(all[k] == name);
        }
        if all.contains(name) && !before.contains(name) {
            let k = choose|k: int| 0 <= k < all.len() && all[k] == name;
            if k < before.len() {
                assert(before[k] == name);
            }
            assert(entries[m as int].name@ == name);
        }
        if entries[m as int].name@ == name && root_complex(name) is Ok && socket_of_entry(
            entries[m as int],
        ) is None {
            assert(all[before.len() as int] == name);
        }
    }
}

} // verus!
