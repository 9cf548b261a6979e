//! The PCIe and DRAM meters, and the topology they rest on.

use iris_core::lcore::dram_meter;
use iris_core::lcore::dram_meter::{DramLine, DramMeter, DramSample, PortSocket, SocketColumns};
use iris_core::lcore::meter::Feed;
use iris_core::lcore::pcie_meter;
use iris_core::lcore::pcie_meter::{
    parse_bytes, PcieLine, PcieMeter, PcieSample, PcieTarget, PortFacts,
};
use iris_core::lcore::topology::{
    first_cpu, parse_root_complex, root_port_device_number, socket_of_device, socket_of_pci_device,
    socket_of_root_complex, stack_index, sysfs_root, RootChild, RootEntry, Sysfs, SysfsDevice,
    TopologyError,
};

/// The two header lines `pcm-memory -nc -csv` prints on a two-socket host.
const GROUPS: &str = ",,SKT0,SKT0,SKT0,SKT1,SKT1,SKT1,System,System,System";
const METRICS: &str = "Date,Time,Mem Read (MB/s),Mem Write (MB/s),Memory (MB/s),\
                       Mem Read (MB/s),Mem Write (MB/s),Memory (MB/s),Read,Write,Memory";

fn float(field: &str) -> Option<u64> {
    field.parse::<f64>().ok().map(|value| value as u64)
}

fn floats(line: &str) -> Vec<Option<u64>> {
    pcie_meter::cells(line).iter().map(|f| float(f)).collect()
}

fn rates(line: &str) -> Vec<Option<u64>> {
    pcie_meter::cells(line)
        .iter()
        .map(|f| {
            f.parse::<f64>()
                .ok()
                .map(|mb| (mb * 1e6).round() as u64)
        })
        .collect()
}

#[test]
fn dram_meter_header_columns_by_name() {
    assert_eq!(
        dram_meter::header_columns(GROUPS, METRICS),
        vec![
            SocketColumns {
                socket: 0,
                read_col: 2,
                write_col: 3
            },
            SocketColumns {
                socket: 1,
                read_col: 5,
                write_col: 6
            },
        ]
    );
}

#[test]
fn header_columns_follow_names_not_positions() {
    // Write before Read within the group: the indices must follow the names.
    let metrics = "Date,Time,Mem Write (MB/s),Mem Read (MB/s),Memory (MB/s)";
    let groups = ",,SKT0,SKT0,SKT0";
    assert_eq!(
        dram_meter::header_columns(groups, metrics),
        vec![SocketColumns {
            socket: 0,
            read_col: 3,
            write_col: 2
        }]
    );
}

#[test]
fn header_columns_ignore_system_group() {
    // The System group's metrics are the bare words Read/Write, so a global
    // first-hit scan would match them. Grouping by socket is what excludes them.
    for cols in dram_meter::header_columns(GROUPS, METRICS) {
        assert!(cols.read_col < 8, "picked up a System column: {:?}", cols);
        assert!(cols.write_col < 8, "picked up a System column: {:?}", cols);
    }
}

#[test]
fn header_columns_ignore_socket_total() {
    // `Memory (MB/s)` is the socket's read+write total and must not be read as either.
    let cols = dram_meter::header_columns(GROUPS, METRICS);
    assert!(cols.iter().all(|c| c.read_col != 4 && c.write_col != 4));
}

#[test]
fn header_columns_tolerate_spaced_socket_token() {
    let groups = ",,SKT 0,SKT 0";
    let metrics = "Date,Time,Mem Read (MB/s),Mem Write (MB/s)";
    assert_eq!(
        dram_meter::header_columns(groups, metrics),
        vec![SocketColumns {
            socket: 0,
            read_col: 2,
            write_col: 3
        }]
    );
}

#[test]
fn header_columns_reject_unreadable_header() {
    assert!(dram_meter::header_columns("nothing,useful", "Date,Time,junk").is_empty());
}

#[test]
fn header_columns_are_sorted_and_complete() {
    // Socket 3 comes first but is listed last; socket 1 has no write column.
    let groups = "skt3,SKT3,SKT1,SKT0,SKT0,SKT0,SKTx";
    let metrics = "write,READ,read,read,write,read,read";
    assert_eq!(
        dram_meter::header_columns(groups, metrics),
        vec![
            SocketColumns {
                socket: 0,
                read_col: 3,
                write_col: 4
            },
            SocketColumns {
                socket: 3,
                read_col: 1,
                write_col: 0
            },
        ]
    );
}

#[test]
fn socket_groups_are_read() {
    assert_eq!(dram_meter::parse_socket_group("SKT12"), Some(12));
    assert_eq!(dram_meter::parse_socket_group("skt 7 "), Some(7));
    assert_eq!(dram_meter::parse_socket_group("Skt0"), None);
    assert_eq!(dram_meter::parse_socket_group("System"), None);
    assert_eq!(dram_meter::parse_socket_group("SKT"), None);
}

#[test]
fn parses_pci_addresses() {
    assert_eq!(parse_root_complex("pci0000:3a").unwrap(), (0, 0x3a));
    assert!(parse_root_complex("system").is_err());
    assert_eq!(root_port_device_number("0000:3a:02.0").unwrap(), 2);
    assert_eq!(first_cpu("0-17,36-53").unwrap(), 0);
}

#[test]
fn parses_byte_counts() {
    let parse = |field: &str| parse_bytes(field, float(field));
    assert_eq!(parse("10485760"), Some(10485760));
    assert_eq!(parse(""), Some(0));
    assert_eq!(parse("1024.0"), Some(1024));
    assert_eq!(parse("n/a"), None);
}

#[test]
fn pcie_meter_header_columns_by_name() {
    let header = "Socket,Name,Part,IB write,IB read,CPU read,CPU write";
    assert_eq!(pcie_meter::header_columns(header), Some((3, 4)));
}

#[test]
fn pcie_columns_are_two_different_ones() {
    // A column that says both is the write column only; the next one that says read is the other.
    assert_eq!(
        pcie_meter::header_columns("Socket,read/write,IB READ"),
        Some((1, 2))
    );
    assert_eq!(
        pcie_meter::header_columns("Socket,write,read-write"),
        Some((1, 2))
    );
    assert_eq!(pcie_meter::header_columns("Socket,read/write"), None);
    assert_eq!(pcie_meter::header_columns(""), None);
}

#[test]
fn topology_errors_have_their_inputs() {
    assert_eq!(
        parse_root_complex("system"),
        Err(TopologyError::NotRootComplex)
    );
    assert_eq!(
        parse_root_complex("pci0000"),
        Err(TopologyError::NotRootComplex)
    );
    assert_eq!(
        parse_root_complex("pci0000:zz"),
        Err(TopologyError::BadNumber)
    );
    assert_eq!(
        root_port_device_number("3a"),
        Err(TopologyError::NotPciAddress)
    );
    assert_eq!(
        root_port_device_number("3a:02"),
        Err(TopologyError::NotPciAddress)
    );
    assert_eq!(
        root_port_device_number("3a:.0"),
        Err(TopologyError::BadNumber)
    );
    assert_eq!(first_cpu(""), None);
    assert_eq!(first_cpu(" 5 -7"), Some(5));
}

fn strings(parts: &[&str]) -> Vec<String> {
    parts.iter().map(|p| p.to_string()).collect()
}

fn device(path: &[&str], cpulist: Option<&str>, package: Option<&str>) -> SysfsDevice {
    SysfsDevice {
        path: strings(path),
        local_cpulist: cpulist.map(|s| s.to_string()),
        package_id: package.map(|s| s.to_string()),
        numa_node: None,
    }
}

/// A two-socket Xeon Scalable topology: root buses 00/17/3a/5d on socket 0, 80/85/ae/d7 on
/// socket 1.
fn entries() -> Vec<RootEntry> {
    let buses: [(u32, &str, &str); 8] = [
        (0xd7, "18-35\n", "1\n"),
        (0x00, "0-17\n", "0\n"),
        (0x3a, "0-17\n", "0\n"),
        (0x17, "0-17\n", "0\n"),
        (0x5d, "0-17\n", "0\n"),
        (0x80, "18-35\n", "1\n"),
        (0x85, "18-35\n", "1\n"),
        (0xae, "18-35\n", "1\n"),
    ];
    let mut all = vec![RootEntry {
        name: "system".to_string(),
        children: None,
    }];
    for (bus, cpulist, package) in buses {
        let root = format!("pci0000:{bus:02x}");
        let port = format!("0000:{bus:02x}:00.0");
        all.push(RootEntry {
            name: root.clone(),
            children: Some(vec![
                RootChild {
                    name: "power".to_string(),
                    device: device(&["/", "devices"], Some("0"), Some("9")),
                },
                RootChild {
                    name: port.clone(),
                    device: device(
                        &["/", "sys", "devices", &root, &port],
                        Some(cpulist),
                        Some(package),
                    ),
                },
            ]),
        });
    }
    all
}

fn sysfs(found: Option<SysfsDevice>) -> Sysfs {
    Sysfs {
        device: found,
        entries: Some(entries()),
    }
}

#[test]
fn derives_target_from_pci_address() {
    let nic = PcieTarget::derive(
        "0000:3b:00.0",
        &sysfs(Some(device(
            &[
                "/",
                "sys",
                "devices",
                "pci0000:3a",
                "0000:3a:00.0",
                "0000:3b:00.0",
            ],
            Some("0-17\n"),
            Some("0\n"),
        ))),
    )
    .unwrap();
    assert_eq!((nic.socket, nic.stack, nic.part), (0, 2, 0));

    let other = PcieTarget::derive(
        "0000:d8:00.0",
        &sysfs(Some(device(
            &[
                "/",
                "sys",
                "devices",
                "pci0000:d7",
                "0000:d7:00.0",
                "0000:d8:00.0",
            ],
            Some("18-35\n"),
            Some("1\n"),
        ))),
    )
    .unwrap();
    assert_eq!((other.socket, other.stack, other.part), (1, 3, 0));

    assert!(PcieTarget::derive("0000:99:00.0", &sysfs(None)).is_err());
}

#[test]
fn derivation_fails_where_a_piece_is_missing() {
    let at = |path: &[&str]| PcieTarget::derive("x", &sysfs(Some(device(path, None, None))));
    assert_eq!(
        PcieTarget::derive("x", &sysfs(None)),
        Err(TopologyError::NoDevice)
    );
    assert_eq!(at(&["/", "sys"]), Err(TopologyError::NoRootComplex));
    assert_eq!(at(&["/", "pci0000:g"]), Err(TopologyError::BadNumber));
    assert_eq!(at(&["/", "pci0000:3a"]), Err(TopologyError::NoRootPort));
    assert_eq!(
        at(&["/", "pci0000:3a", "x"]),
        Err(TopologyError::NotPciAddress)
    );
    assert_eq!(
        at(&["/", "pci0000:3a", "0000:3a:00.0"]),
        Err(TopologyError::NoSysfsRoot)
    );
    let under = ["/", "devices", "pci0000:3a", "0000:3a:1f.0"];
    assert_eq!(at(&under), Err(TopologyError::UnknownSocket));
    assert_eq!(
        PcieTarget::derive(
            "x",
            &Sysfs {
                device: Some(device(&under, Some("0"), Some("0"))),
                entries: None
            }
        ),
        Err(TopologyError::CannotList)
    );
    assert_eq!(
        PcieTarget::derive("x", &sysfs(Some(device(&under, Some("0"), Some("5"))))),
        Err(TopologyError::NotOnSocket {
            domain: 0,
            bus: 0x3a,
            socket: 5
        })
    );
    let found = PcieTarget::derive("x", &sysfs(Some(device(&under, Some("0"), Some("0"))))).unwrap();
    assert_eq!(found.part, 0x1f);
}

#[test]
fn socket_falls_back_to_the_numa_node() {
    let mut d = device(&["/", "sys", "devices", "x"], Some("none"), Some("3"));
    d.numa_node = Some("1\n".to_string());
    // The list names no CPU, so its package is not looked at.
    assert_eq!(socket_of_device(&d), Ok(1));
    d.local_cpulist = Some("4".to_string());
    assert_eq!(socket_of_device(&d), Ok(3));
    d.package_id = Some("-1".to_string());
    assert_eq!(socket_of_device(&d), Ok(1));
    d.numa_node = Some("-1".to_string());
    assert_eq!(socket_of_device(&d), Err(TopologyError::UnknownSocket));
    d.numa_node = Some("-0".to_string());
    assert_eq!(socket_of_device(&d), Ok(0));
    assert_eq!(socket_of_pci_device(&Some(d)), Ok(0));
    assert_eq!(socket_of_pci_device(&None), Err(TopologyError::NoDevice));
}

#[test]
fn the_deepest_devices_directory_is_taken() {
    assert_eq!(
        sysfs_root(&strings(&["/", "devices", "sys", "devices", "pci0000:00"])),
        Ok(3)
    );
    assert_eq!(
        sysfs_root(&strings(&["/", "sys"])),
        Err(TopologyError::NoSysfsRoot)
    );
}

#[test]
fn unresolved_root_complexes_are_named() {
    let mut list = entries();
    list.push(RootEntry {
        name: "pci0001:00".to_string(),
        children: None,
    });
    assert_eq!(socket_of_root_complex(&list[1]), Some(1));
    assert_eq!(socket_of_root_complex(&list[9]), None);
    let found = stack_index(&Some(list), 0, 0, 0x5d);
    assert_eq!(found.index, Ok(3));
    assert_eq!(found.unresolved, vec!["pci0001:00"]);
}

#[test]
fn stacks_follow_bus_order() {
    let list = Some(entries());
    let at = |bus| stack_index(&list, 0, 0, bus).index.unwrap();
    assert_eq!((at(0x00), at(0x17), at(0x3a), at(0x5d)), (0, 1, 2, 3));
}

fn target(socket: u32, stack: u32, part: u32) -> PcieTarget {
    PcieTarget {
        socket,
        stack,
        part,
        device: "0000:3b:00.0".to_owned(),
    }
}

#[test]
fn matches_derived_row() {
    let target = PcieTarget {
        socket: 0,
        stack: 2,
        part: 0,
        device: "0000:3b:00.0".to_owned(),
    };
    let row = "Socket0,IIO Stack 2 - PCIe2,Part0 (1st x16/x8/x4),9821,147,0";
    let fields: Vec<&str> = row.split(',').collect();
    assert!(target.matches(&fields));

    let other = "Socket0,IIO Stack 20 - PCIe2,Part0 (1st x16/x8/x4),9821,147,0";
    assert!(!target.matches(&other.split(',').collect::<Vec<_>>()));
}

#[test]
fn a_row_describes_one_root_port() {
    let row = "Socket1,iio STACK 02 x,Part3,1,2";
    let fields: Vec<&str> = row.split(',').collect();
    let mut hits = Vec::new();
    for socket in 0..4 {
        for stack in 0..4 {
            for part in 0..4 {
                if target(socket, stack, part).matches(&fields) {
                    hits.push((socket, stack, part));
                }
            }
        }
    }
    assert_eq!(hits, vec![(1, 2, 3)]);
    assert!(!target(1, 2, 3).matches(&fields[..4]));
    assert!(pcie_meter::matches_part("Part0 (1st)", 0));
    assert!(!pcie_meter::matches_part("Part01", 0));
    assert!(!pcie_meter::matches_part("", 0));
    assert!(!pcie_meter::matches_stack("IIO Stack", 0));
    assert!(!pcie_meter::matches_stack("PCIe 2", 2));
}

#[test]
fn targets_are_labelled_for_display() {
    assert_eq!(
        target(1, 20, 3).label(),
        "0000:3b:00.0 (Socket1 IIO Stack 20 Part3)"
    );
}

#[test]
fn pcie_lines_become_samples() {
    assert!(PcieMeter::follow(vec![]).is_none());
    let mut meter = PcieMeter::follow(vec![target(0, 2, 0), target(1, 0, 0)]).unwrap();
    let feed = |meter: &mut PcieMeter, line: &str| meter.on_line(line, &floats(line));

    let first = meter.stats();
    assert_eq!(first.len(), 2);
    assert!(!first[0].started);
    assert!(first[0].sample.is_none());

    // Default columns until a header says otherwise.
    match feed(&mut meter, " Socket0, IIO Stack 2 - PCIe2 ,Part0 (x), 100 , 7.9 ,0 ") {
        PcieLine::Row(found) => {
            assert_eq!(found.len(), 1);
            assert_eq!(
                (found[0].target, found[0].write_bytes, found[0].read_bytes),
                (0, 100, 7)
            );
        }
        other => panic!("{other:?}"),
    }
    match feed(&mut meter, "Socket,Name,Part,IB read,IB write") {
        PcieLine::Header {
            write_col,
            read_col,
        } => assert_eq!((write_col, read_col), (4, 3)),
        other => panic!("{other:?}"),
    }
    // A header that names nothing leaves the columns alone.
    match feed(&mut meter, "Socket,Name") {
        PcieLine::Header { write_col, .. } => assert_eq!(write_col, 4),
        other => panic!("{other:?}"),
    }
    feed(&mut meter, "Socket0,IIO Stack 2,Part0,1000,n/a");

    let stats = meter.stats();
    assert_eq!(
        stats[0].sample,
        Some(PcieSample {
            seq: 2,
            write_bytes: 0,
            read_bytes: 1000
        })
    );
    assert_eq!(
        (stats[0].total_write_bytes, stats[0].total_read_bytes),
        (100, 1007)
    );
    assert_eq!(stats[0].label, "0000:3b:00.0 (Socket0 IIO Stack 2 Part0)");
    assert!(stats[1].sample.is_none());
    assert!(!stats[1].started);

    // Nothing new: a stale count is not shown again.
    let again = meter.stats();
    assert!(again[0].sample.is_none());
    assert!(again[0].started);
    assert_eq!(again[0].total_read_bytes, 1007);
}

#[test]
fn unlocatable_ports_are_left_out() {
    let ports = vec![
        PortFacts {
            device: "gone".to_string(),
            sysfs: sysfs(None),
        },
        PortFacts {
            device: "0000:3b:00.0".to_string(),
            sysfs: sysfs(Some(device(
                &["/", "sys", "devices", "pci0000:3a", "0000:3a:02.0"],
                Some("0-17"),
                Some("0"),
            ))),
        },
    ];
    let targets = pcie_meter::resolve_targets(&ports);
    assert_eq!(targets, vec![target(0, 2, 2)]);
}

#[test]
fn logs_have_one_column_per_value() {
    assert_eq!(pcie_meter::log_header().len(), 7);
    assert_eq!(
        pcie_meter::log_record(&target(0, 2, 1), 1234, 56, 78),
        vec!["1234", "0000:3b:00.0", "0", "2", "1", "56", "78"]
    );
    let sockets = dram_meter::resolve_targets(&vec![
        port("a", Some(1)),
        port("b", None),
        port("c", Some(0)),
        port("d", Some(1)),
    ]);
    assert_eq!(dram_meter::log_header().len(), 5);
    assert_eq!(
        dram_meter::log_record(&sockets[1], 9, 3, 4),
        vec!["9", "1", "a;d", "3", "4"]
    );
}

fn port(device: &str, socket: Option<u32>) -> PortSocket {
    PortSocket {
        device: device.to_string(),
        socket,
    }
}

#[test]
fn ports_of_a_socket_share_a_target() {
    let targets = dram_meter::resolve_targets(&vec![
        port("a", Some(7)),
        port("b", None),
        port("c", Some(0)),
        port("d", Some(7)),
    ]);
    assert_eq!(targets.len(), 2);
    assert_eq!((targets[0].socket, targets[1].socket), (0, 7));
    assert_eq!(targets[0].devices, vec!["c"]);
    assert_eq!(targets[1].devices, vec!["a", "d"]);
    assert_eq!(targets[1].label(), "socket7");
}

fn dram() -> DramMeter {
    DramMeter::follow(dram_meter::resolve_targets(&vec![
        port("a", Some(0)),
        port("b", Some(1)),
    ]))
    .unwrap()
}

#[test]
fn dram_lines_become_samples() {
    assert!(DramMeter::follow(vec![]).is_none());
    let mut meter = dram();
    let feed = |meter: &mut DramMeter, line: &str| meter.on_line(line, &rates(line));
    assert!(matches!(feed(&mut meter, GROUPS), DramLine::Preamble));
    assert!(matches!(
        feed(&mut meter, METRICS),
        DramLine::Header { guessed: false }
    ));
    match feed(&mut meter, "d,t,1.5,2,0, 3 ,,0,9,9,9") {
        DramLine::Row(found) => {
            assert_eq!(found.len(), 2);
            assert_eq!(
                (found[0].target, found[0].read_bytes, found[0].write_bytes),
                (0, 1_500_000, 2_000_000)
            );
            // An empty cell means zero.
            assert_eq!(
                (found[1].target, found[1].read_bytes, found[1].write_bytes),
                (1, 3_000_000, 0)
            );
        }
        other => panic!("{other:?}"),
    }
    // One cell unreadable and one missing: no sample for either socket.
    match feed(&mut meter, "d,t,1,n/a,0,4") {
        DramLine::Row(found) => assert!(found.is_empty()),
        other => panic!("{other:?}"),
    }
    let stats = meter.stats();
    assert_eq!(
        stats[0].sample,
        Some(DramSample {
            read_bytes: 1_500_000,
            write_bytes: 2_000_000
        })
    );
    assert_eq!(stats[1].total_read_bytes, 3_000_000);
    assert_eq!(stats[1].label, "socket1");
    assert!(meter.stats()[0].sample.is_none());
    assert!(meter.stats()[0].started);
}

#[test]
fn unreadable_dram_header_is_guessed() {
    let mut meter = dram();
    meter.on_line("nothing", &rates("nothing"));
    assert!(matches!(
        meter.on_line("Date,Time,junk", &rates("Date,Time,junk")),
        DramLine::Header { guessed: true }
    ));
    assert_eq!(
        dram_meter::fallback_columns(&meter.targets),
        vec![
            SocketColumns {
                socket: 0,
                read_col: 2,
                write_col: 3
            },
            SocketColumns {
                socket: 1,
                read_col: 5,
                write_col: 6
            },
        ]
    );
    assert_eq!(
        meter.columns,
        dram_meter::fallback_columns(&meter.targets)
    );
}

#[test]
fn feeds_add_up() {
    let mut feed = Feed::new();
    assert!(!feed.is_fresh(0));
    for (read, write) in [(1, 10), (2, 20), (u64::MAX, 30)] {
        feed.sample(read, write);
    }
    assert_eq!(feed.seq, 3);
    assert_eq!((feed.read_bytes, feed.write_bytes), (u64::MAX, 30));
    assert_eq!((feed.total_read_bytes, feed.total_write_bytes), (2, 60));
    assert!(feed.is_fresh(2));
    assert!(!feed.is_fresh(3));
}
