//! Queues, pools, runs, and the text and list helpers.

use iris_core::filter::flow_drop::split_queues::{OnlineConfig, PortMap, SplitQueueMap};
use iris_core::lcore::{CoreId, SocketId};
use iris_core::memory::accounting::{
    all_mempool_stats, checked_total_allocated_bytes, mempool_high_water, mempool_stats,
    sample_mempool_high_water, total_allocated_bytes, HighWaterTable, MempoolStats, RawPool,
};
use iris_core::ratio::Ratio;
use iris_core::runtime::{ModeConfig, Runtime, RuntimeConfig, RuntimeError, Step, SPLIT_HDR_SIZE};
use iris_core::sorted;
use iris_core::text;

fn port(cores: &[u32], sinks: usize) -> PortMap {
    PortMap {
        device: "0000:3b:00.0".to_string(),
        cores: cores.to_vec(),
        sinks,
    }
}

#[test]
fn every_port_gets_a_split_queue_of_its_own() {
    let online = OnlineConfig {
        ports: vec![port(&[5, 1, 3, 1], 2), port(&[9], 0)],
    };
    assert!(SplitQueueMap::fits(&online));
    let map = SplitQueueMap::from_config(&online);
    assert_eq!(map.port_queues, vec![vec![3, 5, 7], vec![1]]);
    // Its own split queue on its own port, a wrapped one on the other.
    assert_eq!(map.queues_for(CoreId(1)), Some(vec![3, 1]));
    assert_eq!(map.queues_for(CoreId(5)), Some(vec![7, 1]));
    assert_eq!(map.queues_for(CoreId(9)), Some(vec![3, 1]));
    assert_eq!(map.queues_for(CoreId(2)), None);
}

#[test]
fn a_port_without_cores_cannot_be_steered() {
    let map = SplitQueueMap::from_config(&OnlineConfig {
        ports: vec![port(&[0], 0), port(&[], 0)],
    });
    assert_eq!(map.queues_for(CoreId(0)), None);
    assert_eq!(SplitQueueMap::default().queues_for(CoreId(0)), None);
}

#[test]
fn a_core_of_two_ports_is_at_home_on_the_last() {
    let map = SplitQueueMap::from_config(&OnlineConfig {
        ports: vec![port(&[0, 1, 2], 0), port(&[2, 7], 0)],
    });
    assert_eq!(map.queues_for(CoreId(2)), Some(vec![1, 1]));
    assert_eq!(map.queues_for(CoreId(7)), Some(vec![3, 3]));
}

#[test]
fn queue_ids_must_fit() {
    assert!(SplitQueueMap::fits(&OnlineConfig {
        ports: vec![port(&[0], 65534)]
    }));
    assert!(!SplitQueueMap::fits(&OnlineConfig {
        ports: vec![port(&[0], 65535)]
    }));
    // The sink count itself wraps.
    let wrapped = OnlineConfig {
        ports: vec![port(&[0], 65536)],
    };
    assert!(SplitQueueMap::fits(&wrapped));
    assert_eq!(
        SplitQueueMap::from_config(&wrapped).queues_for(CoreId(0)),
        Some(vec![1])
    );
}

fn raw(name: &str, in_use: u32) -> RawPool {
    RawPool {
        name: name.to_string(),
        socket_id: 1,
        size: 1000,
        populated_size: 999,
        header_size: 64,
        elt_size: 2304,
        trailer_size: 0,
        chunks: vec![4096, 8192],
        nb_mem_chunks: 2,
        cache_size: 512,
        avail: 300,
        in_use,
    }
}

#[test]
fn pools_are_listed_in_name_order() {
    let list = all_mempool_stats(vec![raw("b", 1), raw("a", 2), raw("ab", 3), raw("B", 4)]);
    let names: Vec<&str> = list.iter().map(|s| s.name.as_str()).collect();
    assert_eq!(names, vec!["B", "a", "ab", "b"]);
    let in_use: Vec<u32> = list.iter().map(|s| s.in_use).collect();
    assert_eq!(in_use, vec![4, 2, 3, 1]);
    assert_eq!(total_allocated_bytes(&list), 4 * 12288);
}

#[test]
fn pools_of_one_name_keep_their_order() {
    let list = all_mempool_stats(vec![raw("x", 1), raw("a", 9), raw("x", 2)]);
    let in_use: Vec<u32> = list.iter().map(|s| s.in_use).collect();
    assert_eq!(in_use, vec![9, 1, 2]);
}

#[test]
fn a_pool_accounts_for_its_chunks() {
    let s = mempool_stats(Some(raw("standard", 100))).unwrap();
    assert_eq!(s.obj_bytes, 2368);
    assert_eq!(s.allocated_bytes, 12288);
    assert_eq!(s.in_use_bytes(), 236_800);
    assert_eq!(s.utilisation(), Ratio { num: 100, den: 400 });
    assert_eq!((s.socket_id, s.size, s.populated_size), (1, 1000, 999));
    assert_eq!((s.nb_mem_chunks, s.cache_size, s.avail), (2, 512, 300));
    assert!(mempool_stats(None).is_none());
    assert_eq!(
        MempoolStats::default().utilisation(),
        Ratio { num: 0, den: 1 }
    );
}

#[test]
fn accounting_that_does_not_fit_is_told() {
    let mut pool = raw("p", 1);
    assert!(pool.can_account());
    pool.chunks = vec![u64::MAX, 1];
    assert!(!pool.can_account());
    pool.chunks = vec![];
    pool.trailer_size = u32::MAX;
    assert!(!pool.can_account());

    let mut a = MempoolStats::default();
    a.allocated_bytes = u64::MAX;
    let mut b = MempoolStats::default();
    b.allocated_bytes = 1;
    assert_eq!(checked_total_allocated_bytes(&[a, b]), None);
    assert_eq!(total_allocated_bytes(&[]), 0);
}

#[test]
fn peaks_and_means_accumulate() {
    let mut table = HighWaterTable::new();
    assert!(mempool_high_water(&table).is_empty());
    for (b, a) in [(10, 5), (30, 5), (20, 8)] {
        let stats = all_mempool_stats(vec![raw("b", b), raw("a", a)]);
        assert!(table.has_room_for(2));
        sample_mempool_high_water(&mut table, &stats);
    }
    let reports = mempool_high_water(&table);
    assert_eq!(reports.len(), 2);
    assert_eq!(reports[0].name, "a");
    assert_eq!(reports[0].peak_in_use, 8);
    assert_eq!(reports[0].mean_in_use, Ratio { num: 18, den: 3 });
    assert_eq!(reports[1].name, "b");
    assert_eq!(reports[1].peak_in_use, 30);
    assert_eq!(reports[1].peak_in_use_bytes, 30 * 2368);
    assert_eq!(reports[1].peak_utilisation, Ratio { num: 30, den: 1000 });
    assert_eq!(reports[1].samples, 3);
    table.entries[0].accum.samples = u64::MAX;
    assert!(!table.has_room_for(1));
}

fn runtime(online: Option<u16>, offline: Option<u16>) -> Runtime {
    Runtime::new(
        &RuntimeConfig {
            socket_ids: vec![SocketId(0), SocketId(1)],
            online: online.map(|mtu| ModeConfig { mtu }),
            offline: offline.map(|mtu| ModeConfig { mtu }),
            flow_table: true,
        },
        1500,
        0,
    )
    .unwrap()
}

#[test]
fn a_failed_environment_gives_no_runtime() {
    let config = RuntimeConfig {
        socket_ids: vec![],
        online: None,
        offline: None,
        flow_table: false,
    };
    assert_eq!(
        Runtime::new(&config, 1500, -1).unwrap_err(),
        RuntimeError::Environment
    );
    assert!(Runtime::new(&config, 1500, 7).is_ok());
}

#[test]
fn pools_are_planned_per_socket() {
    let both = runtime(Some(9000), Some(1600));
    assert_eq!(both.pools.len(), 2);
    assert_eq!(both.pools[1].socket_id, SocketId(1));
    assert_eq!(both.pools[1].mtu, 9000);
    assert_eq!(both.pools[1].split_hdr_size, SPLIT_HDR_SIZE);
    assert_eq!(runtime(None, Some(1600)).pools[0].mtu, 1600);
    assert_eq!(runtime(None, None).pools[0].mtu, 1500);
    assert!(both.flow_table);
}

#[test]
fn the_hook_runs_once() {
    let online = runtime(Some(1500), Some(1500));
    assert_eq!(online.run(), vec![Step::Online { pre_stop: false }]);
    assert_eq!(
        online.run_with_pre_stop(),
        vec![Step::Online { pre_stop: true }]
    );
    let offline = runtime(None, Some(1500));
    assert_eq!(offline.run(), vec![Step::Offline]);
    assert_eq!(
        offline.run_with_pre_stop(),
        vec![Step::Offline, Step::PreStop]
    );
    assert_eq!(runtime(None, None).run_with_pre_stop(), vec![Step::NoRuntime]);
}

#[test]
fn lists_are_sorted_and_distinct() {
    assert_eq!(sorted::sort_distinct(&vec![3, 1, 3, 2, 1]), vec![1, 2, 3]);
    assert_eq!(sorted::sort_distinct(&vec![]), Vec::<u32>::new());
    let mut list = vec![2, 5];
    sorted::insert(&mut list, 3);
    sorted::insert(&mut list, 5);
    assert_eq!(list, vec![2, 3, 5]);
}

fn chars(s: &str) -> Vec<char> {
    s.chars().collect()
}

#[test]
fn text_is_trimmed_and_split() {
    assert_eq!(text::trim(&chars(" \t\u{a0}x y\u{3000}\n")), chars("x y"));
    assert_eq!(text::trim(&chars("   ")), chars(""));
    assert_eq!(
        text::split(&chars("a,,b"), ','),
        vec![chars("a"), chars(""), chars("b")]
    );
    assert_eq!(text::split(&chars(""), ','), vec![chars("")]);
    assert_eq!(
        text::split_words(&chars("  IIO\tStack 2 ")),
        vec![chars("IIO"), chars("Stack"), chars("2")]
    );
    assert_eq!(
        text::split_once(&chars("a:b:c"), ':'),
        Some((chars("a"), chars("b:c")))
    );
    assert_eq!(
        text::rsplit_once(&chars("a:b:c"), ':'),
        Some((chars("a:b"), chars("c")))
    );
    assert_eq!(text::split_once(&chars("abc"), ':'), None);
    assert_eq!(text::lower(&chars("ReAd\u{c9}")), chars("read\u{c9}"));
    assert!(text::contains(&chars("mem read"), &chars("read")));
    assert!(text::contains(&chars("x"), &chars("")));
    assert!(!text::contains(&chars("rea"), &chars("read")));
    assert_eq!(text::strip_prefix(&chars("pci00"), "pci"), Some(chars("00")));
    assert_eq!(text::strip_prefix(&chars("pc"), "pci"), None);
}

#[test]
fn numbers_are_read_like_the_standard_library_reads_them() {
    for s in [
        "0", "007", "+5", "-5", "+", "", "-", "++1", " 1", "1 ", "4294967295", "4294967296",
        "18446744073709551615", "18446744073709551616", "99999999999999999999", "1a", "-0",
        "2147483647", "2147483648", "-2147483648", "-2147483649",
    ] {
        assert_eq!(text::parse_u32(&chars(s)), s.parse::<u32>().ok(), "{s:?}");
        assert_eq!(text::parse_u64(&chars(s)), s.parse::<u64>().ok(), "{s:?}");
        assert_eq!(text::parse_usize(&chars(s)), s.parse::<usize>().ok(), "{s:?}");
        assert_eq!(text::parse_i32(&chars(s)), s.parse::<i32>().ok(), "{s:?}");
        assert_eq!(
            text::parse_hex_u32(&chars(s)),
            u32::from_str_radix(s, 16).ok(),
            "{s:?}"
        );
    }
    assert_eq!(text::parse_hex_u32(&chars("fFfFfFfF")), Some(u32::MAX));
}

#[test]
fn numbers_are_written_in_decimal() {
    for n in [0, 9, 10, 1234567890, u64::MAX] {
        assert_eq!(text::number(n), n.to_string());
    }
    assert_eq!(text::numbered("row ", 3, ": bad"), "row 3: bad");
    assert_eq!(text::ending_in("socket", 12), "socket12");
    assert_eq!(text::copied("same"), "same");
    let parts = vec!["a".to_string(), "b".to_string(), "c".to_string()];
    assert_eq!(text::join(&parts, ", "), "a, b, c");
    assert_eq!(text::join(&vec![], ", "), "");
}

#[test]
fn dictionary_order_is_that_of_strings() {
    let words = ["", "a", "ab", "b", "B", "\u{e9}", "z"];
    for a in words {
        for b in words {
            assert_eq!(text::is_before(&chars(a), &chars(b)), a < b, "{a:?} {b:?}");
        }
    }
}

#[test]
fn white_space_is_that_of_the_standard_library() {
    for code in 0..0x1_0000u32 {
        if let Some(c) = char::from_u32(code) {
            assert_eq!(text::is_space(c), c.is_whitespace(), "{code:x}");
        }
    }
}
