use pixelflut::pixelflut_gstreamer::connectionpool::{
    addresses_to_try, ConnectStep, ConnectTuple, ConnectionPool, ConnectionTuple, ConnectionVia,
    PoolBuilder,
};
use regex::Regex;

#[test]
pub fn test_sockaddrs() {
    assert_eq!(
        Some(vec![ConnectionTuple {
            host: "127.0.0.1:1234".to_owned(),
            multiplicity: 1,
            via: ConnectionVia::Any
        }]),
        ConnectionTuple::parse("127.0.0.1:1234")
    );

    assert_eq!(
        Some(vec![ConnectionTuple {
            host: "127.0.0.1:1234".to_owned(),
            multiplicity: 20,
            via: ConnectionVia::Any
        }]),
        ConnectionTuple::parse("127.0.0.1:1234#20")
    );
}

/// The host list parser written with the regular expression of the hostspec grammar.
fn regex_parse(re: &Regex, s: &str) -> Option<Vec<(String, usize, Option<String>, Option<String>)>> {
    if s == "" {
        return Some(Vec::new());
    }
    if s.trim().is_empty() {
        return None;
    }
    let mut results = Vec::new();
    for entry in s.split(',') {
        let entry = entry.trim();
        let caps = re.captures(entry)?;
        let host = caps.name("host").map(|m| m.as_str().to_string())?;
        let multiplicity = caps
            .name("mult")
            .map(|m| m.as_str().parse::<usize>().ok())
            .unwrap_or(Some(1))?;
        let ip = caps.name("via_ip").map(|m| m.as_str().to_string());
        let dev = if caps.name("via_ip").is_none() {
            caps.name("via_dev").map(|m| m.as_str().to_string())
        } else {
            None
        };
        results.push((host, multiplicity, ip, dev));
    }
    Some(results)
}

fn library_parse(s: &str) -> Option<Vec<(String, usize, Option<String>, Option<String>)>> {
    let parsed = ConnectionTuple::parse(s)?;
    Some(
        parsed
            .into_iter()
            .map(|t| {
                let (ip, dev) = match t.via {
                    ConnectionVia::Any => (None, None),
                    ConnectionVia::ViaIP(text) => (Some(text), None),
                    ConnectionVia::ViaDevice(dev) => (None, Some(dev)),
                };
                (t.host, t.multiplicity, ip, dev)
            })
            .collect(),
    )
}

fn hostspec_regex() -> Regex {
    Regex::new(
        r#"(?x)
    (?P<host>[A-Za-z0-9.\-:\[\]]+)
    (?:
        @ (?P<via_ip>  [^\#/,]+ )
      | / (?P<via_dev> [^\#/,]+ )
    )?
    (?:\#(?P<mult>\d+))?
"#,
    )
    .unwrap()
}

#[test]
fn parse_agrees_with_the_regular_expression() {
    let re = hostspec_regex();
    let alphabet: Vec<char> = vec![
        'a', 'Z', '1', '0', '.', ':', '-', '[', ']', '@', '/', '#', ',', ' ', '\t', '\u{3000}',
        'é', '_', '9', '\u{663}', '\u{ff11}',
    ];
    let mut state: u64 = 0x2545_f491_4f6c_dd1d;
    for _ in 0..3000 {
        state ^= state << 13;
        state ^= state >> 7;
        state ^= state << 17;
        let len = (state % 12) as usize;
        let mut s = String::new();
        let mut x = state;
        for _ in 0..len {
            x = x.wrapping_mul(6364136223846793005).wrapping_add(1442695040888963407);
            s.push(alphabet[((x >> 33) % alphabet.len() as u64) as usize]);
        }
        assert_eq!(regex_parse(&re, &s), library_parse(&s), "input: {s:?}");
    }
    for s in [
        "",
        " ",
        "\u{3000}\t",
        "host:1#3, other@10.0.0.1#2,dev/eth0",
        "a@::1",
        "a@@b",
        "x/y/z#4",
        "[::1]:80#18446744073709551615",
        "[::1]:80#18446744073709551616",
        ",",
        "h#",
        "__ h",
        "h#\u{661}\u{662}",
        "h#12\u{663}",
        "h#\u{663}4",
        "h/dev#\u{1d7ce}",
    ] {
        assert_eq!(regex_parse(&re, s), library_parse(s), "input: {s:?}");
    }
}

#[test]
fn parse_edge_cases() {
    assert_eq!(ConnectionTuple::parse(""), Some(vec![]));
    assert_eq!(ConnectionTuple::parse("  \t "), None);
    assert_eq!(ConnectionTuple::parse("a,,b"), None);
    assert_eq!(ConnectionTuple::parse("h#99999999999999999999999"), None);
    // `\d` takes any decimal digit, but only ASCII digits make a multiplicity.
    assert_eq!(ConnectionTuple::parse("h#\u{661}\u{662}"), None);
    assert_eq!(ConnectionTuple::parse("h#12\u{663}"), None);
    assert_eq!(
        ConnectionTuple::parse(" h1@10.1.1.1#2 , h2/eth0 "),
        Some(vec![
            ConnectionTuple {
                host: "h1".to_owned(),
                multiplicity: 2,
                via: ConnectionVia::ViaIP("10.1.1.1".to_owned())
            },
            ConnectionTuple {
                host: "h2".to_owned(),
                multiplicity: 1,
                via: ConnectionVia::ViaDevice("eth0".to_owned())
            },
        ])
    );
}

#[test]
fn send_cycles_through_the_connections() {
    let mut pool: ConnectionPool<u32> = ConnectionPool::default();
    assert!(pool.is_empty());
    pool.set_connections(vec![10, 11, 12]);
    assert!(!pool.is_empty());
    let picked: Vec<u32> = (0..7).map(|i| *pool.send(i)).collect();
    assert_eq!(picked, vec![10, 11, 12, 10, 11, 12, 10]);
    pool.set_connections(vec![5]);
    assert_eq!(*pool.send(3), 5);
}

#[test]
fn connect_rotates_over_the_addresses() {
    // Three addresses, two streams; the first try of the second stream starts one address
    // further on.
    let mut plan = ConnectTuple::<u32>::new(3, 2);
    assert!(matches!(plan.step(), ConnectStep::Connect(0)));
    plan.on_connect_result(None);
    assert!(matches!(plan.step(), ConnectStep::Connect(1)));
    plan.on_connect_result(Some(1));
    assert!(matches!(plan.step(), ConnectStep::Connect(1)));
    plan.on_connect_result(None);
    assert!(matches!(plan.step(), ConnectStep::Connect(2)));
    plan.on_connect_result(None);
    assert!(matches!(plan.step(), ConnectStep::Connect(0)));
    plan.on_connect_result(Some(2));
    assert!(matches!(plan.step(), ConnectStep::Done));
    assert_eq!(plan.into_streams(), vec![1, 2]);
}

#[test]
fn connect_fails_when_every_address_failed() {
    let mut plan = ConnectTuple::<u32>::new(2, 1);
    assert!(matches!(plan.step(), ConnectStep::Connect(0)));
    plan.on_connect_result(None);
    assert!(matches!(plan.step(), ConnectStep::Connect(1)));
    plan.on_connect_result(None);
    assert!(matches!(plan.step(), ConnectStep::Failed));
    let mut none = ConnectTuple::<u32>::new(0, 1);
    assert!(matches!(none.step(), ConnectStep::Failed));
    let mut zero = ConnectTuple::<u32>::new(0, 0);
    assert!(matches!(zero.step(), ConnectStep::Done));
}

#[test]
fn only_addresses_of_the_source_family_are_tried() {
    let is_v4 = vec![true, false, true, false, false];
    assert_eq!(addresses_to_try(&is_v4, None), vec![0, 1, 2, 3, 4]);
    assert_eq!(addresses_to_try(&is_v4, Some(true)), vec![0, 2]);
    assert_eq!(addresses_to_try(&is_v4, Some(false)), vec![1, 3, 4]);
    assert_eq!(addresses_to_try(&vec![], Some(true)), Vec::<usize>::new());
}

#[test]
fn pool_gathers_streams_in_tuple_order() {
    let mut builder: PoolBuilder<&str> = PoolBuilder::new(vec![2, 0, 1]);
    assert_eq!(builder.next_tuple(), Some(0));
    assert_eq!(builder.multiplicity(0), 2);
    builder.add_tuple_streams(vec!["a1", "a2"]);
    assert_eq!(builder.next_tuple(), Some(1));
    builder.add_tuple_streams(vec![]);
    assert_eq!(builder.next_tuple(), Some(2));
    builder.add_tuple_streams(vec!["c1"]);
    assert_eq!(builder.next_tuple(), None);
    assert_eq!(builder.finish(), vec!["a1", "a2", "c1"]);
}

#[test]
fn failed_connect_keeps_the_old_pool() {
    let mut pool: ConnectionPool<u32> = ConnectionPool::default();
    assert_eq!(pool.set_connections_from::<&str>(Ok(vec![1, 2])), Ok(()));
    assert_eq!(pool.set_connections_from(Err("refused")), Err("refused"));
    assert_eq!(*pool.send(0), 1);
    assert_eq!(*pool.send(1), 2);
    assert_eq!(pool.set_connections_from::<&str>(Ok(vec![9])), Ok(()));
    assert_eq!(*pool.send(1), 9);
}
