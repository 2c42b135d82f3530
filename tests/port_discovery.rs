use chromedriver_launch::chromedriver::Builder;
use chromedriver_launch::resolve::{
    contains_inode, search, ResolveError, Resolver, SearchOutcome, Step, DEFAULT_TIMEOUT_MS,
    POLL_INTERVAL_MS,
};
use chromedriver_launch::socket::{parse_socket_link, socket_inodes};
use chromedriver_launch::tcp::{parse_line, parse_table, ConnectionEntry, Ipv4, ParseError};
use chromedriver_launch::text::{digit, parse_number, split_fields, split_lines};

const HEADER: &str = "  sl  local_address rem_address   st tx_queue rx_queue tr tm->when retrnsmt   uid  timeout inode";

fn row(sl: u32, local: &str, state: &str, inode: u64) -> String {
    format!(
        "   {}: {} 00000000:0000 {} 00000000:00000000 00:00000000 00000000  1000        0 {} 1 0000000000000000 100 0 0 10 0",
        sl, local, state, inode
    )
}

fn table(rows: &[String]) -> Vec<u8> {
    let mut text = String::from(HEADER);
    text.push('\n');
    for r in rows {
        text.push_str(r);
        text.push('\n');
    }
    text.into_bytes()
}

fn link(s: &str) -> Option<Vec<u8>> {
    Some(s.as_bytes().to_vec())
}

fn entry(addr: Ipv4, port: u16, inode: u64) -> ConnectionEntry {
    ConnectionEntry { addr, port, state: 0x0a, inode }
}

fn v4(a: u8, b: u8, c: u8, d: u8) -> Ipv4 {
    Ipv4 { a, b, c, d }
}

#[test]
fn digits_of_both_cases() {
    assert_eq!(digit(b'0'), 0);
    assert_eq!(digit(b'9'), 9);
    assert_eq!(digit(b'a'), 10);
    assert_eq!(digit(b'F'), 15);
    assert_eq!(digit(b'g'), 255);
    assert_eq!(digit(b':'), 255);
}

#[test]
fn numbers_in_hex_and_decimal() {
    assert_eq!(parse_number(b"0CEA", 16, 0xffff), Some(3306));
    assert_eq!(parse_number(b"0100007F", 16, 0xffff_ffff), Some(0x0100_007f));
    assert_eq!(parse_number(b"12345", 10, u64::MAX), Some(12345));
    assert_eq!(parse_number(b"18446744073709551615", 10, u64::MAX), Some(u64::MAX));
}

#[test]
fn numbers_rejected() {
    assert_eq!(parse_number(b"", 10, u64::MAX), None);
    assert_eq!(parse_number(b"12a", 10, u64::MAX), None);
    assert_eq!(parse_number(b"1G", 16, u64::MAX), None);
    assert_eq!(parse_number(b"18446744073709551616", 10, u64::MAX), None);
    assert_eq!(parse_number(b"10000", 16, 0xffff), None);
    assert_eq!(parse_number(b"100", 16, 0xff), None);
}

#[test]
fn fields_collapse_blank_runs() {
    let f = split_fields(b"  a bc\t\td  ");
    assert_eq!(f, vec![b"a".to_vec(), b"bc".to_vec(), b"d".to_vec()]);
    assert!(split_fields(b"   ").is_empty());
}

#[test]
fn lines_keep_inner_empty_lines() {
    let l = split_lines(b"one\n\ntwo\n");
    assert_eq!(l, vec![b"one".to_vec(), Vec::new(), b"two".to_vec()]);
    assert_eq!(split_lines(b"tail"), vec![b"tail".to_vec()]);
    assert!(split_lines(b"").is_empty());
}

#[test]
fn loopback_word_decodes_to_loopback() {
    assert_eq!(Ipv4::from_table_word(0x0100_007f), Ipv4::loopback());
    assert_eq!(Ipv4::loopback(), v4(127, 0, 0, 1));
    assert!(Ipv4::from_table_word(0x0100_007f).is_loopback());
    assert_eq!(Ipv4::loopback().to_table_word(), 0x0100_007f);
}

#[test]
fn address_words_round_trip() {
    for ip in [v4(127, 0, 0, 1), v4(192, 168, 0, 1), v4(10, 20, 30, 40), v4(255, 0, 255, 1)] {
        assert_eq!(Ipv4::from_table_word(ip.to_table_word()), ip);
    }
    assert_eq!(Ipv4::from_table_word(0x0100_a8c0), v4(192, 168, 0, 1));
    assert!(!v4(127, 0, 0, 2).is_loopback());
}

#[test]
fn line_with_all_fields() {
    let line = row(0, "0100007F:0CEA", "0A", 4242);
    let e = parse_line(line.as_bytes()).unwrap();
    assert_eq!(e, ConnectionEntry { addr: v4(127, 0, 0, 1), port: 3306, state: 0x0a, inode: 4242 });
}

#[test]
fn malformed_lines() {
    assert_eq!(parse_line(b"   0: 0100007F:0CEA 00000000:0000 0A"), None);
    assert_eq!(parse_line(row(0, "0100007F-0CEA", "0A", 1).as_bytes()), None);
    assert_eq!(parse_line(row(0, "100007F:0CEA", "0A", 1).as_bytes()), None);
    assert_eq!(parse_line(row(0, "0100007G:0CEA", "0A", 1).as_bytes()), None);
    assert_eq!(parse_line(row(0, "0100007F:0CEA", "10A", 1).as_bytes()), None);
    assert_eq!(parse_line(b""), None);
}

#[test]
fn table_skips_header_and_reports_bad_lines() {
    let text = table(&[
        row(0, "0100007F:0CEA", "0A", 4242),
        String::from("garbage"),
        row(1, "0100A8C0:1F90", "01", 5151),
    ]);
    let rows = parse_table(&text);
    assert_eq!(rows.len(), 3);
    assert_eq!(rows[0], Ok(entry(v4(127, 0, 0, 1), 3306, 4242)));
    assert_eq!(rows[1], Err(ParseError { line: 2 }));
    assert_eq!(
        rows[2],
        Ok(ConnectionEntry { addr: v4(192, 168, 0, 1), port: 8080, state: 1, inode: 5151 })
    );
    assert!(parse_table(HEADER.as_bytes()).is_empty());
    assert!(parse_table(b"").is_empty());
}

#[test]
fn socket_links() {
    assert_eq!(parse_socket_link(b"socket:[12345]"), Some(12345));
    assert_eq!(parse_socket_link(b"socket:[0]"), Some(0));
    assert_eq!(parse_socket_link(b"pipe:[12345]"), None);
    assert_eq!(parse_socket_link(b"/dev/null"), None);
    assert_eq!(parse_socket_link(b"socket:[]"), None);
    assert_eq!(parse_socket_link(b"socket:[12x]"), None);
    assert_eq!(parse_socket_link(b"socket:[12345"), None);
}

#[test]
fn vanished_descriptors_are_skipped() {
    let links = vec![link("socket:[11]"), None, link("/dev/pts/0"), link("socket:[22]"), None];
    assert_eq!(socket_inodes(&links), vec![11, 22]);
    let without = vec![link("socket:[11]"), link("/dev/pts/0"), link("socket:[22]")];
    assert_eq!(socket_inodes(&without), socket_inodes(&links));
    assert!(socket_inodes(&vec![None, None]).is_empty());
}

#[test]
fn inode_membership() {
    let inodes = vec![3, 5, 8];
    assert!(contains_inode(&inodes, 5));
    assert!(!contains_inode(&inodes, 4));
    assert!(!contains_inode(&Vec::new(), 0));
}

#[test]
fn search_ignores_other_processes_sockets() {
    let rows = vec![Ok(entry(Ipv4::loopback(), 1111, 99)), Ok(entry(Ipv4::loopback(), 2222, 7))];
    assert_eq!(search(&vec![7], &rows), SearchOutcome::Hit(2222));
    assert_eq!(search(&vec![8], &rows), SearchOutcome::Miss);
}

#[test]
fn search_ignores_non_loopback_addresses() {
    let rows = vec![Ok(entry(v4(0, 0, 0, 0), 1111, 7)), Ok(entry(v4(192, 168, 0, 1), 2222, 7))];
    assert_eq!(search(&vec![7], &rows), SearchOutcome::Miss);
    let mut more = rows.clone();
    more.push(Ok(entry(Ipv4::loopback(), 3333, 7)));
    assert_eq!(search(&vec![7], &more), SearchOutcome::Hit(3333));
}

#[test]
fn search_never_attributes_inode_zero() {
    let rows = vec![Ok(entry(Ipv4::loopback(), 1111, 0))];
    assert_eq!(search(&vec![0], &rows), SearchOutcome::Miss);
}

#[test]
fn search_stops_at_first_bad_line_or_match() {
    let bad = Err(ParseError { line: 1 });
    let hit = Ok(entry(Ipv4::loopback(), 4444, 7));
    assert_eq!(search(&vec![7], &vec![bad, hit]), SearchOutcome::Malformed(ParseError { line: 1 }));
    assert_eq!(search(&vec![7], &vec![hit, bad]), SearchOutcome::Hit(4444));
    assert_eq!(search(&vec![7], &Vec::new()), SearchOutcome::Miss);
}

#[test]
fn step_finds_the_process_port() {
    let text = table(&[
        row(0, "0100007F:1F90", "0A", 100),
        row(1, "00000000:0050", "0A", 200),
        row(2, "0100007F:9C41", "0A", 200),
    ]);
    let links = vec![link("pipe:[5]"), link("socket:[200]"), None];
    let r = Resolver::new(42, 5000);
    assert_eq!(r.step(Some(links), Some(text), 0), Step::Found(0x9c41));
}

#[test]
fn step_unreachable_process() {
    let r = Resolver::new(4_000_000, 5000);
    assert_eq!(r.step(None, None, 0), Step::Failed(ResolveError::Unreachable(4_000_000)));
    assert_eq!(
        r.step(Some(Vec::new()), None, 0),
        Step::Failed(ResolveError::Unreachable(4_000_000))
    );
}

#[test]
fn step_malformed_table() {
    let text = table(&[String::from("0: nonsense")]);
    let r = Resolver::new(42, 5000);
    assert_eq!(
        r.step(Some(vec![link("socket:[1]")]), Some(text), 0),
        Step::Failed(ResolveError::Malformed(ParseError { line: 1 }))
    );
}

#[test]
fn step_retries_until_the_deadline() {
    let text = table(&[row(0, "0100007F:1F90", "0A", 100)]);
    let links = vec![link("socket:[300]")];
    let r = Resolver::new(42, 5000);
    assert_eq!(r.step(Some(links.clone()), Some(text.clone()), 0), Step::Retry);
    assert_eq!(r.step(Some(links.clone()), Some(text.clone()), 4999), Step::Retry);
    assert_eq!(
        r.step(Some(links.clone()), Some(text.clone()), 5000),
        Step::Failed(ResolveError::TimedOut(42))
    );
    assert_eq!(
        r.step(Some(links), Some(text), 5000 + POLL_INTERVAL_MS),
        Step::Failed(ResolveError::TimedOut(42))
    );
}

#[test]
fn builder_defaults_and_setters() {
    let b = Builder::default();
    assert_eq!(b.chromedriver, "chromedriver");
    assert_eq!(b.timeout_ms, DEFAULT_TIMEOUT_MS);
    assert_eq!(DEFAULT_TIMEOUT_MS, 30_000);
    let b = b.set_chromedriver("/opt/bin/chromedriver").set_timeout(5000);
    assert_eq!(b.chromedriver, "/opt/bin/chromedriver");
    assert_eq!(b.timeout_ms, 5000);
    assert_eq!(b.resolver(77), Resolver { pid: 77, timeout_ms: 5000 });
}
