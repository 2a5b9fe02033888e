use port_sweeper::discovery::{parse_lsof, parse_netstat};

const SOCKET_TABLE: &str = "\r
Active Connections\r
\r
  Proto  Local Address          Foreign Address        State           PID\r
  TCP    0.0.0.0:135            0.0.0.0:0              LISTENING       1040\r
  TCP    0.0.0.0:3000           0.0.0.0:0              LISTENING       4321\r
  TCP    127.0.0.1:3000         127.0.0.1:51234        ESTABLISHED     777\r
  TCP    127.0.0.1:51234        127.0.0.1:3000         ESTABLISHED     888\r
  TCP    192.168.1.5:51300      93.184.216.34:443      TIME_WAIT       0\r
  TCP    [::]:3000              [::]:0                 LISTENING       4321\r
  TCP    [::1]:3000             [::]:0                 listening       9876\r
  TCP    0.0.0.0:8080           0.0.0.0:0              LISTENING       5555\r
  TCP    0.0.0.0:3000           0.0.0.0:0              LISTENING\r
  UDP    0.0.0.0:3000           *:*                                    6666\r
";

fn strings(items: &[&str]) -> Vec<String> {
    items.iter().map(|s| s.to_string()).collect()
}

#[test]
fn listening_rows_on_the_port_give_their_identifiers_once() {
    assert_eq!(parse_netstat(SOCKET_TABLE, 3000), strings(&["4321", "9876"]));
}

#[test]
fn rows_of_other_ports_and_other_states_are_left_out() {
    assert_eq!(parse_netstat(SOCKET_TABLE, 135), strings(&["1040"]));
    assert_eq!(parse_netstat(SOCKET_TABLE, 8080), strings(&["5555"]));
    assert_eq!(parse_netstat(SOCKET_TABLE, 51234), strings(&[]));
    assert_eq!(parse_netstat(SOCKET_TABLE, 443), strings(&[]));
    assert_eq!(parse_netstat(SOCKET_TABLE, 1), strings(&[]));
}

#[test]
fn identifiers_come_in_the_order_of_their_first_rows() {
    let table = "TCP 0.0.0.0:80 0.0.0.0:0 LISTENING 30\n\
                 TCP 0.0.0.0:80 0.0.0.0:0 LISTENING 10\n\
                 TCP [::]:80 [::]:0 LISTENING 30\n\
                 TCP [::]:80 [::]:0 LISTENING 20\n\
                 TCP [::1]:80 [::]:0 LISTENING 10";
    assert_eq!(parse_netstat(table, 80), strings(&["30", "10", "20"]));
}

#[test]
fn a_row_needs_five_fields_and_more_are_ignored() {
    assert_eq!(parse_netstat("TCP 0.0.0.0:80 0.0.0.0:0 LISTENING", 80), strings(&[]));
    assert_eq!(parse_netstat("TCP 0.0.0.0:80 0.0.0.0:0 LISTENING 12", 80), strings(&["12"]));
    assert_eq!(
        parse_netstat("TCP 0.0.0.0:80 0.0.0.0:0 LISTENING 12 InHost extra", 80),
        strings(&["12"])
    );
    assert_eq!(parse_netstat("", 80), strings(&[]));
    assert_eq!(parse_netstat("\n\n  \n", 80), strings(&[]));
}

#[test]
fn the_state_is_matched_whole_in_any_ascii_case() {
    assert_eq!(parse_netstat("TCP a:80 b LiStEnInG 1", 80), strings(&["1"]));
    assert_eq!(parse_netstat("TCP a:80 b LISTEN 1", 80), strings(&[]));
    assert_eq!(parse_netstat("TCP a:80 b LISTENING! 1", 80), strings(&[]));
}

#[test]
fn a_port_is_matched_whole_at_the_end_of_the_local_address() {
    assert_eq!(parse_netstat("TCP 0.0.0.0:8080 0.0.0.0:0 LISTENING 7", 8080), strings(&["7"]));
    assert_eq!(parse_netstat("TCP 0.0.0.0:8080 0.0.0.0:0 LISTENING 7", 80), strings(&[]));
    assert_eq!(parse_netstat("TCP 0.0.0.0:8080 0.0.0.0:0 LISTENING 7", 808), strings(&[]));
    assert_eq!(parse_netstat("TCP 0.0.0.0:8080 0.0.0.0:0 LISTENING 7", 8), strings(&[]));
    assert_eq!(parse_netstat("TCP 0.0.0.0:8080 0.0.0.0:0 LISTENING 7", 0), strings(&[]));
    assert_eq!(parse_netstat("TCP 0.0.0.0:8080 0.0.0.0:0 LISTENING 7", 8081), strings(&[]));
    assert_eq!(parse_netstat("TCP 0.0.0.0:8080 0.0.0.0:0 LISTENING 7", 18080), strings(&[]));
    assert_eq!(parse_netstat("TCP 0.0.0.0:80 0.0.0.0:8080 LISTENING 7", 8080), strings(&[]));
    assert_eq!(parse_netstat("TCP [::1]:80 [::]:0 LISTENING 7", 1), strings(&[]));
    assert_eq!(parse_netstat("TCP [::1]:80 [::]:0 LISTENING 7", 80), strings(&["7"]));
    assert_eq!(parse_netstat("TCP [fe80::1%12]:80 [::]:0 LISTENING 7", 80), strings(&["7"]));
    assert_eq!(parse_netstat("TCP 0.0.0.0:0 0.0.0.0:0 LISTENING 7", 0), strings(&["7"]));
    assert_eq!(parse_netstat("TCP 0.0.0.0:65535 0.0.0.0:0 LISTENING 7", 65535), strings(&["7"]));
    assert_eq!(parse_netstat("TCP :80 x LISTENING 7", 80), strings(&["7"]));
    assert_eq!(parse_netstat("TCP 80 x LISTENING 7", 80), strings(&[]));
}

#[test]
fn an_identifier_list_gives_each_identifier_once() {
    assert_eq!(parse_lsof("4321\n"), strings(&["4321"]));
    assert_eq!(parse_lsof("4321\n77\n4321\n"), strings(&["4321", "77"]));
    assert_eq!(parse_lsof("  4321 \r\n\n\t77"), strings(&["4321", "77"]));
    assert_eq!(parse_lsof(""), strings(&[]));
    assert_eq!(parse_lsof("\n \n\t\n"), strings(&[]));
}

#[test]
fn a_row_of_an_identifier_list_is_taken_whole() {
    assert_eq!(parse_lsof("12 34\n"), strings(&["12 34"]));
    assert_eq!(parse_lsof("p4321\nabc"), strings(&["p4321", "abc"]));
}

#[test]
fn output_in_another_script_is_read_by_characters() {
    let table = "  协议  本地地址          外部地址        状态           PID\n  \
                 TCP    0.0.0.0:3000     0.0.0.0:0       LISTENING      4321\n  \
                 TCP\u{3000}0.0.0.0:3000\u{a0}0.0.0.0:0\u{2003}LISTENING\u{3000}99\n  \
                 \u{fffd}\u{fffd} 0.0.0.0:3000 x LISTENING 进程";
    assert_eq!(parse_netstat(table, 3000), strings(&["4321", "99", "进程"]));
}

/// A small generator of numbers, the same on every run.
struct Numbers(u64);

impl Numbers {
    fn next(&mut self, below: usize) -> usize {
        self.0 = self.0.wrapping_mul(6364136223846793005).wrapping_add(1442695040888963407);
        ((self.0 >> 33) as usize) % below
    }
}

const PIECES: [&str; 24] = [
    " ", "  ", "\t", "\n", "\r\n", "\r", "\u{a0}", "\u{3000}", "\n\n", "TCP", "UDP", "LISTENING",
    "listening", "Listening", "ESTABLISHED", "0.0.0.0:80", "[::]:80", "[::1]:8080", "127.0.0.1:8",
    "0.0.0.0:0", "4321", "77", "4321", "x",
];

fn some_output(numbers: &mut Numbers) -> String {
    let mut output = String::new();
    for _ in 0..numbers.next(40) {
        output.push_str(PIECES[numbers.next(PIECES.len())]);
        if numbers.next(3) > 0 {
            output.push(' ');
        }
    }
    output
}

const GAPS: [&str; 6] = [" ", "   ", "\t", " \u{a0}", "\u{3000}", " \r"];
const ADDRESSES: [&str; 8] = [
    "0.0.0.0:80", "[::]:80", "[::1]:8080", "127.0.0.1:8", "0.0.0.0:0", "10.0.0.1:180", ":80", "80",
];
const STATES: [&str; 6] = ["LISTENING", "listening", "Listening", "ESTABLISHED", "LISTEN", ""];
const OWNERS: [&str; 5] = ["4321", "77", "4", "0", "4321 extra"];

fn some_table(numbers: &mut Numbers) -> String {
    let mut table = String::new();
    for _ in 0..numbers.next(12) {
        table.push_str(GAPS[numbers.next(GAPS.len())]);
        table.push_str("TCP");
        table.push_str(GAPS[numbers.next(GAPS.len())]);
        table.push_str(ADDRESSES[numbers.next(ADDRESSES.len())]);
        table.push_str(GAPS[numbers.next(GAPS.len())]);
        table.push_str(ADDRESSES[numbers.next(ADDRESSES.len())]);
        table.push_str(GAPS[numbers.next(GAPS.len())]);
        table.push_str(STATES[numbers.next(STATES.len())]);
        table.push_str(GAPS[numbers.next(GAPS.len())]);
        table.push_str(OWNERS[numbers.next(OWNERS.len())]);
        table.push_str(["\n", "\r\n", " \n", "\n\n"][numbers.next(4)]);
    }
    table
}

fn socket_table_by_standard_functions(output: &str, port: u16) -> Vec<String> {
    let mark = format!(":{}", port);
    let mut ids: Vec<String> = Vec::new();
    for line in output.lines() {
        let columns: Vec<&str> = line.split_whitespace().collect();
        if columns.len() >= 5
            && columns[3].eq_ignore_ascii_case("LISTENING")
            && columns[1].ends_with(&mark)
            && !ids.iter().any(|id| id == columns[4])
        {
            ids.push(columns[4].to_string());
        }
    }
    ids
}

fn identifier_list_by_standard_functions(output: &str) -> Vec<String> {
    let mut ids: Vec<String> = Vec::new();
    for id in output.lines().map(str::trim).filter(|id| !id.is_empty()) {
        if !ids.iter().any(|known| known == id) {
            ids.push(id.to_string());
        }
    }
    ids
}

#[test]
fn socket_tables_are_read_as_with_the_standard_functions() {
    let mut numbers = Numbers(1);
    let mut taken = 0;
    for round in 0..6000 {
        let output =
            if round % 2 == 0 { some_output(&mut numbers) } else { some_table(&mut numbers) };
        for port in [80u16, 8, 8080, 0] {
            let ids = parse_netstat(&output, port);
            assert_eq!(
                ids,
                socket_table_by_standard_functions(&output, port),
                "output {:?}, port {}",
                output,
                port
            );
            taken += ids.len();
        }
    }
    assert!(taken > 1000);
    for port in [3000u16, 135, 8080, 1, 443] {
        assert_eq!(
            parse_netstat(SOCKET_TABLE, port),
            socket_table_by_standard_functions(SOCKET_TABLE, port)
        );
    }
}

#[test]
fn identifier_lists_are_read_as_with_the_standard_functions() {
    let mut numbers = Numbers(2);
    let mut taken = 0;
    for round in 0..6000 {
        let output =
            if round % 2 == 0 { some_output(&mut numbers) } else { some_table(&mut numbers) };
        let ids = parse_lsof(&output);
        assert_eq!(ids, identifier_list_by_standard_functions(&output), "output {:?}", output);
        taken += ids.len();
    }
    assert!(taken > 1000);
}

#[test]
fn no_identifier_is_taken_twice_and_none_is_empty() {
    let mut numbers = Numbers(3);
    for round in 0..2000 {
        let output =
            if round % 2 == 0 { some_output(&mut numbers) } else { some_table(&mut numbers) };
        for ids in [parse_netstat(&output, 80), parse_lsof(&output)] {
            for (k, id) in ids.iter().enumerate() {
                assert!(!id.is_empty());
                assert!(!ids[..k].contains(id), "output {:?}", output);
            }
        }
    }
}
