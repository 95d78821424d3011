use frr_bootc::vty::{closed_early, find_terminator, Reception, VtyExchange, VtyResponse};

/// A daemon at the other end: it expects one command and sends its answer in
/// the given pieces.
fn execute(command: &str, expected: &str, pieces: &[&[u8]]) -> VtyResponse {
    let (mut exchange, request) = VtyExchange::begin(command);
    assert_eq!(&request[..request.len() - 1], expected.as_bytes());
    assert_eq!(request[request.len() - 1], 0);
    for piece in pieces {
        match exchange.receive(piece) {
            Reception::Done(resp) => return resp,
            Reception::More => {}
            Reception::Closed => panic!("closed"),
        }
    }
    panic!("no answer")
}

fn framed(output: &[u8], status: u8) -> Vec<u8> {
    let mut response = output.to_vec();
    response.extend_from_slice(&[0, 0, 0, status]);
    response
}

#[test]
fn parses_a_successful_response() {
    let reply = framed(b"FRR 9.0\n", 0);
    let resp = execute("show version", "show version", &[reply.as_slice()]);
    assert!(resp.success());
    assert_eq!(resp.output, "FRR 9.0\n");
}

#[test]
fn parses_a_failure_status() {
    let reply = framed(b"% Unknown command\n", 1);
    let resp = execute("bogus command", "bogus command", &[reply.as_slice()]);
    assert!(!resp.success());
    assert_eq!(resp.status, 1);
    assert_eq!(resp.output, "% Unknown command\n");
}

#[test]
fn reassembles_a_response_split_across_multiple_reads() {
    let resp = execute(
        "router bgp 65001",
        "router bgp 65001",
        &[b"router bgp 65001\n", &[0, 0, 0, 0]],
    );
    assert!(resp.success());
    assert_eq!(resp.output, "router bgp 65001\n");
}

#[test]
fn empty_output_still_parses() {
    let reply = framed(b"", 0);
    let resp = execute("end", "end", &[reply.as_slice()]);
    assert!(resp.success());
    assert_eq!(resp.output, "");
}

#[test]
fn a_response_may_come_byte_by_byte() {
    let reply = framed(b"ok\n", 7);
    let (mut exchange, _) = VtyExchange::begin("x");
    for (i, byte) in reply.iter().enumerate() {
        match exchange.receive(&[*byte]) {
            Reception::Done(resp) => {
                assert_eq!(i, reply.len() - 1);
                assert_eq!(resp.output, "ok\n");
                assert_eq!(resp.status, 7);
                return;
            }
            Reception::More => assert!(i < reply.len() - 1),
            Reception::Closed => panic!("closed"),
        }
    }
    panic!("no answer");
}

#[test]
fn what_comes_after_the_terminator_is_ignored() {
    let resp = execute("x", "x", &[b"a\0\0\0\x02b\0\0\0\x00"]);
    assert_eq!(resp.output, "a");
    assert_eq!(resp.status, 2);
}

#[test]
fn a_closed_socket_is_told() {
    let (mut exchange, _) = VtyExchange::begin("x");
    assert!(matches!(exchange.receive(b"a\0\0\0"), Reception::More));
    assert!(matches!(exchange.receive(b""), Reception::Closed));
    assert_eq!(
        closed_early(),
        "vty socket closed before sending a response terminator"
    );
}

#[test]
fn the_terminator_is_the_first_one_with_a_status() {
    assert_eq!(find_terminator(&vec![]), None);
    assert_eq!(find_terminator(&vec![0, 0, 0]), None);
    assert_eq!(find_terminator(&vec![0, 0, 0, 0]), Some(0));
    assert_eq!(find_terminator(&vec![65, 0, 0, 66, 0, 0, 0, 1]), Some(4));
    assert_eq!(find_terminator(&vec![65, 0, 0, 0]), None);
}

#[test]
fn output_that_is_not_utf8_is_replaced() {
    let resp = execute("x", "x", &[b"a\xff\0\0\0\x00"]);
    assert_eq!(resp.output, "a\u{fffd}");
}
