//! FRR's vty protocol, as spoken on a daemon's `/var/run/frr/<daemon>.vty`
//! socket:
//!
//! - a request is the bytes of the command, followed by one zero byte;
//! - a reply is text, followed by three zero bytes and one status byte, which
//!   is zero on success. The text ends right before the three zero bytes.

use vstd::prelude::*;
use vstd::utf8::{decode_utf8, encode_utf8, valid_utf8};
use crate::outside::{from_utf8_lossy, utf8_lossy};

verus! {

/// A daemon's answer to one command.
pub struct VtyResponse {
    pub output: String,
    pub status: u8,
}

impl VtyResponse {
    /// Whether the daemon accepted the command.
    pub fn success(&self) -> (r: bool)
        ensures
            r == (self.status == 0),
    {
        self.status == 0
    }
}

/// The bytes that ask a daemon to execute `command`.
pub open spec fn request_of(command: Seq<char>) -> Seq<u8> {
    encode_utf8(command).push(0)
}

/// Three zero bytes stand at `i`.
pub open spec fn zeros_at(buf: Seq<u8>, i: int) -> bool {
    0 <= i && i + 3 <= buf.len() && buf[i] == 0 && buf[i + 1] == 0 && buf[i + 2] == 0
}

/// The first position from `from` on where three zero bytes stand.
pub open spec fn first_zeros(buf: Seq<u8>, from: int) -> Option<int>
    decreases buf.len() - from,
{
    if from + 3 > buf.len() {
        None
    } else if zeros_at(buf, from) {
        Some(from)
    } else {
        first_zeros(buf, from + 1)
    }
}

/// Where the terminator starts: at the first three zero bytes, once the
/// status byte after them is there too.
pub open spec fn terminator(buf: Seq<u8>) -> Option<int> {
    match first_zeros(buf, 0) {
        Some(p) => if p + 3 < buf.len() {
            Some(p)
        } else {
            None
        },
        None => None,
    }
}

/// The first three zero bytes stand at `p` when they stand there and nowhere
/// before.
proof fn lemma_first_zeros_is(buf: Seq<u8>, from: int, p: int)
    requires
        0 <= from <= p,
        zeros_at(buf, p),
        forall|i: int| from <= i < p ==> !(#[trigger] zeros_at(buf, i)),
    ensures
        first_zeros(buf, from) == Some(p),
    decreases p - from,
{
    if from < p {
        assert(!zeros_at(buf, from));
        lemma_first_zeros_is(buf, from + 1, p);
    }
}

/// There are no first three zero bytes when there are none at all.
proof fn lemma_no_zeros(buf: Seq<u8>, from: int)
    requires
        0 <= from,
        forall|i: int| from <= i ==> !(#[trigger] zeros_at(buf, i)),
    ensures
        first_zeros(buf, from) is None,
    decreases buf.len() - from,
{
    if from + 3 <= buf.len() {
        assert(!zeros_at(buf, from));
        lemma_no_zeros(buf, from + 1);
    }
}

/// The defining properties of the first three zero bytes.
proof fn lemma_first_zeros_props(buf: Seq<u8>, from: int)
    requires
        0 <= from,
    ensures
        first_zeros(buf, from) matches Some(p) ==> from <= p && zeros_at(buf, p) && forall|i: int|
            from <= i < p ==> !(#[trigger] zeros_at(buf, i)),
        first_zeros(buf, from) is None ==> forall|i: int|
            from <= i ==> !(#[trigger] zeros_at(buf, i)),
    decreases buf.len() - from,
{
    if from + 3 <= buf.len() && !zeros_at(buf, from) {
        lemma_first_zeros_props(buf, from + 1);
    }
}

/// Finds where the terminator of a reply starts, if all of it has arrived.
pub fn find_terminator(buf: &Vec<u8>) -> (r: Option<usize>)
    ensures
        r matches Some(p) ==> terminator(buf@) == Some(p as int) && p + 3 < buf.len(),
        r is None ==> terminator(buf@) is None,
{
    if buf.len() < 4 {
        proof {
            lemma_first_zeros_props(buf@, 0);
        }
        return None;
    }
    let mut i: usize = 0;
    while i <= buf.len() - 3
        invariant
            4 <= buf.len(),
            i <= buf.len() - 2,
            forall|j: int| 0 <= j < i ==> !(#[trigger] zeros_at(buf@, j)),
        decreases buf.len() - i,
    {
        if buf[i] == 0 && buf[i + 1] == 0 && buf[i + 2] == 0 {
            proof {
                lemma_first_zeros_is(buf@, 0, i as int);
            }
            return if i + 3 < buf.len() {
                Some(i)
            } else {
                None
            };
        }
        i += 1;
    }
    proof {
        lemma_no_zeros(buf@, 0);
    }
    None
}

/// What a reply buffer amounts to.
pub open spec fn answers(buf: Seq<u8>, r: Option<VtyResponse>) -> bool {
    match terminator(buf) {
        None => r is None,
        Some(p) => r matches Some(resp) && resp.status == buf[p + 3] && resp.output@ == utf8_lossy(
            buf.take(p),
        ) && (valid_utf8(buf.take(p)) ==> resp.output@ == decode_utf8(buf.take(p))),
    }
}

/// The answer that a buffer holds, if all of it has arrived.
fn response(buf: &Vec<u8>) -> (r: Option<VtyResponse>)
    ensures
        answers(buf@, r),
{
    match find_terminator(buf) {
        None => None,
        Some(p) => {
            let text: &[u8] = &buf.as_slice()[0..p];
            proof {
                assert(text@ =~= buf@.take(p as int));
            }
            Some(VtyResponse { output: from_utf8_lossy(text), status: buf[p + 3] })
        },
    }
}

/// What a read from the socket leads to.
pub enum Reception {
    /// The answer is complete.
    Done(VtyResponse),
    /// Some of the answer is still missing.
    More,
    /// The socket was closed before the terminator came.
    Closed,
}

/// One command on its way: what has arrived of the reply so far.
pub struct VtyExchange {
    received: Vec<u8>,
}

impl View for VtyExchange {
    type V = Seq<u8>;

    closed spec fn view(&self) -> Seq<u8> {
        self.received@
    }
}

impl VtyExchange {
    /// Starts an exchange: the bytes to send, and nothing received yet.
    pub fn begin(command: &str) -> (r: (VtyExchange, Vec<u8>))
        ensures
            r.0@ == Seq::<u8>::empty(),
            r.1@ == request_of(command@),
    {
        let mut request = command.as_bytes_vec();
        request.push(0);
        (VtyExchange { received: Vec::new() }, request)
    }

    /// Takes in what one read from the socket gave; no bytes at all mean that
    /// the socket was closed.
    pub fn receive(&mut self, chunk: &[u8]) -> (r: Reception)
        ensures
            final(self)@ == old(self)@ + chunk@,
            match r {
                Reception::Closed => chunk@.len() == 0,
                Reception::More => chunk@.len() > 0 && terminator(final(self)@) is None,
                Reception::Done(resp) => chunk@.len() > 0 && terminator(final(self)@) is Some
                    && answers(final(self)@, Some(resp)),
            },
    {
        if chunk.len() == 0 {
            proof {
                assert(old(self)@ + chunk@ =~= old(self)@);
            }
            return Reception::Closed;
        }
        let ghost before = self.received@;
        let mut i: usize = 0;
        while i < chunk.len()
            invariant
                i <= chunk.len(),
                self.received@ == before + chunk@.take(i as int),
            decreases chunk.len() - i,
        {
            self.received.push(chunk[i]);
            proof {
                assert(before + chunk@.take(i + 1) =~= (before + chunk@.take(i as int)).push(
                    chunk@[i as int],
                ));
            }
            i += 1;
        }
        proof {
            assert(chunk@.take(i as int) =~= chunk@);
        }
        match response(&self.received) {
            Some(resp) => Reception::Done(resp),
            None => Reception::More,
        }
    }
}

/// The error of an exchange whose socket was closed too early.
pub fn closed_early() -> (r: &'static str)
    ensures
        r@ == "vty socket closed before sending a response terminator"@,
{
    "vty socket closed before sending a response terminator"
}

// ---------------------------------------------------------------------------
// Laws
// ---------------------------------------------------------------------------

/// A reply as a daemon sends it.
pub open spec fn reply_of(output: Seq<u8>, status: u8) -> Seq<u8> {
    output + seq![0u8, 0u8, 0u8, status]
}

/// An output whose end the terminator marks without doubt: no three zero
/// bytes in it, and none at its end.
pub open spec fn plain_output(output: Seq<u8>) -> bool {
    &&& forall|i: int| !(#[trigger] zeros_at(output, i))
    &&& output.len() > 0 ==> output.last() != 0
}

/// Reading a reply gives back the output and the status that were sent.
pub proof fn law_reply_is_read_back(output: Seq<u8>, status: u8)
    requires
        plain_output(output),
    ensures
        terminator(reply_of(output, status)) == Some(output.len() as int),
        reply_of(output, status).take(output.len() as int) == output,
        reply_of(output, status)[output.len() as int + 3] == status,
{
    let r = reply_of(output, status);
    let n = output.len() as int;
    assert(zeros_at(r, n));
    assert forall|i: int| 0 <= i < n implies !(#[trigger] zeros_at(r, i)) by {
        if zeros_at(r, i) {
            if i + 3 <= n {
                assert(zeros_at(output, i));
            } else {
                assert(r[n - 1] == output.last());
            }
        }
    }
    lemma_first_zeros_is(r, 0, n);
    assert(r.take(n) =~= output);
}

/// Once a terminator is there, nothing that arrives later changes where it
/// stands, what was read or the status.
pub proof fn law_answer_stands(buf: Seq<u8>, later: Seq<u8>)
    requires
        terminator(buf) is Some,
    ensures
        terminator(buf + later) == terminator(buf),
        (buf + later).take(terminator(buf).unwrap()) == buf.take(terminator(buf).unwrap()),
        (buf + later)[terminator(buf).unwrap() + 3] == buf[terminator(buf).unwrap() + 3],
{
    let p = terminator(buf).unwrap();
    let all = buf + later;
    lemma_first_zeros_props(buf, 0);
    assert(zeros_at(all, p));
    assert forall|i: int| 0 <= i < p implies !(#[trigger] zeros_at(all, i)) by {
        assert(!zeros_at(buf, i));
    }
    lemma_first_zeros_is(all, 0, p);
    assert(all.take(p) =~= buf.take(p));
}

/// However a reply is split over reads, the answer is complete with its last
/// byte and not before.
pub proof fn law_split_reply_is_reassembled(output: Seq<u8>, status: u8, n: int)
    requires
        plain_output(output),
        0 <= n < reply_of(output, status).len(),
    ensures
        terminator(reply_of(output, status).take(n)) is None,
{
    let r = reply_of(output, status);
    law_reply_is_read_back(output, status);
    if terminator(r.take(n)) is Some {
        assert(r.take(n) + r.skip(n) =~= r);
        law_answer_stands(r.take(n), r.skip(n));
    }
}

/// A request is the command and one zero byte at its end.
pub proof fn law_request_carries_the_command(command: Seq<char>)
    ensures
        request_of(command).len() > 0,
        request_of(command).last() == 0,
        valid_utf8(request_of(command).drop_last()),
        decode_utf8(request_of(command).drop_last()) == command,
{
    vstd::utf8::encode_utf8_valid_utf8(command);
    vstd::utf8::encode_utf8_decode_utf8(command);
    assert(request_of(command).drop_last() =~= encode_utf8(command));
}

/// The text and the status that a daemon sends are the output and the status
/// of the answer, whatever comes after them.
pub proof fn law_answer_is_what_was_sent(
    text: Seq<char>,
    status: u8,
    later: Seq<u8>,
    resp: VtyResponse,
)
    requires
        plain_output(encode_utf8(text)),
        answers(reply_of(encode_utf8(text), status) + later, Some(resp)),
    ensures
        resp.output@ == text,
        resp.status == status,
{
    let output = encode_utf8(text);
    vstd::utf8::encode_utf8_valid_utf8(text);
    vstd::utf8::encode_utf8_decode_utf8(text);
    law_reply_is_read_back(output, status);
    law_answer_stands(reply_of(output, status), later);
}

/// An answer is there as soon as the terminator and the status are, and not
/// before.
pub proof fn law_answer_needs_a_terminator(buf: Seq<u8>, resp: VtyResponse)
    requires
        answers(buf, Some(resp)),
    ensures
        exists|p: int|
            #![trigger buf[p]]
            0 <= p && p + 3 < buf.len() && buf[p] == 0 && buf[p + 1] == 0 && buf[p + 2] == 0 && buf[p
                + 3] == resp.status,
{
    lemma_first_zeros_props(buf, 0);
    let p = terminator(buf).unwrap();
    assert(zeros_at(buf, p));
    assert(buf[p] == 0);
}

} // verus!
