//! Network interfaces and their throughput.
//!
//! State and addresses come from `ip -brief addr show`. Throughput needs a
//! difference between two samples of an interface's byte counters, so the
//! sampler keeps the last sample of each interface.

use vstd::prelude::*;
use crate::double::{
    divide, integer_double, law_nearest_double_is_near, law_nearest_integer_is_near,
    law_rounding_keeps_integers, law_seconds_are_near, law_small_integers_are_doubles,
    law_whole_seconds_are_exact, nearest_double, nearest_integer, round_quotient, seconds,
    seconds_double, to_double,
};
use crate::text::{
    all_white, cat, decimal, join_of, law_white_space_in_front_is_no_word,
    law_words_stand_between_white_space, lemma_texts_push, lines, lines_of, none_white, number,
    parse_u64, parsed_u64, same, tenths, tenths_text, texts, trim, trim_of, words, words_of,
};

verus! {

/// One interface of the dashboard.
pub struct Interface {
    pub name: String,
    pub up: bool,
    pub addrs: Vec<String>,
    /// Bytes per second received and sent; there is none until a second
    /// sample has been taken of the interface.
    pub rate: Option<(u64, u64)>,
}

/// An interface as a mathematical value.
pub struct InterfaceView {
    pub name: Seq<char>,
    pub up: bool,
    pub addrs: Seq<Seq<char>>,
    pub rate: Option<(u64, u64)>,
}

impl View for Interface {
    type V = InterfaceView;

    open spec fn view(&self) -> InterfaceView {
        InterfaceView {
            name: self.name@,
            up: self.up,
            addrs: texts(self.addrs@),
            rate: self.rate,
        }
    }
}

/// Interfaces as mathematical values.
pub open spec fn interface_views(v: Seq<Interface>) -> Seq<InterfaceView> {
    Seq::new(v.len(), |i: int| v[i]@)
}

/// The byte counters of an interface at a moment, in nanoseconds of a clock
/// that never goes back.
#[derive(Clone, Copy)]
pub struct Sample {
    pub rx: u64,
    pub tx: u64,
    pub at: u64,
}

/// `a - b`, but not below zero.
pub open spec fn less(a: u64, b: u64) -> nat {
    if a > b {
        (a - b) as nat
    } else {
        0
    }
}

/// Bytes per second: the double nearest to the quotient of the doubles
/// nearest to the number of bytes and to the seconds, without its fraction.
pub open spec fn bytes_per_second(bytes: nat, nanos: nat) -> u64 {
    let secs = seconds_double(nanos);
    let q = nearest_double(integer_double(bytes) * secs.1, secs.0);
    let n = q.0 / q.1;
    if n > u64::MAX {
        u64::MAX
    } else {
        n as u64
    }
}

/// The throughput between two samples. There is none when they are less than
/// a second apart: the rate would be wildly inflated.
pub open spec fn rate_between(prev: Sample, now: Sample) -> Option<(u64, u64)> {
    let nanos = less(now.at, prev.at);
    if nanos < 1_000_000_000 {
        None
    } else {
        Some(
            (
                bytes_per_second(less(now.rx, prev.rx), nanos),
                bytes_per_second(less(now.tx, prev.tx), nanos),
            ),
        )
    }
}

fn per_second(bytes: u64, nanos: u64) -> (r: u64)
    requires
        nanos >= 1_000_000_000,
    ensures
        r == bytes_per_second(bytes as nat, nanos as nat),
{
    let (num, den) = seconds(nanos);
    let d = to_double(bytes as u128);
    proof {
        assert(d * den <= 0x2_0000_0000_0000_0000 * 0x10_0000_0000_0000) by (nonlinear_arith)
            requires
                d <= 0x2_0000_0000_0000_0000,
                den <= 0x10_0000_0000_0000,
        ;
    }
    let q = divide(d * den, num);
    let n: u128 = q.0 / q.1;
    if n > 0xffff_ffff_ffff_ffff {
        0xffff_ffff_ffff_ffff
    } else {
        n as u64
    }
}

fn rate(prev: Sample, now: Sample) -> (r: Option<(u64, u64)>)
    ensures
        r == rate_between(prev, now),
{
    let nanos: u64 = now.at.saturating_sub(prev.at);
    if nanos < 1_000_000_000 {
        None
    } else {
        Some(
            (
                per_second(now.rx.saturating_sub(prev.rx), nanos),
                per_second(now.tx.saturating_sub(prev.tx), nanos),
            ),
        )
    }
}

/// The first entry under a name.
spec fn find(v: Seq<(String, Sample)>, name: Seq<char>) -> Option<Sample>
    decreases v.len(),
{
    if v.len() == 0 {
        None
    } else if v[0].0@ == name {
        Some(v[0].1)
    } else {
        find(v.drop_first(), name)
    }
}

proof fn lemma_find_at(v: Seq<(String, Sample)>, name: Seq<char>, i: int)
    requires
        0 <= i < v.len(),
        v[i].0@ == name,
        forall|j: int| 0 <= j < i ==> (#[trigger] v[j]).0@ != name,
    ensures
        find(v, name) == Some(v[i].1),
    decreases i,
{
    if i > 0 {
        assert(v[0].0@ != name);
        let t = v.drop_first();
        assert forall|j: int| 0 <= j < i - 1 implies (#[trigger] t[j]).0@ != name by {
            assert(t[j] == v[j + 1]);
        }
        lemma_find_at(t, name, i - 1);
    }
}

proof fn lemma_find_none(v: Seq<(String, Sample)>, name: Seq<char>)
    requires
        forall|j: int| 0 <= j < v.len() ==> (#[trigger] v[j]).0@ != name,
    ensures
        find(v, name) is None,
    decreases v.len(),
{
    if v.len() > 0 {
        assert(v[0].0@ != name);
        let t = v.drop_first();
        assert forall|j: int| 0 <= j < t.len() implies (#[trigger] t[j]).0@ != name by {
            assert(t[j] == v[j + 1]);
        }
        lemma_find_none(t, name);
    }
}

/// Replacing an entry, under the same name, leaves the other names alone.
proof fn lemma_find_update(v: Seq<(String, Sample)>, i: int, e: (String, Sample), name: Seq<char>)
    requires
        0 <= i < v.len(),
        v[i].0@ == e.0@,
        e.0@ != name,
    ensures
        find(v.update(i, e), name) == find(v, name),
    decreases v.len(),
{
    let w = v.update(i, e);
    if i > 0 {
        assert(w.drop_first() =~= v.drop_first().update(i - 1, e));
        lemma_find_update(v.drop_first(), i - 1, e, name);
    } else {
        assert(w.drop_first() =~= v.drop_first());
    }
}

/// Adding an entry at the end leaves the other names alone.
proof fn lemma_find_push(v: Seq<(String, Sample)>, e: (String, Sample), name: Seq<char>)
    requires
        e.0@ != name,
    ensures
        find(v.push(e), name) == find(v, name),
    decreases v.len(),
{
    if v.len() > 0 {
        assert(v.push(e).drop_first() =~= v.drop_first().push(e));
        lemma_find_push(v.drop_first(), e, name);
    } else {
        assert(v.push(e).drop_first() =~= v);
    }
}

/// Keeps the last sample of each interface.
pub struct ThroughputSampler {
    prev: Vec<(String, Sample)>,
}

impl View for ThroughputSampler {
    type V = Map<Seq<char>, Sample>;

    closed spec fn view(&self) -> Map<Seq<char>, Sample> {
        Map::new(
            |name: Seq<char>| find(self.prev@, name) is Some,
            |name: Seq<char>| find(self.prev@, name).unwrap(),
        )
    }
}

/// The last samples after one more reading; an interface whose counters could
/// not be read keeps its last sample.
pub open spec fn remembered(
    prev: Map<Seq<char>, Sample>,
    name: Seq<char>,
    now: Option<Sample>,
) -> Map<Seq<char>, Sample> {
    match now {
        Some(s) => prev.insert(name, s),
        None => prev,
    }
}

/// The throughput that one more reading gives.
pub open spec fn sampled(
    prev: Map<Seq<char>, Sample>,
    name: Seq<char>,
    now: Option<Sample>,
) -> Option<(u64, u64)> {
    match now {
        Some(s) => if prev.dom().contains(name) {
            rate_between(prev[name], s)
        } else {
            None
        },
        None => None,
    }
}

/// An interface as one line of `ip -brief addr show` gives it.
pub struct Listed {
    pub name: Seq<char>,
    pub up: bool,
    pub addrs: Seq<Seq<char>>,
}

/// Whether a line names an interface that is listed: any but the loopback.
pub open spec fn names_interface(line: Seq<char>) -> bool {
    words_of(line).len() > 0 && words_of(line)[0] != "lo"@
}

/// The interface that a line describes: its name, its state and its
/// addresses, as words.
pub open spec fn described(line: Seq<char>) -> Listed {
    let w = words_of(line);
    Listed {
        name: w[0],
        up: w.len() > 1 && w[1] == "UP"@,
        addrs: if w.len() > 2 {
            w.skip(2)
        } else {
            seq![]
        },
    }
}

/// The interfaces that some lines describe, in their order.
pub open spec fn listed(lines: Seq<Seq<char>>) -> Seq<Listed>
    decreases lines.len(),
{
    if lines.len() == 0 {
        seq![]
    } else if names_interface(lines.last()) {
        listed(lines.drop_last()).push(described(lines.last()))
    } else {
        listed(lines.drop_last())
    }
}

/// The last samples after the first `n` interfaces have been sampled.
pub open spec fn remembered_after(
    prev: Map<Seq<char>, Sample>,
    l: Seq<Listed>,
    now: Seq<Option<Sample>>,
    n: nat,
) -> Map<Seq<char>, Sample>
    decreases n,
{
    if n == 0 {
        prev
    } else {
        remembered(
            remembered_after(prev, l, now, (n - 1) as nat),
            l[n - 1].name,
            now[n - 1],
        )
    }
}

/// The interfaces with their throughput, each sampled in turn.
pub open spec fn interfaces_after(
    prev: Map<Seq<char>, Sample>,
    l: Seq<Listed>,
    now: Seq<Option<Sample>>,
) -> Seq<InterfaceView> {
    Seq::new(
        l.len(),
        |i: int|
            InterfaceView {
                name: l[i].name,
                up: l[i].up,
                addrs: l[i].addrs,
                rate: sampled(remembered_after(prev, l, now, i as nat), l[i].name, now[i]),
            },
    )
}

proof fn lemma_listed_len(lines: Seq<Seq<char>>, n: int)
    requires
        0 <= n <= lines.len(),
    ensures
        listed(lines.take(n)).len() <= listed(lines).len(),
        listed(lines.take(n)) == listed(lines).take(listed(lines.take(n)).len() as int),
    decreases lines.len() - n,
{
    if n < lines.len() {
        let t = lines.take(n + 1);
        lemma_listed_len(lines, n + 1);
        assert(t.drop_last() =~= lines.take(n));
        assert(listed(lines.take(n)) =~= listed(lines).take(listed(lines.take(n)).len() as int));
    } else {
        assert(lines.take(n) =~= lines);
        assert(listed(lines).take(listed(lines).len() as int) =~= listed(lines));
    }
}

impl ThroughputSampler {
    /// A sampler that has seen no interface yet.
    pub fn new() -> (r: Self)
        ensures
            r@ == Map::<Seq<char>, Sample>::empty(),
    {
        let r = ThroughputSampler { prev: Vec::new() };
        proof {
            assert(r@ =~= Map::<Seq<char>, Sample>::empty());
        }
        r
    }

    /// Takes a reading of an interface's counters, `None` if they could not
    /// be read, and gives its throughput since the last one.
    pub fn sample_rate(&mut self, name: &str, now: Option<Sample>) -> (r: Option<(u64, u64)>)
        ensures
            r == sampled(old(self)@, name@, now),
            final(self)@ == remembered(old(self)@, name@, now),
    {
        let sample = match now {
            Some(s) => s,
            None => return None,
        };
        let ghost before = self.prev@;
        let mut i: usize = 0;
        while i < self.prev.len()
            invariant
                i <= self.prev.len(),
                self.prev@ == before,
                before == old(self).prev@,
                now == Some(sample),
                forall|j: int| 0 <= j < i ==> (#[trigger] before[j]).0@ != name@,
            decreases self.prev.len() - i,
        {
            if same(self.prev[i].0.as_str(), name) {
                let r = rate(self.prev[i].1, sample);
                let entry = (name.to_owned(), sample);
                self.prev.set(i, entry);
                proof {
                    lemma_find_at(before, name@, i as int);
                    lemma_find_at(self.prev@, name@, i as int);
                    assert forall|n: Seq<char>| n != name@ implies find(self.prev@, n) == find(
                        before,
                        n,
                    ) by {
                        lemma_find_update(before, i as int, entry, n);
                    }
                    assert(self@ =~= old(self)@.insert(name@, sample));
                }
                return r;
            }
            i += 1;
        }
        let entry = (name.to_owned(), sample);
        self.prev.push(entry);
        proof {
            lemma_find_none(before, name@);
            lemma_find_at(self.prev@, name@, before.len() as int);
            assert forall|n: Seq<char>| n != name@ implies find(self.prev@, n) == find(
                before,
                n,
            ) by {
                lemma_find_push(before, entry, n);
            }
            assert(self@ =~= old(self)@.insert(name@, sample));
        }
        None
    }

    /// The interfaces of an `ip -brief addr show`, each with its throughput.
    /// `counters` holds a reading for each of them, in the order of
    /// `interface_names`.
    pub fn list(&mut self, ip_output: &str, counters: &Vec<Option<Sample>>) -> (r: Vec<Interface>)
        requires
            counters.len() == listed(lines_of(ip_output@)).len(),
        ensures
            interface_views(r@) == interfaces_after(
                old(self)@,
                listed(lines_of(ip_output@)),
                counters@,
            ),
            final(self)@ == remembered_after(
                old(self)@,
                listed(lines_of(ip_output@)),
                counters@,
                counters@.len(),
            ),
    {
        let all = lines(ip_output);
        let mut out: Vec<Interface> = Vec::new();
        let mut i: usize = 0;
        let ghost l = listed(lines_of(ip_output@));
        let ghost ls = lines_of(ip_output@);
        let ghost start = self@;
        while i < all.len()
            invariant
                i <= all.len(),
                texts(all@) == ls,
                l == listed(ls),
                counters.len() == l.len(),
                out.len() == listed(ls.take(i as int)).len(),
                out.len() <= l.len(),
                self@ == remembered_after(start, l, counters@, out@.len()),
                forall|j: int|
                    0 <= j < out.len() ==> (#[trigger] out@[j])@ == interfaces_after(
                        start,
                        l,
                        counters@,
                    )[j],
            decreases all.len() - i,
        {
            let mut fields = words(all[i].as_str());
            proof {
                assert(texts(all@)[i as int] == all@[i as int]@);
                assert(ls.take(i + 1).drop_last() =~= ls.take(i as int));
                assert(ls.take(i + 1).last() == all@[i as int]@);
                lemma_listed_len(ls, i + 1);
            }
            let ghost w = words_of(all@[i as int]@);
            if fields.len() > 0 {
                let name = fields[0].clone();
                proof {
                    assert(texts(fields@)[0] == name@);
                }
                if !same(name.as_str(), "lo") {
                    let ghost n = out.len() as int;
                    proof {
                        assert(listed(ls.take(i + 1)).last() == described(all@[i as int]@));
                        assert(l[n] == described(all@[i as int]@));
                    }
                    let up = fields.len() > 1 && same(fields[1].as_str(), "UP");
                    proof {
                        if fields.len() > 1 {
                            assert(texts(fields@)[1] == fields@[1]@);
                        }
                    }
                    let addrs = if fields.len() > 2 {
                        fields.split_off(2)
                    } else {
                        Vec::new()
                    };
                    proof {
                        assert(texts(addrs@) =~= described(all@[i as int]@).addrs);
                    }
                    let rate = self.sample_rate(name.as_str(), counters[out.len()]);
                    let iface = Interface { name, up, addrs, rate };
                    proof {
                        assert(iface@ == interfaces_after(start, l, counters@)[n]);
                    }
                    out.push(iface);
                }
            }
            i += 1;
        }
        proof {
            assert(ls.take(i as int) =~= ls);
            assert(interface_views(out@) =~= interfaces_after(start, l, counters@));
        }
        out
    }
}

/// The names of some interfaces.
pub open spec fn names_of(l: Seq<Listed>) -> Seq<Seq<char>> {
    Seq::new(l.len(), |i: int| l[i].name)
}

/// The names of the interfaces that an `ip -brief addr show` lists, the
/// loopback left out.
pub fn interface_names(ip_output: &str) -> (r: Vec<String>)
    ensures
        texts(r@) == names_of(listed(lines_of(ip_output@))),
{
    let all = lines(ip_output);
    let mut out: Vec<String> = Vec::new();
    let mut i: usize = 0;
    let ghost ls = lines_of(ip_output@);
    while i < all.len()
        invariant
            i <= all.len(),
            texts(all@) == ls,
            texts(out@) == names_of(listed(ls.take(i as int))),
        decreases all.len() - i,
    {
        let fields = words(all[i].as_str());
        proof {
            assert(texts(all@)[i as int] == all@[i as int]@);
            assert(ls.take(i + 1).drop_last() =~= ls.take(i as int));
            assert(ls.take(i + 1).last() == all@[i as int]@);
        }
        if fields.len() > 0 {
            let name = fields[0].clone();
            proof {
                assert(texts(fields@)[0] == name@);
            }
            if !same(name.as_str(), "lo") {
                proof {
                    lemma_texts_push(out@, name);
                    assert(listed(ls.take(i + 1)) == listed(ls.take(i as int)).push(
                        described(all@[i as int]@),
                    ));
                    assert(names_of(listed(ls.take(i + 1))) =~= names_of(
                        listed(ls.take(i as int)),
                    ).push(name@));
                }
                out.push(name);
            }
        }
        i += 1;
    }
    proof {
        assert(ls.take(i as int) =~= ls);
    }
    out
}

/// A counter file of the kernel: a number, with white space around it.
pub fn read_counter(content: &Option<String>) -> (r: Option<u64>)
    ensures
        r == (match content {
            Some(s) => parsed_u64(trim_of(s@)),
            None => None,
        }),
{
    match content {
        Some(s) => parse_u64(trim(s.as_str()).as_str()),
        None => None,
    }
}

/// The tenths of `n / d` after the division has been rounded to a double.
pub open spec fn quotient_tenths(n: nat, d: nat) -> nat {
    let q = nearest_double(n, d);
    nearest_integer(10 * q.0, q.1)
}

fn tenths_of(n: u128, d: u128) -> (r: u128)
    requires
        0 < d < 0x400_0000_0000_0000_0000,
        n < 0x100_0000_0000_0000_0000,
    ensures
        r == quotient_tenths(n as nat, d as nat),
{
    let q = divide(n, d);
    round_quotient(10 * q.0, q.1)
}

/// Bytes per second in bits per second, with the unit that fits.
pub open spec fn rate_text(bytes_per_sec: u64) -> Seq<char> {
    let bits = 8 * integer_double(bytes_per_sec as nat);
    if bits >= 1_000_000_000 {
        tenths_text(quotient_tenths(bits, 1_000_000_000)) + " Gbit/s"@
    } else if bits >= 1_000_000 {
        tenths_text(quotient_tenths(bits, 1_000_000)) + " Mbit/s"@
    } else if bits >= 1_000 {
        tenths_text(quotient_tenths(bits, 1_000)) + " Kbit/s"@
    } else {
        decimal(bits) + " bit/s"@
    }
}

/// Bytes per second for humans, in bits per second as is the convention for
/// networks.
pub fn fmt_rate(bytes_per_sec: u64) -> (r: String)
    ensures
        r@ == rate_text(bytes_per_sec),
{
    let bits: u128 = to_double(bytes_per_sec as u128) * 8;
    if bits >= 1_000_000_000 {
        cat(tenths(tenths_of(bits, 1_000_000_000)).as_str(), " Gbit/s")
    } else if bits >= 1_000_000 {
        cat(tenths(tenths_of(bits, 1_000_000)).as_str(), " Mbit/s")
    } else if bits >= 1_000 {
        cat(tenths(tenths_of(bits, 1_000)).as_str(), " Kbit/s")
    } else {
        cat(number(bits).as_str(), " bit/s")
    }
}

// ---------------------------------------------------------------------------
// Laws
// ---------------------------------------------------------------------------

/// An interface that is seen for the first time has no throughput yet.
pub proof fn law_first_sample_has_no_rate(
    prev: Map<Seq<char>, Sample>,
    name: Seq<char>,
    now: Option<Sample>,
)
    requires
        !prev.dom().contains(name),
    ensures
        sampled(prev, name, now) is None,
{
}

/// Samples less than a second apart give no throughput, samples further apart
/// give one, and a reading that succeeded is what the next one is compared
/// with.
pub proof fn law_second_sample_has_a_rate(
    prev: Map<Seq<char>, Sample>,
    name: Seq<char>,
    first: Sample,
    second: Sample,
)
    ensures
        sampled(remembered(prev, name, Some(first)), name, Some(second)) == rate_between(
            first,
            second,
        ),
        rate_between(first, second) is Some <==> second.at >= first.at + 1_000_000_000,
{
}

/// Counters that did not grow, because nothing passed or because they were
/// reset, give a throughput of zero.
pub proof fn law_counter_reset_is_no_traffic(first: Sample, second: Sample)
    requires
        second.rx <= first.rx,
        second.tx <= first.tx,
        second.at >= first.at + 1_000_000_000,
    ensures
        rate_between(first, second) == Some((0u64, 0u64)),
{
    assert(integer_double(0) == 0);
    let nanos = less(second.at, first.at);
    let secs = seconds_double(nanos);
    assert(0 * secs.1 == 0);
    assert(nearest_double(0, secs.0) == (0nat, 1nat));
    assert(bytes_per_second(0, nanos) == 0);
}

/// A line of `ip -brief addr show` is read word by word, whatever white space
/// stands in front: the first word is the interface's name, the second one its
/// state, and all others are its addresses. The loopback alone is left out.
pub proof fn law_line_describes_an_interface(lead: Seq<char>, fields: Seq<Seq<char>>)
    requires
        all_white(lead),
        fields.len() > 0,
        forall|i: int|
            0 <= i < fields.len() ==> (#[trigger] fields[i]).len() > 0 && none_white(fields[i]),
    ensures
        ({
            let line = lead + join_of(fields, " "@);
            let one = described(line);
            &&& names_interface(line) <==> fields[0] != "lo"@
            &&& one.name == fields[0]
            &&& one.up <==> fields.len() > 1 && fields[1] == "UP"@
            &&& fields.len() > 2 ==> one.addrs == fields.skip(2)
            &&& fields.len() <= 2 ==> one.addrs.len() == 0
        }),
{
    law_white_space_in_front_is_no_word(lead, fields);
}

/// One line more lists its interface behind the others, if it names one that is
/// listed; the others stay as they are either way.
pub proof fn law_every_interface_is_listed(lines: Seq<Seq<char>>, line: Seq<char>)
    ensures
        listed(seq![]).len() == 0,
        names_interface(line) ==> listed(lines.push(line)) == listed(lines).push(described(line)),
        !names_interface(line) ==> listed(lines.push(line)) == listed(lines),
        all_white(line) ==> !names_interface(line),
{
    assert(lines.push(line).drop_last() =~= lines);
    if all_white(line) {
        law_words_stand_between_white_space(line, seq![], seq![]);
    }
}

proof fn lemma_remembered(
    prev: Map<Seq<char>, Sample>,
    l: Seq<Listed>,
    now: Seq<Option<Sample>>,
    n: nat,
    name: Seq<char>,
)
    requires
        n <= l.len(),
        forall|k: int| 0 <= k < n ==> (#[trigger] l[k]).name != name,
    ensures
        remembered_after(prev, l, now, n).dom().contains(name) <==> prev.dom().contains(name),
        prev.dom().contains(name) ==> remembered_after(prev, l, now, n)[name] == prev[name],
    decreases n,
{
    if n > 0 {
        lemma_remembered(prev, l, now, (n - 1) as nat, name);
        assert(l[n - 1].name != name);
    }
}

/// Where no two interfaces share a name, each has the throughput between its
/// own last sample and its own new one, whatever the others do; its name, state
/// and addresses are those that were listed.
pub proof fn law_interfaces_are_sampled_apart(
    prev: Map<Seq<char>, Sample>,
    l: Seq<Listed>,
    now: Seq<Option<Sample>>,
    i: int,
)
    requires
        0 <= i < l.len(),
        forall|j: int, k: int|
            0 <= j < k < l.len() ==> (#[trigger] l[j]).name != (#[trigger] l[k]).name,
    ensures
        ({
            let one = interfaces_after(prev, l, now)[i];
            &&& interfaces_after(prev, l, now).len() == l.len()
            &&& one.name == l[i].name && one.up == l[i].up && one.addrs == l[i].addrs
            &&& now[i] is None || !prev.dom().contains(l[i].name) ==> one.rate is None
            &&& now[i] matches Some(s) ==> (prev.dom().contains(l[i].name) ==> one.rate
                == rate_between(prev[l[i].name], s))
        }),
{
    lemma_remembered(prev, l, now, i as nat, l[i].name);
}

/// What was read of an interface last is what its next sample is compared with;
/// without a reading its last sample is kept, and so is that of an interface
/// that is not listed.
pub proof fn law_last_sample_is_remembered(
    prev: Map<Seq<char>, Sample>,
    l: Seq<Listed>,
    now: Seq<Option<Sample>>,
    i: int,
    n: nat,
    other: Seq<char>,
)
    requires
        0 <= i < n <= l.len(),
        forall|j: int, k: int|
            0 <= j < k < l.len() ==> (#[trigger] l[j]).name != (#[trigger] l[k]).name,
        forall|k: int| 0 <= k < l.len() ==> (#[trigger] l[k]).name != other,
    ensures
        ({
            let after = remembered_after(prev, l, now, n);
            let name = l[i].name;
            &&& now[i] matches Some(s) ==> after.dom().contains(name) && after[name] == s
            &&& now[i] is None ==> (after.dom().contains(name) <==> prev.dom().contains(name))
            &&& now[i] is None && prev.dom().contains(name) ==> after[name] == prev[name]
            &&& after.dom().contains(other) <==> prev.dom().contains(other)
            &&& prev.dom().contains(other) ==> after[other] == prev[other]
        }),
    decreases n,
{
    lemma_remembered(prev, l, now, n, other);
    if i == n - 1 {
        lemma_remembered(prev, l, now, (n - 1) as nat, l[i].name);
    } else {
        law_last_sample_is_remembered(prev, l, now, i, (n - 1) as nat, other);
        assert(l[i].name != l[n - 1].name);
    }
}

/// Received and sent bytes are kept apart: what is received shows in the first
/// number and what is sent in the second one, in the same way.
pub proof fn law_directions_are_kept_apart(first: Sample, second: Sample)
    requires
        second.at >= first.at + 1_000_000_000,
    ensures
        ({
            let turned = |s: Sample| Sample { rx: s.tx, tx: s.rx, at: s.at };
            let (rate, back) = (
                rate_between(first, second)->0,
                rate_between(turned(first), turned(second))->0,
            );
            back.0 == rate.1 && back.1 == rate.0
        }),
        forall|sent: u64|
            #![trigger rate_between(first, Sample { tx: sent, ..second })]
            rate_between(first, Sample { tx: sent, ..second }).unwrap().0 == rate_between(
                first,
                second,
            ).unwrap().0,
{
}

proof fn lemma_whole_seconds(bytes: nat, secs: nat)
    requires
        bytes < 0x20_0000_0000_0000,
        0 < secs < 0x20_0000_0000_0000,
    ensures
        bytes_per_second(bytes, secs * 1_000_000_000) == bytes / secs,
{
    law_small_integers_are_doubles(bytes);
    law_whole_seconds_are_exact(secs);
    let t = seconds_double(secs * 1_000_000_000);
    let c = t.1;
    let (n, d) = (bytes * c, secs * c);
    let m = bytes / secs;
    let q = nearest_double(n, d);
    vstd::arithmetic::div_mod::lemma_fundamental_div_mod(bytes as int, secs as int);
    assert(d > 0) by (nonlinear_arith)
        requires
            secs > 0,
            c > 0,
            d == secs * c,
    ;
    assert(n >= d * m) by (nonlinear_arith)
        requires
            bytes >= secs * m,
            n == bytes * c,
            d == secs * c,
    ;
    assert(n < d * 0x20_0000_0000_0000) by (nonlinear_arith)
        requires
            bytes < 0x20_0000_0000_0000,
            secs > 0,
            c > 0,
            n == bytes * c,
            d == secs * c,
    ;
    law_rounding_keeps_integers(n, d, m);
    law_nearest_double_is_near(n, d);
    assert(secs * (m + 1) == secs * m + secs) by (nonlinear_arith);
    // The quotient stays below the next integer: its rounding is off by less
    // than the room that is left.
    assert(0x20_0000_0000_0000 * (secs * q.0 - bytes * q.1) <= bytes * q.1) by (nonlinear_arith)
        requires
            0x20_0000_0000_0000 * (d * q.0 - n * q.1) <= n * q.1,
            n == bytes * c,
            d == secs * c,
            c > 0,
    ;
    assert(q.0 < (m + 1) * q.1) by (nonlinear_arith)
        requires
            0x20_0000_0000_0000 * (secs * q.0 - bytes * q.1) <= bytes * q.1,
            bytes < 0x20_0000_0000_0000,
            bytes + 1 <= secs * (m + 1),
            secs > 0,
            q.1 > 0,
    ;
    assert(q.0 / q.1 == m) by {
        assert(q.0 - m * q.1 < q.1) by (nonlinear_arith)
            requires
                q.0 < (m + 1) * q.1,
        ;
        vstd::arithmetic::div_mod::lemma_fundamental_div_mod_converse(
            q.0 as int,
            q.1 as int,
            m as int,
            q.0 - m * q.1,
        );
    }
    assert(m <= bytes) by (nonlinear_arith)
        requires
            secs * m <= bytes,
            secs > 0,
    ;
}

/// Between samples that are whole seconds apart the throughput is the number of
/// bytes over the number of seconds, rounded down, in each direction.
pub proof fn law_rate_is_bytes_over_seconds(first: Sample, second: Sample, secs: nat)
    requires
        0 < secs,
        second.at == first.at + secs * 1_000_000_000,
        first.rx <= second.rx < first.rx + 0x20_0000_0000_0000,
        first.tx <= second.tx < first.tx + 0x20_0000_0000_0000,
    ensures
        rate_between(first, second) matches Some(rate) && rate.0 == (second.rx - first.rx)
            / secs as int && rate.1 == (second.tx - first.tx) / secs as int,
{
    assert(secs <= 18_446_744_073);
    lemma_whole_seconds((second.rx - first.rx) as nat, secs);
    lemma_whole_seconds((second.tx - first.tx) as nat, secs);
    assert(less(second.rx, first.rx) == second.rx - first.rx);
    assert(less(second.tx, first.tx) == second.tx - first.tx);
    assert(less(second.at, first.at) == secs * 1_000_000_000);
}

/// The tenths of a quotient are the nearest ones, but for what the division
/// itself is off: one part in two to the power of 53.
pub proof fn law_tenths_are_near(n: nat, d: nat)
    requires
        d > 0,
    ensures
        ({
            let t = quotient_tenths(n, d);
            &&& 0x40_0000_0000_0000 * (10 * n - d * t) <= 20 * n + 0x20_0000_0000_0000 * d
            &&& 0x40_0000_0000_0000 * (d * t - 10 * n) <= 20 * n + 0x20_0000_0000_0000 * d
        }),
{
    let q = nearest_double(n, d);
    let t = quotient_tenths(n, d);
    law_nearest_double_is_near(n, d);
    law_nearest_integer_is_near(10 * q.0, q.1);
    assert(2 * (d * (10 * q.0 - q.1 * t)) <= d * q.1) by (nonlinear_arith)
        requires
            2 * (10 * q.0) <= 2 * (q.1 * t) + q.1,
            d > 0,
    ;
    assert(2 * (d * (q.1 * t - 10 * q.0)) <= d * q.1) by (nonlinear_arith)
        requires
            2 * (q.1 * t) <= 2 * (10 * q.0) + q.1,
            d > 0,
    ;
    let (x, y, z) = (n * q.1, d * q.0, d * (q.1 * t));
    assert(d * (10 * q.0 - q.1 * t) == 10 * y - z) by (nonlinear_arith)
        requires
            y == d * q.0,
            z == d * (q.1 * t),
    ;
    assert(d * (q.1 * t - 10 * q.0) == z - 10 * y) by (nonlinear_arith)
        requires
            y == d * q.0,
            z == d * (q.1 * t),
    ;
    let w = d * q.1;
    assert(0x20_0000_0000_0000 * (x - y) <= x && 0x20_0000_0000_0000 * (y - x) <= x);
    assert(2 * (10 * y - z) <= w && 2 * (z - 10 * y) <= w);
    assert(0x40_0000_0000_0000 * (10 * x - z) <= 20 * x + 0x20_0000_0000_0000 * w);
    assert(0x40_0000_0000_0000 * (z - 10 * x) <= 20 * x + 0x20_0000_0000_0000 * w);
    assert(0x40_0000_0000_0000 * (10 * n - d * t) <= 20 * n + 0x20_0000_0000_0000 * d)
        by (nonlinear_arith)
        requires
            0x40_0000_0000_0000 * (10 * x - z) <= 20 * x + 0x20_0000_0000_0000 * w,
            x == n * q.1,
            z == d * (q.1 * t),
            w == d * q.1,
            q.1 > 0,
    ;
    assert(0x40_0000_0000_0000 * (d * t - 10 * n) <= 20 * n + 0x20_0000_0000_0000 * d)
        by (nonlinear_arith)
        requires
            0x40_0000_0000_0000 * (z - 10 * x) <= 20 * x + 0x20_0000_0000_0000 * w,
            x == n * q.1,
            z == d * (q.1 * t),
            w == d * q.1,
            q.1 > 0,
    ;
}

/// A rate is told in bits per second, eight to a byte, in the greatest unit
/// that it reaches: as a whole number of bits, or to the nearest tenth of a
/// thousand, a million or a thousand million of them.
pub proof fn law_rates_are_told_in_bits(bytes: u64, t: nat)
    requires
        bytes < 0x20_0000_0000_0000,
    ensures
        8 * bytes < 1_000 ==> rate_text(bytes) == decimal(8 * bytes as nat) + " bit/s"@,
        1_000 <= 8 * bytes < 1_000_000 ==> rate_text(bytes) == tenths_text(
            quotient_tenths(8 * bytes as nat, 1_000),
        ) + " Kbit/s"@,
        1_000_000 <= 8 * bytes < 1_000_000_000 ==> rate_text(bytes) == tenths_text(
            quotient_tenths(8 * bytes as nat, 1_000_000),
        ) + " Mbit/s"@,
        1_000_000_000 <= 8 * bytes ==> rate_text(bytes) == tenths_text(
            quotient_tenths(8 * bytes as nat, 1_000_000_000),
        ) + " Gbit/s"@,
        // A rate of exactly so many tenths of the unit is told as exactly those.
        80 * bytes == 1_000 * t && 10 <= t < 10_000 ==> rate_text(bytes) == tenths_text(t)
            + " Kbit/s"@,
        80 * bytes == 1_000_000 * t && 10 <= t < 10_000 ==> rate_text(bytes) == tenths_text(t)
            + " Mbit/s"@,
        80 * bytes == 1_000_000_000 * t && 10 <= t < 10_000_000 ==> rate_text(bytes) == tenths_text(
            t,
        ) + " Gbit/s"@,
{
    law_small_integers_are_doubles(bytes as nat);
    let bits = 8 * bytes as nat;
    if 80 * bytes == 1_000 * t && 10 <= t < 10_000 {
        lemma_exact_tenths(bits, 1_000, t);
    }
    if 80 * bytes == 1_000_000 * t && 10 <= t < 10_000 {
        lemma_exact_tenths(bits, 1_000_000, t);
    }
    if 80 * bytes == 1_000_000_000 * t && 10 <= t < 10_000_000 {
        lemma_exact_tenths(bits, 1_000_000_000, t);
    }
}

proof fn lemma_exact_tenths(n: nat, d: nat, t: nat)
    requires
        d > 0,
        10 * n == d * t,
        t < 0x10_0000_0000,
    ensures
        quotient_tenths(n, d) == t,
{
    let u = quotient_tenths(n, d);
    let e: int = 0x20_0000_0000_0000;
    law_tenths_are_near(n, d);
    assert(2 * e * (t - u) <= 2 * t + e) by (nonlinear_arith)
        requires
            2 * e * (10 * n - d * u) <= 20 * n + e * d,
            10 * n == d * t,
            d > 0,
    ;
    assert(2 * e * (u - t) <= 2 * t + e) by (nonlinear_arith)
        requires
            2 * e * (d * u - 10 * n) <= 20 * n + e * d,
            10 * n == d * t,
            d > 0,
    ;
}

/// The names of interfaces are told in their order.
pub proof fn law_names_keep_their_order(l: Seq<Listed>, i: int)
    requires
        0 <= i < l.len(),
    ensures
        names_of(l).len() == l.len(),
        names_of(l)[i] == l[i].name,
{
}

/// An interface counts with its name, its state, its throughput and every one
/// of its addresses, and every interface counts, in order.
pub proof fn law_interfaces_count_in_full(v: Seq<Interface>, i: int, k: int)
    requires
        0 <= i < v.len(),
    ensures
        interface_views(v).len() == v.len(),
        interface_views(v)[i].name == v[i].name@,
        interface_views(v)[i].up == v[i].up,
        interface_views(v)[i].rate == v[i].rate,
        interface_views(v)[i].addrs.len() == v[i].addrs@.len(),
        0 <= k < v[i].addrs@.len() ==> interface_views(v)[i].addrs[k] == v[i].addrs@[k]@,
{
}

/// Over any time of a second or more the throughput is the number of bytes over
/// that time, without its fraction, but for what three roundings are off: a few
/// parts in two to the power of 53.
pub proof fn law_rate_is_near(bytes: nat, nanos: nat)
    requires
        bytes < 0x20_0000_0000_0000,
        nanos >= 1_000_000_000,
    ensures
        ({
            let rate = bytes_per_second(bytes, nanos) as nat;
            &&& 0x1f_ffff_ffff_fffd * (rate * nanos) <= 0x20_0000_0000_0001 * (
            1_000_000_000 * bytes)
            &&& 0x20_0000_0000_0003 * ((rate + 1) * nanos) > 0x1f_ffff_ffff_ffff * (
            1_000_000_000 * bytes)
        }),
{
    law_small_integers_are_doubles(bytes);
    law_seconds_are_near(nanos);
    let s = seconds_double(nanos);
    let t = nanos * s.1;
    assert(t > 0) by (nonlinear_arith)
        requires
            nanos > 0,
            s.1 > 0,
            t == nanos * s.1,
    ;
    assert(s.0 > 0);
    let b = bytes * s.1;
    let q = nearest_double(b, s.0);
    law_nearest_double_is_near(b, s.0);
    let n = q.0 / q.1;
    vstd::arithmetic::div_mod::lemma_fundamental_div_mod(q.0 as int, q.1 as int);
    let (sq, bq) = (s.0 * q.0, b * q.1);
    assert(n * q.1 <= q.0 && q.0 < (n + 1) * q.1) by (nonlinear_arith)
        requires
            q.0 == q.1 * n + q.0 % q.1,
            0 <= q.0 % q.1 < q.1,
    ;
    // Both bounds, over the denominators of the two doubles.
    let (lo, hi) = (s.0 * (n * q.1), s.0 * ((n + 1) * q.1));
    assert(lo <= sq && sq < hi) by (nonlinear_arith)
        requires
            n * q.1 <= q.0,
            q.0 < (n + 1) * q.1,
            s.0 > 0,
            lo == s.0 * (n * q.1),
            hi == s.0 * ((n + 1) * q.1),
            sq == s.0 * q.0,
    ;
    lemma_over_both(bytes, nanos, s.0, s.1, q.1, n);
    lemma_rate_fits(bytes, nanos, n);
}

proof fn lemma_over_both(bytes: nat, nanos: nat, s0: nat, s1: nat, q1: nat, n: nat)
    requires
        s1 > 0,
        q1 > 0,
        0x20_0000_0000_0000 * (1_000_000_000 * s0 - nanos * s1) <= 3 * (nanos * s1),
        0x20_0000_0000_0000 * (nanos * s1 - 1_000_000_000 * s0) <= 3 * (nanos * s1),
        0x20_0000_0000_0000 * (s0 * (n * q1)) <= 0x20_0000_0000_0001 * ((bytes * s1) * q1),
        0x20_0000_0000_0000 * (s0 * ((n + 1) * q1)) > 0x1f_ffff_ffff_ffff * ((bytes * s1)
            * q1),
    ensures
        0x1f_ffff_ffff_fffd * (n * nanos) <= 0x20_0000_0000_0001 * (1_000_000_000
            * bytes),
        0x20_0000_0000_0003 * ((n + 1) * nanos) > 0x1f_ffff_ffff_ffff * (1_000_000_000
            * bytes),
{
    let (a, c) = (1_000_000_000 * s0, nanos * s1);
    assert(0x20_0000_0000_0000 * (s0 * n) <= 0x20_0000_0000_0001 * (bytes * s1))
        by (nonlinear_arith)
        requires
            0x20_0000_0000_0000 * (s0 * (n * q1)) <= 0x20_0000_0000_0001 * ((bytes * s1)
                * q1),
            q1 > 0,
    ;
    assert(0x20_0000_0000_0000 * (s0 * (n + 1)) > 0x1f_ffff_ffff_ffff * (bytes * s1))
        by (nonlinear_arith)
        requires
            0x20_0000_0000_0000 * (s0 * ((n + 1) * q1)) > 0x1f_ffff_ffff_ffff * ((bytes * s1)
                * q1),
            q1 > 0,
    ;
    // The seconds, told by the nanoseconds.
    assert(0x1f_ffff_ffff_fffd * c <= 0x20_0000_0000_0000 * a);
    assert(0x20_0000_0000_0000 * a <= 0x20_0000_0000_0003 * c);
    let m = n + 1;
    assert(0x1f_ffff_ffff_fffd * (c * n) <= 0x20_0000_0000_0000 * (a * n)) by (nonlinear_arith)
        requires
            0x1f_ffff_ffff_fffd * c <= 0x20_0000_0000_0000 * a,
    ;
    assert(0x20_0000_0000_0000 * (a * m) <= 0x20_0000_0000_0003 * (c * m)) by (nonlinear_arith)
        requires
            0x20_0000_0000_0000 * a <= 0x20_0000_0000_0003 * c,
            m > 0,
    ;
    assert(a * n == 1_000_000_000 * (s0 * n) && a * m == 1_000_000_000 * (s0 * m))
        by (nonlinear_arith)
        requires
            a == 1_000_000_000 * s0,
    ;
    let (g, h) = (n * nanos, m * nanos);
    assert(c * n == s1 * g && c * m == s1 * h) by (nonlinear_arith)
        requires
            c == nanos * s1,
            g == n * nanos,
            h == m * nanos,
    ;
    let (k, j) = (1_000_000_000 * bytes, bytes * s1);
    assert(1_000_000_000 * j == s1 * k) by (nonlinear_arith)
        requires
            j == bytes * s1,
            k == 1_000_000_000 * bytes,
    ;
    assert(0x1f_ffff_ffff_fffd * (s1 * g) <= 0x20_0000_0000_0001 * (s1 * k));
    assert(0x20_0000_0000_0003 * (s1 * h) > 0x1f_ffff_ffff_ffff * (s1 * k));
    assert(0x1f_ffff_ffff_fffd * g <= 0x20_0000_0000_0001 * k) by (nonlinear_arith)
        requires
            0x1f_ffff_ffff_fffd * (s1 * g) <= 0x20_0000_0000_0001 * (s1 * k),
            s1 > 0,
    ;
    assert(0x20_0000_0000_0003 * h > 0x1f_ffff_ffff_ffff * k) by (nonlinear_arith)
        requires
            0x20_0000_0000_0003 * (s1 * h) > 0x1f_ffff_ffff_ffff * (s1 * k),
            s1 > 0,
    ;
}

proof fn lemma_rate_fits(bytes: nat, nanos: nat, n: nat)
    requires
        bytes < 0x20_0000_0000_0000,
        nanos >= 1_000_000_000,
        0x1f_ffff_ffff_fffd * (n * nanos) <= 0x20_0000_0000_0001 * (1_000_000_000
            * bytes),
    ensures
        n <= u64::MAX,
{
    assert(n * nanos >= n * 1_000_000_000) by (nonlinear_arith)
        requires
            nanos >= 1_000_000_000,
    ;
}

} // verus!
