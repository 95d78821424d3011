//! Host-level metrics, from what the kernel and a few system calls give.

use vstd::prelude::*;
use vstd::utf8::{decode_utf8, valid_utf8};
use vstd::arithmetic::power2::{lemma2_to64_rest, lemma_pow2_adds, lemma_pow2_pos, pow2};
use crate::double::{
    divide, doublings_down, integer_double, law_nearest_double_is_near,
    law_nearest_integer_is_near, law_small_integers_are_doubles, nearest_double, nearest_integer,
    round_quotient, to_double,
};
use crate::outside::{decodes, from_utf8_lossy, utf8_lossy};
use crate::process::{output_decodes, printed, stdout_or_empty, CommandOutput};
use crate::text::{
    all_white, begins_with, cat, decimal, is_white, join, join_of, law_beginning,
    law_decimal_denotes_the_number, law_decimal_is_read_back, law_white_space,
    law_white_space_in_front_is_no_word, lines, lines_of, none_white, number, parse_u64, parsed_u64,
    same, starts_with, tenths, tenths_text, texts, trim, trim_of, words, words_of,
};

verus! {

/// How many bytes stand before the first zero byte.
pub open spec fn before_nul(buf: Seq<u8>) -> nat
    decreases buf.len(),
{
    if buf.len() == 0 || buf[0] == 0 {
        0
    } else {
        1 + before_nul(buf.drop_first())
    }
}

proof fn lemma_before_nul(buf: Seq<u8>, n: nat)
    requires
        n <= buf.len(),
        forall|i: int| 0 <= i < n ==> #[trigger] buf[i] != 0,
        n == buf.len() || buf[n as int] == 0,
    ensures
        before_nul(buf) == n,
    decreases n,
{
    if n > 0 {
        let t = buf.drop_first();
        assert forall|i: int| 0 <= i < n - 1 implies #[trigger] t[i] != 0 by {
            assert(t[i] == buf[i + 1]);
        }
        lemma_before_nul(t, (n - 1) as nat);
    }
}

/// The name in a buffer that `gethostname` filled; `unknown` when it failed
/// or left no zero byte.
pub open spec fn host_of(buf: Option<Vec<u8>>) -> Seq<char> {
    match buf {
        Some(b) => if before_nul(b@) < b@.len() {
            utf8_lossy(b@.take(before_nul(b@) as int))
        } else {
            "unknown"@
        },
        None => "unknown"@,
    }
}

/// Whether the name in a buffer, if it is UTF-8, is made the text that it
/// encodes.
pub open spec fn host_decodes(buf: Option<Vec<u8>>) -> bool {
    match buf {
        Some(b) => before_nul(b@) < b@.len() ==> decodes(b@.take(before_nul(b@) as int)),
        None => true,
    }
}

/// The host's name, from the buffer that `gethostname` filled.
pub fn hostname(buf: &Option<Vec<u8>>) -> (r: String)
    ensures
        r@ == host_of(*buf),
        match *buf {
            Some(b) => {
                let name = b@.take(before_nul(b@) as int);
                before_nul(b@) < b@.len() && valid_utf8(name) ==> r@ == decode_utf8(name)
            },
            None => true,
        },
{
    let bytes = match buf {
        Some(b) => b,
        None => return "unknown".to_owned(),
    };
    let mut n: usize = 0;
    while n < bytes.len() && bytes[n] != 0
        invariant
            n <= bytes.len(),
            forall|i: int| 0 <= i < n ==> #[trigger] bytes@[i] != 0,
        decreases bytes.len() - n,
    {
        n += 1;
    }
    proof {
        lemma_before_nul(bytes@, n as nat);
    }
    if n < bytes.len() {
        let name: &[u8] = &bytes.as_slice()[0..n];
        proof {
            assert(name@ =~= bytes@.take(n as int));
        }
        from_utf8_lossy(name)
    } else {
        "unknown".to_owned()
    }
}

/// The first field of `/proc/uptime`, the seconds since boot with a fraction.
pub fn uptime_field(raw: &str) -> (r: Option<String>)
    ensures
        words_of(raw@).len() == 0 <==> r is None,
        r matches Some(w) ==> w@ == words_of(raw@)[0],
{
    let all = words(raw);
    if all.len() == 0 {
        None
    } else {
        proof {
            assert(texts(all@)[0] == all@[0]@);
        }
        Some(all[0].clone())
    }
}

/// Seconds as days, hours and minutes.
pub open spec fn uptime_text(secs: u64) -> Seq<char> {
    decimal((secs / 86400) as nat) + "d "@ + (decimal((secs % 86400 / 3600) as nat) + "h "@ + (
    decimal((secs % 3600 / 60) as nat) + "m"@))
}

/// How long the system has been up.
pub fn uptime(secs: u64) -> (r: String)
    ensures
        r@ == uptime_text(secs),
{
    let mut out = number((secs / 86400) as u128);
    out.append("d ");
    let mut hours = number((secs % 86400 / 3600) as u128);
    hours.append("h ");
    let mut minutes = number((secs % 3600 / 60) as u128);
    minutes.append("m");
    hours.append(minutes.as_str());
    out.append(hours.as_str());
    out
}

/// At most the first `n` of some texts.
pub open spec fn at_most(parts: Seq<Seq<char>>, n: int) -> Seq<Seq<char>> {
    if parts.len() > n {
        parts.take(n)
    } else {
        parts
    }
}

/// The first `n` texts, or all of them if there are fewer.
pub fn keep_first(parts: Vec<String>, n: usize) -> (r: Vec<String>)
    ensures
        texts(r@) == at_most(texts(parts@), n as int),
{
    let ghost all = texts(parts@);
    let mut out = parts;
    if out.len() > n {
        out.truncate(n);
        proof {
            assert(texts(out@) =~= all.take(n as int));
        }
    }
    out
}

/// The load of the last 1, 5 and 15 minutes: the first three fields of
/// `/proc/loadavg`.
pub fn load_average(raw: &str) -> (r: String)
    ensures
        r@ == join_of(at_most(words_of(raw@), 3), " "@),
{
    join(&keep_first(words(raw), 3), " ")
}

/// How many of some lines start with `prefix`.
pub open spec fn count_starting(lines: Seq<Seq<char>>, prefix: Seq<char>) -> nat
    decreases lines.len(),
{
    if lines.len() == 0 {
        0
    } else {
        count_starting(lines.drop_last(), prefix) + if begins_with(lines.last(), prefix) {
            1nat
        } else {
            0nat
        }
    }
}

/// The processors that `/proc/cpuinfo` lists; one when there is none or the
/// file could not be read.
pub open spec fn cpus_of(raw: Option<String>) -> nat {
    match raw {
        Some(s) => {
            let n = count_starting(lines_of(s@), "processor"@);
            if n > 1 {
                n
            } else {
                1
            }
        },
        None => 1,
    }
}

/// The number of processors, from `/proc/cpuinfo`.
pub fn cpu_count(raw: &Option<String>) -> (r: usize)
    ensures
        r == cpus_of(*raw),
{
    let s = match raw {
        Some(s) => s,
        None => return 1,
    };
    let all = lines(s.as_str());
    let mut n: usize = 0;
    let mut i: usize = 0;
    let ghost ls = lines_of(s@);
    while i < all.len()
        invariant
            i <= all.len(),
            texts(all@) == ls,
            n <= i,
            n == count_starting(ls.take(i as int), "processor"@),
        decreases all.len() - i,
    {
        proof {
            assert(texts(all@)[i as int] == all@[i as int]@);
            assert(ls.take(i + 1).drop_last() =~= ls.take(i as int));
            assert(ls.take(i + 1).last() == all@[i as int]@);
        }
        if starts_with(all[i].as_str(), "processor") {
            n += 1;
        }
        i += 1;
    }
    proof {
        assert(ls.take(i as int) =~= ls);
    }
    if n > 1 {
        n
    } else {
        1
    }
}

/// The host's memory, in bytes.
#[derive(Clone, Copy)]
pub struct MemInfo {
    pub used: u64,
    pub total: u64,
    pub available: u64,
}

/// The number after a label: that of the last line whose first word is the
/// label, if its second word is a number.
pub open spec fn labelled(lines: Seq<Seq<char>>, label: Seq<char>) -> Option<u64>
    decreases lines.len(),
{
    if lines.len() == 0 {
        None
    } else {
        let w = words_of(lines.last());
        if w.len() > 0 && w[0] == label {
            if w.len() > 1 {
                parsed_u64(w[1])
            } else {
                None
            }
        } else {
            labelled(lines.drop_last(), label)
        }
    }
}

fn labelled_value(all: &Vec<String>, label: &str) -> (r: Option<u64>)
    ensures
        r == labelled(texts(all@), label@),
{
    let mut value: Option<u64> = None;
    let mut i: usize = 0;
    let ghost ls = texts(all@);
    while i < all.len()
        invariant
            i <= all.len(),
            ls == texts(all@),
            value == labelled(ls.take(i as int), label@),
        decreases all.len() - i,
    {
        let w = words(all[i].as_str());
        proof {
            assert(ls.take(i + 1).drop_last() =~= ls.take(i as int));
            assert(ls.take(i + 1).last() == all@[i as int]@);
            if w.len() > 0 {
                assert(texts(w@)[0] == w@[0]@);
            }
            if w.len() > 1 {
                assert(texts(w@)[1] == w@[1]@);
            }
        }
        if w.len() > 0 && same(w[0].as_str(), label) {
            value = if w.len() > 1 {
                parse_u64(w[1].as_str())
            } else {
                None
            };
        }
        i += 1;
    }
    proof {
        assert(ls.take(i as int) =~= ls);
    }
    value
}

/// The two numbers of `/proc/meminfo` that matter, in KiB.
pub open spec fn mem_total_kib(raw: Seq<char>) -> Option<u64> {
    labelled(lines_of(raw), "MemTotal:"@)
}

/// See `mem_total_kib`.
pub open spec fn mem_available_kib(raw: Seq<char>) -> Option<u64> {
    labelled(lines_of(raw), "MemAvailable:"@)
}

/// The numbers of `/proc/meminfo` can be told in bytes.
pub open spec fn mem_fits(raw: Option<String>) -> bool {
    raw matches Some(s) ==> {
        &&& mem_total_kib(s@) matches Some(t) ==> {
            &&& t * 1024 <= u64::MAX
            &&& mem_available_kib(s@) matches Some(a) ==> a * 1024 <= u64::MAX
        }
    }
}

/// The memory that `/proc/meminfo` tells of; none when the file could not be
/// read or lacks one of the two numbers.
pub open spec fn mem_of(raw: Option<String>) -> Option<MemInfo> {
    match raw {
        None => None,
        Some(s) => match (mem_total_kib(s@), mem_available_kib(s@)) {
            (Some(t), Some(a)) => Some(
                MemInfo {
                    used: if t > a {
                        ((t - a) * 1024) as u64
                    } else {
                        0
                    },
                    total: (t * 1024) as u64,
                    available: (a * 1024) as u64,
                },
            ),
            _ => None,
        },
    }
}

/// Whether the numbers of `/proc/meminfo` can be told in bytes.
pub fn memory_fits(raw: &Option<String>) -> (r: bool)
    ensures
        r == mem_fits(*raw),
{
    match raw {
        None => true,
        Some(s) => {
            let all = lines(s.as_str());
            match labelled_value(&all, "MemTotal:") {
                None => true,
                Some(t) => {
                    t <= 0xffff_ffff_ffff_ffff / 1024 && (match labelled_value(
                        &all,
                        "MemAvailable:",
                    ) {
                        None => true,
                        Some(a) => a <= 0xffff_ffff_ffff_ffff / 1024,
                    })
                },
            }
        },
    }
}

/// The host's memory, from `/proc/meminfo`, whose numbers are in KiB.
pub fn memory(raw: &Option<String>) -> (r: Option<MemInfo>)
    requires
        mem_fits(*raw),
    ensures
        r == mem_of(*raw),
{
    let s = match raw {
        Some(s) => s,
        None => return None,
    };
    let all = lines(s.as_str());
    let total = match labelled_value(&all, "MemTotal:") {
        Some(t) => t * 1024,
        None => return None,
    };
    let available = match labelled_value(&all, "MemAvailable:") {
        Some(a) => a * 1024,
        None => return None,
    };
    Some(MemInfo { used: total.saturating_sub(available), total, available })
}

/// Which share of the memory is used, in percent: the quotient of the two
/// numbers as doubles, a hundred times that, and the nearest integer to it,
/// but no more than a hundred. Of no memory at all, nothing is used or all.
pub open spec fn percent_of(used: u64, total: u64) -> nat {
    if total == 0 {
        if used == 0 {
            0
        } else {
            100
        }
    } else {
        let share = nearest_double(integer_double(used as nat), integer_double(total as nat));
        let percent = nearest_double(100 * share.0, share.1);
        let rounded = (2 * percent.0 + percent.1) / (2 * percent.1);
        if rounded > 100 {
            100
        } else {
            rounded
        }
    }
}

/// Less than a quarter, as a double, still rounds to nothing.
proof fn lemma_little_is_nothing(n: nat, d: nat)
    requires
        0 < d,
        4 * n <= d,
    ensures
        ({
            let q = nearest_double(n, d);
            q.1 > 0 && (2 * q.0 + q.1) / (2 * q.1) == 0
        }),
{
    let q = nearest_double(n, d);
    if n == 0 {
        assert((2 * q.0 + q.1) / (2 * q.1) == 0) by (nonlinear_arith)
            requires
                q.0 == 0,
                q.1 == 1,
        ;
    } else {
        let k = doublings_down(n, d);
        let b = pow2(52 + k);
        lemma_pow2_pos(52 + k);
        lemma_pow2_adds(52, k);
        lemma_pow2_pos(k);
        lemma2_to64_rest();
        assert(b >= 0x10_0000_0000_0000) by (nonlinear_arith)
            requires
                b == pow2(52) * pow2(k),
                pow2(52) == 0x10_0000_0000_0000,
                pow2(k) >= 1,
        ;
        let m = n * b;
        assert(4 * m <= d * b) by (nonlinear_arith)
            requires
                4 * n <= d,
                m == n * b,
                b > 0,
        ;
        let w = m / d;
        assert(4 * w <= b) by (nonlinear_arith)
            requires
                w == m / d,
                4 * m <= d * b,
                d > 0,
        ;
        assert(q.0 <= w + 1);
        assert(2 * q.0 + b < 2 * b);
        assert((2 * q.0 + q.1) / (2 * q.1) == 0) by (nonlinear_arith)
            requires
                q.1 == b,
                2 * q.0 + b < 2 * b,
        ;
    }
}

/// Which share of the memory is used, in percent.
pub fn memory_percent(used: u64, total: u64) -> (r: u16)
    ensures
        r == percent_of(used, total),
{
    if total == 0 {
        return if used == 0 { 0 } else { 100 };
    }
    let u = to_double(used as u128);
    let t = to_double(total as u128);
    let (n, d) = divide(u, t);
    let hundred: u128 = 100 * n;
    if d >= 0x400_0000_0000_0000_0000 {
        proof {
            lemma_little_is_nothing(hundred as nat, d as nat);
        }
        return 0;
    }
    let (p, q) = divide(hundred, d);
    let rounded: u128 = (2 * p + q) / (2 * q);
    if rounded > 100 {
        100
    } else {
        rounded as u16
    }
}

/// A file system's use, in bytes.
#[derive(Clone, Copy)]
pub struct DiskInfo {
    pub used: u64,
    pub total: u64,
    pub percent_used: u8,
}

/// What `statvfs` tells of a file system: the size of a block, and the number
/// of all blocks, of free ones and of those free for ordinary users.
#[derive(Clone, Copy)]
pub struct FileSystem {
    pub block_size: u64,
    pub blocks: u64,
    pub free: u64,
    pub available: u64,
}

impl FileSystem {
    /// The bytes that are taken.
    pub open spec fn used(self) -> nat {
        if self.blocks > self.free {
            ((self.blocks - self.free) * self.block_size) as nat
        } else {
            0
        }
    }

    /// The sizes can be told in bytes.
    pub open spec fn fits(self) -> bool {
        &&& self.blocks * self.block_size <= u64::MAX
        &&& self.free * self.block_size <= u64::MAX
        &&& self.available * self.block_size <= u64::MAX
        &&& self.blocks * self.block_size > 0 ==> {
            &&& self.used() * 100 <= u64::MAX
            &&& self.used() + self.available * self.block_size <= u64::MAX
        }
    }

    /// How much of what ordinary users can have is taken, in percent without
    /// a fraction; zero when there is nothing.
    pub open spec fn percent_used(self) -> nat {
        let reachable = self.used() + (self.available * self.block_size) as nat;
        if self.blocks * self.block_size == 0 {
            0
        } else {
            self.used() * 100 / (if reachable > 1 {
                reachable
            } else {
                1
            })
        }
    }
}

/// Whether a file system's sizes can be told in bytes.
pub fn disk_fits(fs: &FileSystem) -> (r: bool)
    ensures
        r == fs.fits(),
{
    let total: u128 = product(fs.blocks, fs.block_size);
    let free: u128 = product(fs.free, fs.block_size);
    let available: u128 = product(fs.available, fs.block_size);
    let max: u128 = 0xffff_ffff_ffff_ffff;
    if total > max || free > max || available > max {
        return false;
    }
    if total == 0 {
        return true;
    }
    let used: u128 = if total > free { total - free } else { 0 };
    proof {
        lemma_used(*fs);
    }
    used * 100 <= max && used + available <= max
}

fn product(a: u64, b: u64) -> (r: u128)
    ensures
        r == a * b,
{
    proof {
        assert(a * b <= 0xffff_ffff_ffff_ffff * 0xffff_ffff_ffff_ffff) by (nonlinear_arith)
            requires
                a <= 0xffff_ffff_ffff_ffff,
                b <= 0xffff_ffff_ffff_ffff,
        ;
    }
    (a as u128) * (b as u128)
}

proof fn lemma_used(fs: FileSystem)
    ensures
        fs.blocks * fs.block_size > fs.free * fs.block_size ==> fs.used() == fs.blocks
            * fs.block_size - fs.free * fs.block_size,
        fs.blocks * fs.block_size <= fs.free * fs.block_size ==> fs.used() == 0,
{
    let (b, f, s) = (fs.blocks as int, fs.free as int, fs.block_size as int);
    assert((b - f) * s == b * s - f * s) by (nonlinear_arith);
    assert(b > f && s >= 0 ==> b * s >= f * s) by (nonlinear_arith);
    assert(b <= f && s >= 0 ==> b * s <= f * s) by (nonlinear_arith);
}

/// The use of a file system, in bytes and in percent.
pub open spec fn disk_of(fs: FileSystem) -> DiskInfo {
    DiskInfo {
        used: fs.used() as u64,
        total: (fs.blocks * fs.block_size) as u64,
        percent_used: fs.percent_used() as u8,
    }
}

/// The use of a file system; none when it could not be asked.
pub fn disk_usage(fs: &Option<FileSystem>) -> (r: Option<DiskInfo>)
    requires
        fs matches Some(f) ==> f.fits(),
    ensures
        r == (match fs {
            Some(f) => Some(disk_of(*f)),
            None => None,
        }),
        r matches Some(d) ==> d.percent_used <= 100,
{
    let f = match fs {
        Some(f) => f,
        None => return None,
    };
    let total: u64 = f.blocks * f.block_size;
    let free: u64 = f.free * f.block_size;
    let avail: u64 = f.available * f.block_size;
    let used: u64 = total.saturating_sub(free);
    proof {
        lemma_used(*f);
    }
    let percent_used: u8 = if total == 0 {
        0
    } else {
        let reachable: u64 = used + avail;
        let whole: u64 = if reachable > 1 { reachable } else { 1 };
        proof {
            assert(used * 100 / (whole as int) <= 100) by (nonlinear_arith)
                requires
                    0 <= used <= whole,
                    whole >= 1,
            ;
        }
        (used * 100 / whole) as u8
    };
    Some(DiskInfo { used, total, percent_used })
}

/// A size in bytes, with the binary unit that fits.
pub open spec fn bytes_text(bytes: u64) -> Seq<char> {
    let v = integer_double(bytes as nat);
    if v < 0x400 {
        decimal(bytes as nat) + "B"@
    } else if v < 0x10_0000 {
        tenths_text(nearest_integer(10 * v, 0x400)) + "Ki"@
    } else if v < 0x4000_0000 {
        tenths_text(nearest_integer(10 * v, 0x10_0000)) + "Mi"@
    } else if v < 0x100_0000_0000 {
        tenths_text(nearest_integer(10 * v, 0x4000_0000)) + "Gi"@
    } else {
        tenths_text(nearest_integer(10 * v, 0x100_0000_0000)) + "Ti"@
    }
}

/// A size for humans, in the units of `free -h`.
pub fn fmt_bytes(bytes: u64) -> (r: String)
    ensures
        r@ == bytes_text(bytes),
{
    let v: u128 = to_double(bytes as u128);
    let mut size: u128 = 1;
    let mut unit: usize = 0;
    while unit < 4 && v >= size * 1024
        invariant
            unit <= 4,
            unit == 0 ==> size == 1,
            unit == 1 ==> size == 0x400,
            unit == 2 ==> size == 0x10_0000,
            unit == 3 ==> size == 0x4000_0000,
            unit == 4 ==> size == 0x100_0000_0000,
            unit > 0 ==> v >= size,
            v <= 0x2_0000_0000_0000_0000,
            v == integer_double(bytes as nat),
        decreases 4 - unit,
    {
        size = size * 1024;
        unit += 1;
    }
    if unit == 0 {
        return cat(number(bytes as u128).as_str(), "B");
    }
    let value = tenths(round_quotient(10 * v, size));
    if unit == 1 {
        cat(value.as_str(), "Ki")
    } else if unit == 2 {
        cat(value.as_str(), "Mi")
    } else if unit == 3 {
        cat(value.as_str(), "Gi")
    } else {
        cat(value.as_str(), "Ti")
    }
}

/// The local time that `date` printed, without the white space around it; the
/// empty text when the command failed.
pub fn now_local(out: &Option<CommandOutput>) -> (r: String)
    ensures
        r@ == trim_of(printed(*out)),
        output_decodes(*out),
{
    trim(stdout_or_empty(out).as_str())
}

// ---------------------------------------------------------------------------
// Laws
// ---------------------------------------------------------------------------

/// Memory that is available is not in use, and the two make up the total.
pub proof fn law_memory_adds_up(raw: Option<String>)
    requires
        mem_fits(raw),
        mem_of(raw) is Some,
        mem_of(raw).unwrap().available <= mem_of(raw).unwrap().total,
    ensures
        mem_of(raw).unwrap().used + mem_of(raw).unwrap().available == mem_of(raw).unwrap().total,
{
}

/// A host's name is what stands before the first zero byte of the buffer,
/// whatever stands behind that. Without a zero byte the name may be cut off, so
/// it is unknown, as it is without a buffer.
pub proof fn law_name_ends_at_the_first_zero(
    name: Seq<u8>,
    rest: Seq<u8>,
    filled: Vec<u8>,
    full: Vec<u8>,
)
    requires
        forall|i: int| 0 <= i < name.len() ==> #[trigger] name[i] != 0,
        filled@ == name.push(0) + rest,
        full@ == name,
    ensures
        host_of(Some(filled)) == utf8_lossy(name),
        host_of(Some(full)) == "unknown"@,
        host_of(None) == "unknown"@,
{
    let n = name.len();
    assert forall|i: int| 0 <= i < n implies #[trigger] filled@[i] != 0 by {
        assert(filled@[i] == name[i]);
    }
    lemma_before_nul(filled@, n);
    lemma_before_nul(full@, n);
    assert(filled@.take(n as int) =~= name);
}

/// Days, hours and minutes make up the time since boot, but for the seconds.
pub proof fn law_uptime_adds_up(days: nat, hours: nat, minutes: nat, seconds: nat)
    requires
        hours < 24,
        minutes < 60,
        seconds < 60,
        86400 * days + 3600 * hours + 60 * minutes + seconds <= u64::MAX,
    ensures
        uptime_text((86400 * days + 3600 * hours + 60 * minutes + seconds) as u64) == decimal(days)
            + "d "@ + (decimal(hours) + "h "@ + (decimal(minutes) + "m"@)),
{
    let secs: nat = 86400 * days + 3600 * hours + 60 * minutes + seconds;
    assert(secs / 86400 == days);
    assert(secs % 86400 == 3600 * hours + 60 * minutes + seconds);
    assert(secs % 3600 == 60 * minutes + seconds);
}

/// Of some texts the first ones are kept, in order: as many as are wanted, or
/// all of them.
pub proof fn law_first_ones_are_kept(parts: Seq<Seq<char>>, n: int, i: int)
    requires
        0 <= n,
    ensures
        at_most(parts, n).len() == (if parts.len() < n {
            parts.len() as int
        } else {
            n
        }),
        0 <= i < at_most(parts, n).len() ==> at_most(parts, n)[i] == parts[i],
{
}

/// One line more is one processor more if it starts with `processor`, and none
/// more otherwise.
pub proof fn law_processors_are_counted(lines: Seq<Seq<char>>, rest: Seq<char>, other: Seq<char>)
    requires
        other.len() < 9 || other.take(9) != "processor"@,
    ensures
        count_starting(seq![], "processor"@) == 0,
        count_starting(lines.push("processor"@ + rest), "processor"@) == count_starting(
            lines,
            "processor"@,
        ) + 1,
        count_starting(lines.push(other), "processor"@) == count_starting(lines, "processor"@),
{
    reveal_strlit("processor");
    law_beginning("processor"@, rest, other);
    assert(lines.push("processor"@ + rest).drop_last() =~= lines);
    assert(lines.push(other).drop_last() =~= lines);
}

/// There is always a processor; beyond that there are as many as are listed.
pub proof fn law_there_is_a_processor(raw: String)
    ensures
        cpus_of(None) == 1,
        count_starting(lines_of(raw@), "processor"@) == 0 ==> cpus_of(Some(raw)) == 1,
        count_starting(lines_of(raw@), "processor"@) > 0 ==> cpus_of(Some(raw)) == count_starting(
            lines_of(raw@),
            "processor"@,
        ),
{
}

proof fn lemma_decimal_is_a_word(n: nat)
    ensures
        decimal(n).len() > 0,
        none_white(decimal(n)),
{
    law_decimal_denotes_the_number(n);
    assert forall|i: int| 0 <= i < decimal(n).len() implies !is_white(#[trigger] decimal(n)[i]) by {
        law_white_space(decimal(n)[i]);
    }
}

/// The number behind a label is read, whatever white space stands in front of
/// the label and whatever words behind the number. A line with another label
/// changes nothing.
pub proof fn law_labelled_number_is_read(
    lines: Seq<Seq<char>>,
    lead: Seq<char>,
    label: Seq<char>,
    n: u64,
    unit: Seq<char>,
    other: Seq<char>,
)
    requires
        all_white(lead),
        label.len() > 0 && none_white(label),
        unit.len() > 0 && none_white(unit),
        other.len() > 0 && none_white(other),
        other != label,
    ensures
        labelled(seq![], label) is None,
        labelled(
            lines.push(lead + join_of(seq![label, decimal(n as nat), unit], " "@)),
            label,
        ) == Some(n),
        labelled(
            lines.push(lead + join_of(seq![other, decimal(n as nat), unit], " "@)),
            label,
        ) == labelled(lines, label),
{
    lemma_decimal_is_a_word(n as nat);
    law_decimal_is_read_back(n);
    let a = seq![label, decimal(n as nat), unit];
    let b = seq![other, decimal(n as nat), unit];
    law_white_space_in_front_is_no_word(lead, a);
    law_white_space_in_front_is_no_word(lead, b);
    let x = lead + join_of(a, " "@);
    let y = lead + join_of(b, " "@);
    assert(lines.push(x).last() == x);
    assert(lines.push(y).last() == y);
    assert(lines.push(y).drop_last() =~= lines);
}

/// The memory is told in bytes of what is labelled as the total and as the
/// available memory in KiB; if either is missing, nothing is told.
pub proof fn law_memory_is_told_in_bytes(raw: String)
    requires
        mem_fits(Some(raw)),
    ensures
        ({
            let total = labelled(lines_of(raw@), "MemTotal:"@);
            let available = labelled(lines_of(raw@), "MemAvailable:"@);
            let told = mem_of(Some(raw));
            &&& told is Some <==> total is Some && available is Some
            &&& told matches Some(m) ==> {
                &&& m.total == 1024 * total->0
                &&& m.available == 1024 * available->0
                &&& m.used == (if total->0 > available->0 {
                    1024 * total->0 - 1024 * available->0
                } else {
                    0
                })
            }
        }),
        mem_of(None) is None,
{
}

/// The bytes of a file system are taken or free. Which share is taken of what
/// ordinary users can have is told in whole percent, rounded down.
pub proof fn law_disk_adds_up(fs: FileSystem)
    requires
        fs.fits(),
        fs.free <= fs.blocks,
        fs.available <= fs.free,
        0 < fs.block_size,
    ensures
        ({
            let d = disk_of(fs);
            let reachable = d.used + fs.available * fs.block_size;
            &&& d.total == fs.blocks * fs.block_size
            &&& d.used + fs.free * fs.block_size == d.total
            &&& d.percent_used <= 100
            &&& reachable > 0 ==> d.percent_used * reachable <= 100 * d.used < (d.percent_used + 1)
                * reachable
            &&& reachable == 0 ==> d.percent_used == 0
        }),
{
    let d = disk_of(fs);
    let (b, f, a, z) = (
        fs.blocks as int,
        fs.free as int,
        fs.available as int,
        fs.block_size as int,
    );
    assert((b - f) * z == b * z - f * z) by (nonlinear_arith);
    assert(f * z <= b * z) by (nonlinear_arith)
        requires
            f <= b,
            0 < z,
    ;
    assert(0 <= f * z && 0 <= a * z) by (nonlinear_arith)
        requires
            0 <= f,
            0 <= a,
            0 < z,
    ;
    let used = fs.used() as int;
    assert(used == b * z - f * z);
    let reachable = used + a * z;
    if b * z == 0 {
        assert(b == 0) by (nonlinear_arith)
            requires
                b * z == 0,
                0 < z,
        ;
        assert(a * z == 0) by (nonlinear_arith)
            requires
                a == 0,
        ;
    } else if reachable > 0 {
        let p = used * 100 / reachable;
        vstd::arithmetic::div_mod::lemma_fundamental_div_mod(used * 100, reachable);
        assert(reachable * p == p * reachable) by (nonlinear_arith);
        assert((p + 1) * reachable == p * reachable + reachable) by (nonlinear_arith);
        assert(p <= 100) by (nonlinear_arith)
            requires
                p * reachable <= used * 100,
                used <= reachable,
                reachable > 0,
        ;
        assert(p >= 0) by (nonlinear_arith)
            requires
                (p + 1) * reachable > used * 100,
                used >= 0,
                reachable > 0,
        ;
    }
}

/// The share of the memory that is used is told to the nearest percent, but for
/// what two divisions are off: a few parts in two to the power of 53.
pub proof fn law_percent_is_near(used: u64, total: u64)
    requires
        used <= total,
        0 < total < 0x20_0000_0000_0000,
    ensures
        ({
            let p = percent_of(used, total);
            &&& p <= 100
            &&& 0x40_0000_0000_0000 * (100 * used - total * p) <= 600 * used + 0x20_0000_0000_0000
                * total
            &&& 0x40_0000_0000_0000 * (total * p - 100 * used) <= 600 * used + 0x20_0000_0000_0000
                * total
        }),
        percent_of(used, used) == 100 || used == 0,
{
    let (u, t) = (used as nat, total as nat);
    lemma_percent_is_near(u, t);
    law_small_integers_are_doubles(u);
    law_small_integers_are_doubles(t);
    let p = rounded_percent(u, t) as int;
    if p > 100 {
        assert(t * p - 100 * u >= t) by (nonlinear_arith)
            requires
                p >= 101,
                u <= t,
        ;
        assert(0x40_0000_0000_0000 * t <= 600 * u + 0x20_0000_0000_0000 * t);
        assert(false);
    }
    if used > 0 {
        lemma_percent_is_near(u, u);
        let r = rounded_percent(u, u) as int;
        assert(r >= 100) by (nonlinear_arith)
            requires
                0x40_0000_0000_0000 * (100 * u - u * r) <= 600 * u + 0x20_0000_0000_0000 * u,
                u > 0,
        ;
    }
}

spec fn rounded_percent(u: nat, t: nat) -> nat {
    let share = nearest_double(u, t);
    let percent = nearest_double(100 * share.0, share.1);
    (2 * percent.0 + percent.1) / (2 * percent.1)
}

proof fn lemma_percent_is_near(u: nat, t: nat)
    requires
        u <= t,
        0 < t,
    ensures
        ({
            let r = rounded_percent(u, t);
            &&& 0x40_0000_0000_0000 * (100 * u - t * r) <= 600 * u + 0x20_0000_0000_0000 * t
            &&& 0x40_0000_0000_0000 * (t * r - 100 * u) <= 600 * u + 0x20_0000_0000_0000 * t
        }),
{
    let s = nearest_double(u, t);
    law_nearest_double_is_near(u, t);
    let a = 100 * s.0;
    let p = nearest_double(a, s.1);
    law_nearest_double_is_near(a, s.1);
    let r = rounded_percent(u, t);
    vstd::arithmetic::div_mod::lemma_fundamental_div_mod((2 * p.0 + p.1) as int, (2 * p.1) as int);
    assert((2 * p.1) * r == 2 * (p.1 * r)) by (nonlinear_arith);
    assert(2 * (p.0 - p.1 * r) <= p.1 && 2 * (p.1 * r - p.0) <= p.1);
    // Everything over the common denominator.
    let (x, y) = (u * s.1, t * s.0);
    assert(0x20_0000_0000_0000 * (x - y) <= x && 0x20_0000_0000_0000 * (y - x) <= x);
    let c = s.1 * p.1;
    let (ux, ty, tz, tr) = (u * c, t * (s.0 * p.1), t * (s.1 * p.0), t * (r * c));
    assert(ux == x * p.1) by (nonlinear_arith)
        requires
            ux == u * c,
            c == s.1 * p.1,
            x == u * s.1,
    ;
    assert(ty == y * p.1) by (nonlinear_arith)
        requires
            ty == t * (s.0 * p.1),
            y == t * s.0,
    ;
    assert(0x20_0000_0000_0000 * (ux - ty) <= ux && 0x20_0000_0000_0000 * (ty - ux) <= ux)
        by (nonlinear_arith)
        requires
            0x20_0000_0000_0000 * (x - y) <= x,
            0x20_0000_0000_0000 * (y - x) <= x,
            ux == x * p.1,
            ty == y * p.1,
            p.1 > 0,
    ;
    assert(0x20_0000_0000_0000 * (100 * ty - tz) <= 100 * ty && 0x20_0000_0000_0000 * (tz - 100
        * ty) <= 100 * ty) by (nonlinear_arith)
        requires
            0x20_0000_0000_0000 * (a * p.1 - s.1 * p.0) <= a * p.1,
            0x20_0000_0000_0000 * (s.1 * p.0 - a * p.1) <= a * p.1,
            a == 100 * s.0,
            ty == t * (s.0 * p.1),
            tz == t * (s.1 * p.0),
    ;
    let tc = t * c;
    assert(2 * (tz - tr) <= tc && 2 * (tr - tz) <= tc) by (nonlinear_arith)
        requires
            2 * (p.0 - p.1 * r) <= p.1,
            2 * (p.1 * r - p.0) <= p.1,
            tz == t * (s.1 * p.0),
            tr == t * (r * c),
            c == s.1 * p.1,
            tc == t * c,
    ;
    assert(ty <= 2 * ux);
    assert(0x40_0000_0000_0000 * (100 * ux - tr) <= 600 * ux + 0x20_0000_0000_0000 * tc);
    assert(0x40_0000_0000_0000 * (tr - 100 * ux) <= 600 * ux + 0x20_0000_0000_0000 * tc);
    assert(c > 0) by (nonlinear_arith)
        requires
            s.1 > 0,
            p.1 > 0,
            c == s.1 * p.1,
    ;
    assert(0x40_0000_0000_0000 * (100 * u - t * r) <= 600 * u + 0x20_0000_0000_0000 * t)
        by (nonlinear_arith)
        requires
            0x40_0000_0000_0000 * (100 * ux - tr) <= 600 * ux + 0x20_0000_0000_0000 * tc,
            ux == u * c,
            tr == t * (r * c),
            tc == t * c,
            c > 0,
    ;
    assert(0x40_0000_0000_0000 * (t * r - 100 * u) <= 600 * u + 0x20_0000_0000_0000 * t)
        by (nonlinear_arith)
        requires
            0x40_0000_0000_0000 * (tr - 100 * ux) <= 600 * ux + 0x20_0000_0000_0000 * tc,
            ux == u * c,
            tr == t * (r * c),
            tc == t * c,
            c > 0,
    ;
}

/// A size is told in the greatest unit that it reaches: as a whole number of
/// bytes, or to the nearest tenth of a unit that is 1024 times the one before.
pub proof fn law_sizes_are_told_in_binary_units(bytes: u64)
    requires
        bytes < 0x20_0000_0000_0000,
    ensures
        bytes < 1024 ==> bytes_text(bytes) == decimal(bytes as nat) + "B"@,
        1024 <= bytes < 1024 * 1024 ==> told_in(bytes, 1024, "Ki"@),
        1024 * 1024 <= bytes < 1024 * 1024 * 1024 ==> told_in(bytes, 1024 * 1024, "Mi"@),
        1024 * 1024 * 1024 <= bytes < 1024 * 1024 * 1024 * 1024 ==> told_in(
            bytes,
            1024 * 1024 * 1024,
            "Gi"@,
        ),
        1024 * 1024 * 1024 * 1024 <= bytes ==> told_in(bytes, 1024 * 1024 * 1024 * 1024, "Ti"@),
{
    law_small_integers_are_doubles(bytes as nat);
    let n = 10 * bytes as nat;
    let unit: nat = if bytes < 1024 * 1024 {
        0x400
    } else if bytes < 1024 * 1024 * 1024 {
        0x10_0000
    } else if bytes < 1024 * 1024 * 1024 * 1024 {
        0x4000_0000
    } else {
        0x100_0000_0000
    };
    law_nearest_integer_is_near(n, unit);
    let t = nearest_integer(n, unit);
    assert(unit * t == t * unit) by (nonlinear_arith);
    assert(near_tenths(bytes, unit, t));
}

/// Whether so many tenths of a unit are as near to a size as tenths can be.
pub open spec fn near_tenths(bytes: u64, unit: nat, tenths: nat) -> bool {
    &&& 2 * (10 * bytes - tenths * unit) <= unit
    &&& 2 * (tenths * unit - 10 * bytes) <= unit
}

/// Whether a size is told to the nearest tenth of a unit.
pub open spec fn told_in(bytes: u64, unit: nat, name: Seq<char>) -> bool {
    exists|t: nat| #[trigger]
        near_tenths(bytes, unit, t) && bytes_text(bytes) == tenths_text(t) + name
}

/// Numbers of an ordinary machine can be told: memory of less than two to the
/// power of 54 KiB, and a file system of at most two to the power of 56 bytes.
pub proof fn law_ordinary_numbers_fit(raw: String, fs: FileSystem)
    ensures
        mem_fits(None),
        ({
            let total = labelled(lines_of(raw@), "MemTotal:"@);
            let available = labelled(lines_of(raw@), "MemAvailable:"@);
            (total is None || total->0 < 0x40_0000_0000_0000) && (available is None || available->0
                < 0x40_0000_0000_0000)
        }) ==> mem_fits(Some(raw)),
        fs.blocks * fs.block_size <= 0x100_0000_0000_0000 && fs.available <= fs.free <= fs.blocks
            ==> fs.fits(),
{
    if fs.blocks * fs.block_size <= 0x100_0000_0000_0000 && fs.available <= fs.free <= fs.blocks {
        let (b, f, a, z) = (
            fs.blocks as int,
            fs.free as int,
            fs.available as int,
            fs.block_size as int,
        );
        assert(0 <= a * z <= f * z && f * z <= b * z && (b - f) * z == b * z - f * z)
            by (nonlinear_arith)
            requires
                0 <= a <= f <= b,
                0 <= z,
        ;
    }
}

} // verus!
