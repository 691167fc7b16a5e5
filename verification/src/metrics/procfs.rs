//! Parsers for the `/proc` text files.
use std::collections::HashMap;
use vstd::prelude::*;
use crate::text::{
    all_digits, byte_seqs, chars_of, copy_range, decimal, file_name, find_char, first_index,
    is_ascii_digit, is_digit, join, last_index, lines, lossy_utf8, parse_i64, parse_u32,
    parse_u64, path_file_name, pieces, push_decimal, rfind_char, seqs, spec_parse_i64,
    spec_parse_u32, spec_parse_u64, split_byte, split_lines, split_whitespace, starts_with_str,
    string_from, trim, trim_chars, utf8_lossy_chars, words, join_path, join_path_text, split_char,
    join_chars,
};
use super::model::{
    CpuCounters, ProcessKey, RawDiskSample, RawNetworkSample, RawProcessSample, RawSwapSample,
    views,
};

verus! {

/// Why a `/proc` file could not be read as expected.
#[derive(Clone, Debug, PartialEq, Eq)]
pub enum ProcfsError {
    /// `/proc/stat` holds no `cpu` line with enough counters.
    NoCpuCounters,
    /// `/proc/meminfo` has no readable `MemTotal`.
    MemTotalMissing,
    /// `/proc/meminfo` has no readable `MemAvailable`.
    MemAvailableMissing,
    /// A counter of `/proc/net/dev` is not an unsigned integer.
    NetDevCounter,
    /// The read-sectors field of the named disk is not an unsigned integer.
    DiskReadSectors { disk: String },
    /// The write-sectors field of the named disk is not an unsigned integer.
    DiskWriteSectors { disk: String },
    /// The size field of the named swap area is not an unsigned integer.
    SwapSize { name: String },
    /// The used field of the named swap area is not an unsigned integer.
    SwapUsed { name: String },
    /// `/proc/uptime` holds no seconds field.
    UptimeMissing,
}

/// `ProcfsError` with its names as character sequences.
pub enum ProcfsErrorView {
    NoCpuCounters,
    MemTotalMissing,
    MemAvailableMissing,
    NetDevCounter,
    DiskReadSectors(Seq<char>),
    DiskWriteSectors(Seq<char>),
    SwapSize(Seq<char>),
    SwapUsed(Seq<char>),
    UptimeMissing,
}

impl View for ProcfsError {
    type V = ProcfsErrorView;

    open spec fn view(&self) -> ProcfsErrorView {
        match self {
            ProcfsError::NoCpuCounters => ProcfsErrorView::NoCpuCounters,
            ProcfsError::MemTotalMissing => ProcfsErrorView::MemTotalMissing,
            ProcfsError::MemAvailableMissing => ProcfsErrorView::MemAvailableMissing,
            ProcfsError::NetDevCounter => ProcfsErrorView::NetDevCounter,
            ProcfsError::DiskReadSectors { disk } => ProcfsErrorView::DiskReadSectors(disk@),
            ProcfsError::DiskWriteSectors { disk } => ProcfsErrorView::DiskWriteSectors(disk@),
            ProcfsError::SwapSize { name } => ProcfsErrorView::SwapSize(name@),
            ProcfsError::SwapUsed { name } => ProcfsErrorView::SwapUsed(name@),
            ProcfsError::UptimeMissing => ProcfsErrorView::UptimeMissing,
        }
    }
}

pub struct CpuStatSnapshot {
    pub overall: CpuCounters,
    pub per_cpu: Vec<CpuCounters>,
}

pub struct RawMemoryInfo {
    pub total_bytes: u64,
    pub available_bytes: u64,
    pub swap_total_bytes: u64,
    pub swap_free_bytes: u64,
}

pub open spec fn seq_sum(s: Seq<u64>) -> nat
    decreases s.len(),
{
    if s.len() == 0 {
        0
    } else {
        seq_sum(s.drop_last()) + s.last() as nat
    }
}

/// The counters of a `cpu` line: every word after the name that parses as
/// an unsigned integer, when the line is a `cpu` or `cpuN` line with at least
/// four of them.
pub open spec fn cpu_line_values(line: Seq<char>) -> Option<Seq<u64>> {
    let ws = words(line);
    if !"cpu"@.is_prefix_of(line) || ws.len() == 0 {
        None
    } else if !(ws[0].len() >= 3 && all_digits(ws[0].skip(3))) {
        None
    } else {
        let vals = ws.skip(1).filter_map(|w: Seq<char>| spec_parse_u64(w));
        if vals.len() < 4 {
            None
        } else {
            Some(vals)
        }
    }
}

/// The idle count (idle plus iowait) and the total of a `cpu` line.
pub open spec fn cpu_line_counters(line: Seq<char>) -> Option<CpuCounters> {
    match cpu_line_values(line) {
        Some(vals) => Some(
            CpuCounters {
                idle: (vals[3] + if vals.len() > 4 {
                    vals[4] as int
                } else {
                    0
                }) as u64,
                total: seq_sum(vals) as u64,
            },
        ),
        None => None,
    }
}

/// The counters of every `cpu` line of `/proc/stat`, in order.
pub open spec fn stat_counters(content: Seq<char>) -> Seq<CpuCounters> {
    lines(content).filter_map(|l: Seq<char>| cpu_line_counters(l))
}

/// The sums of every `cpu` line fit in 64 bits (a larger one overflows).
pub open spec fn proc_stat_fits(content: Seq<char>) -> bool {
    forall|i: int|
        0 <= i < lines(content).len() ==> match #[trigger] cpu_line_values(lines(content)[i]) {
            Some(vals) => seq_sum(vals) <= u64::MAX,
            None => true,
        }
}

proof fn lemma_seq_sum_prefix(s: Seq<u64>, i: int)
    requires
        0 <= i <= s.len(),
    ensures
        seq_sum(s.take(i)) <= seq_sum(s),
    decreases s.len() - i,
{
    if i < s.len() {
        lemma_seq_sum_prefix(s, i + 1);
        assert(s.take(i + 1).drop_last() =~= s.take(i));
    } else {
        assert(s.take(i) =~= s);
    }
}

proof fn lemma_seq_sum_ge_two(s: Seq<u64>)
    requires
        s.len() >= 4,
    ensures
        s[3] + (if s.len() > 4 {
            s[4] as int
        } else {
            0
        }) <= seq_sum(s),
    decreases s.len(),
{
    if s.len() > 5 {
        lemma_seq_sum_ge_two(s.drop_last());
    } else if s.len() == 5 {
        lemma_seq_sum_prefix(s.drop_last(), 3);
        assert(s.drop_last().take(3).len() == 3);
        assert(seq_sum(s.drop_last().drop_last()) >= 0);
    } else {
        assert(seq_sum(s.drop_last()) >= 0);
    }
}

fn sum_values(v: &Vec<u64>) -> (r: u64)
    requires
        seq_sum(v@) <= u64::MAX,
    ensures
        r == seq_sum(v@),
{
    let mut total: u64 = 0;
    let mut i: usize = 0;
    while i < v.len()
        invariant
            i <= v@.len(),
            seq_sum(v@) <= u64::MAX,
            total == seq_sum(v@.take(i as int)),
        decreases v@.len() - i,
    {
        proof {
            assert(v@.take(i + 1).drop_last() =~= v@.take(i as int));
            lemma_seq_sum_prefix(v@, i + 1);
        }
        total = total + v[i];
        i = i + 1;
    }
    assert(v@.take(i as int) =~= v@);
    total
}

/// The counters of a `cpu` line (`cpu_line_values`).
#[verifier::loop_isolation(false)]
fn cpu_line_values_of(line: &[char]) -> (r: Option<Vec<u64>>)
    ensures
        match r {
            Some(v) => cpu_line_values(line@) == Some(v@),
            None => cpu_line_values(line@) is None,
        },
{
    if !starts_with_str(line, "cpu") {
        return None;
    }
    let ws = split_whitespace(line);
    if ws.len() == 0 {
        return None;
    }
    let name = &ws[0];
    assert(seqs(ws@)[0] == name@);
    if name.len() < 3 {
        return None;
    }
    let mut k: usize = 3;
    while k < name.len()
        invariant
            3 <= k <= name@.len(),
            forall|j: int| 3 <= j < k ==> is_digit(#[trigger] name@[j]),
        decreases name@.len() - k,
    {
        if !is_ascii_digit(name[k]) {
            assert(!is_digit(name@.skip(3)[k - 3]));
            return None;
        }
        k = k + 1;
    }
    assert(all_digits(name@.skip(3))) by {
        assert forall|j: int| 0 <= j < name@.skip(3).len() implies is_digit(
            #[trigger] name@.skip(3)[j],
        ) by {
            assert(name@.skip(3)[j] == name@[j + 3]);
        }
    }
    let ghost f = |w: Seq<char>| spec_parse_u64(w);
    let mut vals: Vec<u64> = Vec::new();
    let mut i: usize = 1;
    while i < ws.len()
        invariant
            1 <= i <= ws@.len(),
            seqs(ws@) == words(line@),
            vals@ == seqs(ws@).subrange(1, i as int).filter_map(f),
        decreases ws@.len() - i,
    {
        assert(seqs(ws@).subrange(1, i + 1).drop_last() =~= seqs(ws@).subrange(1, i as int));
        assert(seqs(ws@).subrange(1, i + 1).last() == ws@[i as int]@);
        match parse_u64(&ws[i]) {
            Some(v) => {
                vals.push(v);
            },
            None => {},
        }
        assert(vals@ =~= seqs(ws@).subrange(1, i + 1).filter_map(f));
        i = i + 1;
    }
    assert(seqs(ws@).subrange(1, ws@.len() as int) =~= words(line@).skip(1));
    if vals.len() < 4 {
        return None;
    }
    Some(vals)
}

fn cpu_line(line: &[char]) -> (r: Option<CpuCounters>)
    requires
        match cpu_line_values(line@) {
            Some(vals) => seq_sum(vals) <= u64::MAX,
            None => true,
        },
    ensures
        r == cpu_line_counters(line@),
{
    let vals = match cpu_line_values_of(line) {
        Some(v) => v,
        None => {
            return None;
        },
    };
    proof {
        lemma_seq_sum_ge_two(vals@);
    }
    let idle = vals[3] + if vals.len() > 4 {
        vals[4]
    } else {
        0
    };
    let total = sum_values(&vals);
    Some(CpuCounters { idle, total })
}

/// Whether the values add up within 64 bits.
fn sum_fits(v: &Vec<u64>) -> (r: bool)
    ensures
        r == (seq_sum(v@) <= u64::MAX),
{
    let mut total: u64 = 0;
    let mut i: usize = 0;
    while i < v.len()
        invariant
            i <= v@.len(),
            total == seq_sum(v@.take(i as int)),
        decreases v@.len() - i,
    {
        assert(v@.take(i + 1).drop_last() =~= v@.take(i as int));
        match total.checked_add(v[i]) {
            Some(t) => {
                total = t;
            },
            None => {
                proof {
                    lemma_seq_sum_prefix(v@, i + 1);
                }
                return false;
            },
        }
        i = i + 1;
    }
    assert(v@.take(i as int) =~= v@);
    true
}

/// Whether every `cpu` line of the text sums within 64 bits
/// (`proc_stat_fits`), so that `parse_proc_stat` may read it.
#[verifier::loop_isolation(false)]
pub fn proc_stat_is_readable(content: &str) -> (r: bool)
    ensures
        r == proc_stat_fits(content@),
{
    let chars = chars_of(content);
    let ls = split_lines(&chars);
    let mut i: usize = 0;
    while i < ls.len()
        invariant
            i <= ls@.len(),
            seqs(ls@) == lines(content@),
            forall|j: int|
                0 <= j < i ==> match #[trigger] cpu_line_values(lines(content@)[j]) {
                    Some(vals) => seq_sum(vals) <= u64::MAX,
                    None => true,
                },
        decreases ls@.len() - i,
    {
        assert(seqs(ls@)[i as int] == ls@[i as int]@);
        match cpu_line_values_of(&ls[i]) {
            Some(vals) => {
                if !sum_fits(&vals) {
                    assert(cpu_line_values(lines(content@)[i as int]) == Some(vals@));
                    return false;
                }
            },
            None => {},
        }
        i = i + 1;
    }
    true
}

/// Reads `/proc/stat`: the first `cpu` line is the machine total, the others
/// are the CPUs in order.
#[verifier::loop_isolation(false)]
pub fn parse_proc_stat(content: &str) -> (r: Result<CpuStatSnapshot, ProcfsError>)
    requires
        proc_stat_fits(content@),
    ensures
        match r {
            Ok(snapshot) => {
                &&& stat_counters(content@).len() > 0
                &&& snapshot.overall == stat_counters(content@)[0]
                &&& snapshot.per_cpu@ == stat_counters(content@).skip(1)
            },
            Err(e) => stat_counters(content@).len() == 0 && e == ProcfsError::NoCpuCounters,
        },
{
    let chars = chars_of(content);
    let ls = split_lines(&chars);
    let ghost f = |l: Seq<char>| cpu_line_counters(l);
    let mut counters: Vec<CpuCounters> = Vec::new();
    let mut i: usize = 0;
    while i < ls.len()
        invariant
            i <= ls@.len(),
            seqs(ls@) == lines(content@),
            proc_stat_fits(content@),
            counters@ == seqs(ls@).take(i as int).filter_map(f),
        decreases ls@.len() - i,
    {
        assert(seqs(ls@).take(i + 1).drop_last() =~= seqs(ls@).take(i as int));
        assert(seqs(ls@)[i as int] == ls@[i as int]@);
        assert(seqs(ls@).take(i + 1).last() == ls@[i as int]@);
        let ghost _ = cpu_line_values(lines(content@)[i as int]);
        match cpu_line(&ls[i]) {
            Some(c) => {
                counters.push(c);
            },
            None => {},
        }
        assert(counters@ =~= seqs(ls@).take(i + 1).filter_map(f));
        i = i + 1;
    }
    assert(seqs(ls@).take(i as int) =~= lines(content@));
    if counters.len() == 0 {
        return Err(ProcfsError::NoCpuCounters);
    }
    let overall = counters[0];
    let mut per_cpu: Vec<CpuCounters> = Vec::new();
    let mut j: usize = 1;
    while j < counters.len()
        invariant
            1 <= j <= counters@.len(),
            per_cpu@ == counters@.subrange(1, j as int),
        decreases counters@.len() - j,
    {
        per_cpu.push(counters[j]);
        assert(per_cpu@ =~= counters@.subrange(1, j + 1));
        j = j + 1;
    }
    assert(per_cpu@ =~= counters@.skip(1));
    Ok(CpuStatSnapshot { overall, per_cpu })
}


/// The number of kibibytes at the start of a `/proc/meminfo` value.
pub open spec fn kib_value(value: Seq<char>) -> Option<u64> {
    let ws = words(value);
    if ws.len() > 0 {
        spec_parse_u64(ws[0])
    } else {
        None
    }
}

/// The value of the last line that starts with `key`.
pub open spec fn meminfo_field(ls: Seq<Seq<char>>, key: Seq<char>) -> Option<u64>
    decreases ls.len(),
{
    if ls.len() == 0 {
        None
    } else if key.is_prefix_of(ls.last()) {
        kib_value(ls.last().skip(key.len() as int))
    } else {
        meminfo_field(ls.drop_last(), key)
    }
}

pub open spec fn kib_fits(v: Option<u64>) -> bool {
    match v {
        Some(k) => k * 1024 <= u64::MAX,
        None => true,
    }
}

pub open spec fn kib_bytes(v: Option<u64>) -> u64 {
    match v {
        Some(k) => (k * 1024) as u64,
        None => 0,
    }
}

/// The fields that the conversion to bytes reaches fit in 64 bits once
/// multiplied by 1024 (a larger one overflows).
pub open spec fn meminfo_fits(content: Seq<char>) -> bool {
    let ls = lines(content);
    let total = meminfo_field(ls, "MemTotal:"@);
    let available = meminfo_field(ls, "MemAvailable:"@);
    total is None || (kib_fits(total) && (available is None || (kib_fits(available) && kib_fits(
        meminfo_field(ls, "SwapTotal:"@),
    ) && kib_fits(meminfo_field(ls, "SwapFree:"@)))))
}

/// The number of kibibytes at the start of a `/proc/meminfo` value.
pub fn parse_meminfo_kib(value: &[char]) -> (r: Option<u64>)
    ensures
        r == kib_value(value@),
{
    let ws = split_whitespace(value);
    if ws.len() == 0 {
        return None;
    }
    assert(seqs(ws@)[0] == ws@[0]@);
    parse_u64(&ws[0])
}

/// The value after `key` when `line` starts with it.
fn meminfo_line_value(line: &[char], key: &str) -> (r: Option<Option<u64>>)
    ensures
        match r {
            Some(v) => key@.is_prefix_of(line@) && v == kib_value(line@.skip(key@.len() as int)),
            None => !key@.is_prefix_of(line@),
        },
{
    if !starts_with_str(line, key) {
        return None;
    }
    let k = chars_of(key);
    let rest = copy_range(line, k.len(), line.len());
    assert(rest@ =~= line@.skip(key@.len() as int));
    Some(parse_meminfo_kib(&rest))
}

/// The `MemTotal`, `MemAvailable`, `SwapTotal` and `SwapFree` values of
/// `/proc/meminfo`, in kibibytes.
#[verifier::loop_isolation(false)]
fn meminfo_fields(content: &str) -> (r: (Option<u64>, Option<u64>, Option<u64>, Option<u64>))
    ensures
        r.0 == meminfo_field(lines(content@), "MemTotal:"@),
        r.1 == meminfo_field(lines(content@), "MemAvailable:"@),
        r.2 == meminfo_field(lines(content@), "SwapTotal:"@),
        r.3 == meminfo_field(lines(content@), "SwapFree:"@),
{
    let chars = chars_of(content);
    let ls = split_lines(&chars);
    let mut total_kib: Option<u64> = None;
    let mut available_kib: Option<u64> = None;
    let mut swap_total_kib: Option<u64> = None;
    let mut swap_free_kib: Option<u64> = None;
    let mut i: usize = 0;
    while i < ls.len()
        invariant
            i <= ls@.len(),
            seqs(ls@) == lines(content@),
            total_kib == meminfo_field(seqs(ls@).take(i as int), "MemTotal:"@),
            available_kib == meminfo_field(seqs(ls@).take(i as int), "MemAvailable:"@),
            swap_total_kib == meminfo_field(seqs(ls@).take(i as int), "SwapTotal:"@),
            swap_free_kib == meminfo_field(seqs(ls@).take(i as int), "SwapFree:"@),
        decreases ls@.len() - i,
    {
        assert(seqs(ls@).take(i + 1).drop_last() =~= seqs(ls@).take(i as int));
        assert(seqs(ls@).take(i + 1).last() == ls@[i as int]@);
        let line = &ls[i];
        match meminfo_line_value(line, "MemTotal:") {
            Some(v) => {
                total_kib = v;
            },
            None => {},
        }
        match meminfo_line_value(line, "MemAvailable:") {
            Some(v) => {
                available_kib = v;
            },
            None => {},
        }
        match meminfo_line_value(line, "SwapTotal:") {
            Some(v) => {
                swap_total_kib = v;
            },
            None => {},
        }
        match meminfo_line_value(line, "SwapFree:") {
            Some(v) => {
                swap_free_kib = v;
            },
            None => {},
        }
        i = i + 1;
    }
    assert(seqs(ls@).take(i as int) =~= lines(content@));
    (total_kib, available_kib, swap_total_kib, swap_free_kib)
}

fn kib_fits_exec(v: Option<u64>) -> (r: bool)
    ensures
        r == kib_fits(v),
{
    match v {
        Some(k) => k <= u64::MAX / 1024,
        None => true,
    }
}

/// Whether the fields that `parse_meminfo` converts to bytes fit in 64
/// bits once multiplied by 1024 (`meminfo_fits`).
pub fn meminfo_is_readable(content: &str) -> (r: bool)
    ensures
        r == meminfo_fits(content@),
{
    let (total, available, swap_total, swap_free) = meminfo_fields(content);
    total.is_none() || (kib_fits_exec(total) && (available.is_none() || (kib_fits_exec(available)
        && kib_fits_exec(swap_total) && kib_fits_exec(swap_free))))
}

/// Reads `/proc/meminfo` into bytes; the swap fields default to zero.
pub fn parse_meminfo(content: &str) -> (r: Result<RawMemoryInfo, ProcfsError>)
    requires
        meminfo_fits(content@),
    ensures
        ({
            let ls = lines(content@);
            let total = meminfo_field(ls, "MemTotal:"@);
            let available = meminfo_field(ls, "MemAvailable:"@);
            match r {
                Ok(info) => {
                    &&& total is Some && available is Some
                    &&& info.total_bytes == kib_bytes(total)
                    &&& info.available_bytes == kib_bytes(available)
                    &&& info.swap_total_bytes == kib_bytes(meminfo_field(ls, "SwapTotal:"@))
                    &&& info.swap_free_bytes == kib_bytes(meminfo_field(ls, "SwapFree:"@))
                },
                Err(e) => if total is None {
                    e == ProcfsError::MemTotalMissing
                } else {
                    available is None && e == ProcfsError::MemAvailableMissing
                },
            }
        }),
{
    let (total_kib, available_kib, swap_total_kib, swap_free_kib) = meminfo_fields(content);
    let total_bytes = match total_kib {
        Some(k) => k * 1024,
        None => {
            return Err(ProcfsError::MemTotalMissing);
        },
    };
    let available_bytes = match available_kib {
        Some(k) => k * 1024,
        None => {
            return Err(ProcfsError::MemAvailableMissing);
        },
    };
    let swap_total_bytes = match swap_total_kib {
        Some(k) => k * 1024,
        None => 0,
    };
    let swap_free_bytes = match swap_free_kib {
        Some(k) => k * 1024,
        None => 0,
    };
    Ok(RawMemoryInfo { total_bytes, available_bytes, swap_total_bytes, swap_free_bytes })
}

/// `u64::saturating_mul`.
pub open spec fn sat_mul(a: u64, b: u64) -> u64 {
    if a * b <= u64::MAX {
        (a * b) as u64
    } else {
        u64::MAX
    }
}

fn saturating_mul(a: u64, b: u64) -> (r: u64)
    ensures
        r == sat_mul(a, b),
{
    match a.checked_mul(b) {
        Some(v) => v,
        None => u64::MAX,
    }
}

/// The lines of `content` after the first `n`.
pub open spec fn lines_after(content: Seq<char>, n: int) -> Seq<Seq<char>> {
    if lines(content).len() <= n {
        Seq::empty()
    } else {
        lines(content).skip(n)
    }
}

pub open spec fn all_parse_u64(ws: Seq<Seq<char>>) -> bool {
    forall|j: int| 0 <= j < ws.len() ==> (#[trigger] spec_parse_u64(ws[j])) is Some
}

/// One line of `/proc/net/dev`: nothing for a line without ':' or with
/// fewer than nine counters, an error when a counter does not parse, else
/// the interface with its received and transmitted bytes.
pub open spec fn net_dev_line(line: Seq<char>) -> Option<Result<(Seq<char>, u64, u64), ()>> {
    match first_index(line, ':') {
        None => None,
        Some(p) => {
            let ws = words(line.skip(p + 1));
            if !all_parse_u64(ws) {
                Some(Err(()))
            } else if ws.len() < 9 {
                None
            } else {
                Some(Ok((trim(line.take(p)), spec_parse_u64(ws[0]).unwrap(), spec_parse_u64(ws[8]).unwrap())))
            }
        },
    }
}

pub open spec fn net_dev_samples(ls: Seq<Seq<char>>) -> Result<Seq<(Seq<char>, u64, u64)>, ()>
    decreases ls.len(),
{
    if ls.len() == 0 {
        Ok(Seq::empty())
    } else {
        match net_dev_samples(ls.drop_last()) {
            Err(e) => Err(e),
            Ok(v) => match net_dev_line(ls.last()) {
                None => Ok(v),
                Some(Err(e)) => Err(e),
                Some(Ok(x)) => Ok(v.push(x)),
            },
        }
    }
}

/// The words of `ws` parsed, or `None` when one of them does not parse.
fn parse_all_u64(ws: &Vec<Vec<char>>) -> (r: Option<Vec<u64>>)
    ensures
        match r {
            Some(v) => all_parse_u64(seqs(ws@)) && v@.len() == ws@.len() && forall|j: int|
                0 <= j < v@.len() ==> Some(#[trigger] v@[j]) == spec_parse_u64(ws@[j]@),
            None => !all_parse_u64(seqs(ws@)),
        },
{
    let mut v: Vec<u64> = Vec::new();
    let mut i: usize = 0;
    while i < ws.len()
        invariant
            i <= ws@.len(),
            v@.len() == i,
            forall|j: int| 0 <= j < i ==> Some(#[trigger] v@[j]) == spec_parse_u64(ws@[j]@),
        decreases ws@.len() - i,
    {
        match parse_u64(&ws[i]) {
            Some(x) => {
                v.push(x);
            },
            None => {
                assert(seqs(ws@)[i as int] == ws@[i as int]@);
                return None;
            },
        }
        i = i + 1;
    }
    assert forall|j: int| 0 <= j < seqs(ws@).len() implies (#[trigger] spec_parse_u64(
        seqs(ws@)[j],
    )) is Some by {
        assert(seqs(ws@)[j] == ws@[j]@);
        assert(Some(v@[j]) == spec_parse_u64(ws@[j]@));
    }
    Some(v)
}

fn net_dev_sample(line: &[char]) -> (r: Option<Result<RawNetworkSample, ProcfsError>>)
    ensures
        match net_dev_line(line@) {
            None => r is None,
            Some(Err(_)) => r == Some(Err::<RawNetworkSample, ProcfsError>(ProcfsError::NetDevCounter)),
            Some(Ok(x)) => r matches Some(Ok(s)) && s@ == x,
        },
{
    let n = line.len();
    let p = match find_char(line, ':') {
        Some(p) => p,
        None => {
            return None;
        },
    };
    let rest = copy_range(line, p + 1, n);
    assert(rest@ =~= line@.skip(p + 1));
    let ws = split_whitespace(&rest);
    let values = match parse_all_u64(&ws) {
        Some(v) => v,
        None => {
            return Some(Err(ProcfsError::NetDevCounter));
        },
    };
    if values.len() < 9 {
        return None;
    }
    let name = copy_range(line, 0, p);
    assert(name@ =~= line@.take(p as int));
    let trimmed = trim_chars(&name);
    assert(seqs(ws@)[0] == ws@[0]@);
    assert(seqs(ws@)[8] == ws@[8]@);
    Some(Ok(RawNetworkSample { name: string_from(&trimmed), rx_bytes: values[0], tx_bytes: values[8] }))
}

/// Reads `/proc/net/dev`: after the two header lines, every `name: counters`
/// line with at least nine counters gives the interface's received (first)
/// and transmitted (ninth) byte counts.
#[verifier::loop_isolation(false)]
pub fn parse_net_dev(content: &str) -> (r: Result<Vec<RawNetworkSample>, ProcfsError>)
    ensures
        match net_dev_samples(lines_after(content@, 2)) {
            Ok(v) => r matches Ok(samples) && views(samples@) == v,
            Err(_) => r == Err::<Vec<RawNetworkSample>, ProcfsError>(ProcfsError::NetDevCounter),
        },
{
    let chars = chars_of(content);
    let ls = split_lines(&chars);
    let mut samples: Vec<RawNetworkSample> = Vec::new();
    if ls.len() <= 2 {
        assert(lines_after(content@, 2) =~= Seq::<Seq<char>>::empty());
        return Ok(samples);
    }
    let mut i: usize = 2;
    assert(seqs(ls@).subrange(2, 2) =~= Seq::<Seq<char>>::empty());
    assert(views(samples@) =~= Seq::<(Seq<char>, u64, u64)>::empty());
    while i < ls.len()
        invariant
            2 <= i <= ls@.len(),
            seqs(ls@) == lines(content@),
            net_dev_samples(seqs(ls@).subrange(2, i as int)) == Ok::<Seq<(Seq<char>, u64, u64)>, ()>(views(samples@)),
        decreases ls@.len() - i,
    {
        assert(seqs(ls@).subrange(2, i + 1).drop_last() =~= seqs(ls@).subrange(2, i as int));
        assert(seqs(ls@).subrange(2, i + 1).last() == ls@[i as int]@);
        let ghost prev = views(samples@);
        match net_dev_sample(&ls[i]) {
            None => {},
            Some(Err(e)) => {
                proof {
                    lemma_net_dev_error_persists(seqs(ls@), 2, i as int + 1);
                }
                return Err(e);
            },
            Some(Ok(s)) => {
                let ghost sv = s@;
                samples.push(s);
                assert(views(samples@) =~= prev.push(sv));
            },
        }
        i = i + 1;
    }
    assert(seqs(ls@).subrange(2, i as int) =~= lines_after(content@, 2));
    Ok(samples)
}

proof fn lemma_net_dev_error_persists(ls: Seq<Seq<char>>, from: int, i: int)
    requires
        0 <= from <= i <= ls.len(),
        net_dev_samples(ls.subrange(from, i)) is Err,
    ensures
        net_dev_samples(ls.skip(from)) is Err,
    decreases ls.len() - i,
{
    if i < ls.len() {
        assert(ls.subrange(from, i + 1).drop_last() =~= ls.subrange(from, i));
        lemma_net_dev_error_persists(ls, from, i + 1);
    } else {
        assert(ls.subrange(from, i) =~= ls.skip(from));
    }
}


/// Applies `f` to each line in order: a line gives nothing, an entry, or an
/// error that ends the scan.
pub open spec fn scan_lines<T, E>(ls: Seq<Seq<char>>, f: spec_fn(Seq<char>) -> Option<Result<T, E>>) -> Result<Seq<T>, E>
    decreases ls.len(),
{
    if ls.len() == 0 {
        Ok(Seq::empty())
    } else {
        match scan_lines(ls.drop_last(), f) {
            Err(e) => Err(e),
            Ok(v) => match f(ls.last()) {
                None => Ok(v),
                Some(Err(e)) => Err(e),
                Some(Ok(x)) => Ok(v.push(x)),
            },
        }
    }
}

proof fn lemma_scan_error_persists<T, E>(
    ls: Seq<Seq<char>>,
    f: spec_fn(Seq<char>) -> Option<Result<T, E>>,
    from: int,
    i: int,
)
    requires
        0 <= from <= i <= ls.len(),
        scan_lines(ls.subrange(from, i), f) is Err,
    ensures
        scan_lines(ls.skip(from), f) == scan_lines(ls.subrange(from, i), f),
    decreases ls.len() - i,
{
    if i < ls.len() {
        assert(ls.subrange(from, i + 1).drop_last() =~= ls.subrange(from, i));
        lemma_scan_error_persists(ls, f, from, i + 1);
    } else {
        assert(ls.subrange(from, i) =~= ls.skip(from));
    }
}

/// One line of `/proc/diskstats`: nothing for a line of fewer than ten
/// fields, else the device (third field) with its read (sixth) and written
/// (tenth) sectors in bytes.
pub open spec fn diskstats_line(line: Seq<char>) -> Option<Result<(Seq<char>, u64, u64), ProcfsErrorView>> {
    let ws = words(line);
    if ws.len() < 10 {
        None
    } else {
        match spec_parse_u64(ws[5]) {
            None => Some(Err(ProcfsErrorView::DiskReadSectors(ws[2]))),
            Some(read) => match spec_parse_u64(ws[9]) {
                None => Some(Err(ProcfsErrorView::DiskWriteSectors(ws[2]))),
                Some(write) => Some(Ok((ws[2], sat_mul(read, 512), sat_mul(write, 512)))),
            },
        }
    }
}

fn diskstats_sample(line: &[char]) -> (r: Option<Result<RawDiskSample, ProcfsError>>)
    ensures
        match diskstats_line(line@) {
            None => r is None,
            Some(Err(e)) => r matches Some(Err(x)) && x@ == e,
            Some(Ok(x)) => r matches Some(Ok(s)) && s@ == x,
        },
{
    let ws = split_whitespace(line);
    if ws.len() < 10 {
        return None;
    }
    assert(seqs(ws@)[2] == ws@[2]@);
    assert(seqs(ws@)[5] == ws@[5]@);
    assert(seqs(ws@)[9] == ws@[9]@);
    let read = match parse_u64(&ws[5]) {
        Some(v) => v,
        None => {
            return Some(Err(ProcfsError::DiskReadSectors { disk: string_from(&ws[2]) }));
        },
    };
    let write = match parse_u64(&ws[9]) {
        Some(v) => v,
        None => {
            return Some(Err(ProcfsError::DiskWriteSectors { disk: string_from(&ws[2]) }));
        },
    };
    Some(
        Ok(
            RawDiskSample {
                name: string_from(&ws[2]),
                read_bytes: saturating_mul(read, 512),
                write_bytes: saturating_mul(write, 512),
            },
        ),
    )
}

/// Reads `/proc/diskstats`: the sector counters of every device, in bytes.
#[verifier::loop_isolation(false)]
pub fn parse_diskstats(content: &str) -> (r: Result<Vec<RawDiskSample>, ProcfsError>)
    ensures
        match scan_lines(lines(content@), |l: Seq<char>| diskstats_line(l)) {
            Ok(v) => r matches Ok(samples) && views(samples@) == v,
            Err(e) => r matches Err(x) && x@ == e,
        },
{
    let ghost f = |l: Seq<char>| diskstats_line(l);
    let chars = chars_of(content);
    let ls = split_lines(&chars);
    let mut samples: Vec<RawDiskSample> = Vec::new();
    let mut i: usize = 0;
    assert(seqs(ls@).subrange(0, 0) =~= Seq::<Seq<char>>::empty());
    assert(views(samples@) =~= Seq::<(Seq<char>, u64, u64)>::empty());
    while i < ls.len()
        invariant
            i <= ls@.len(),
            seqs(ls@) == lines(content@),
            scan_lines(seqs(ls@).subrange(0, i as int), f) == Ok::<Seq<(Seq<char>, u64, u64)>, ProcfsErrorView>(views(samples@)),
        decreases ls@.len() - i,
    {
        assert(seqs(ls@).subrange(0, i + 1).drop_last() =~= seqs(ls@).subrange(0, i as int));
        assert(seqs(ls@).subrange(0, i + 1).last() == ls@[i as int]@);
        let ghost prev = views(samples@);
        match diskstats_sample(&ls[i]) {
            None => {},
            Some(Err(e)) => {
                proof {
                    lemma_scan_error_persists(seqs(ls@), f, 0, i as int + 1);
                    assert(seqs(ls@).skip(0) =~= seqs(ls@));
                }
                return Err(e);
            },
            Some(Ok(s)) => {
                let ghost sv = s@;
                samples.push(s);
                assert(views(samples@) =~= prev.push(sv));
            },
        }
        i = i + 1;
    }
    assert(seqs(ls@).subrange(0, i as int) =~= lines(content@));
    Ok(samples)
}

/// One line of `/proc/swaps`: nothing for a line of fewer than five
/// fields, else the area's file name with its size and use in bytes.
pub open spec fn swaps_line(line: Seq<char>) -> Option<Result<(Seq<char>, u64, u64), ProcfsErrorView>> {
    let ws = words(line);
    if ws.len() < 5 {
        None
    } else {
        match spec_parse_u64(ws[2]) {
            None => Some(Err(ProcfsErrorView::SwapSize(ws[0]))),
            Some(size) => match spec_parse_u64(ws[3]) {
                None => Some(Err(ProcfsErrorView::SwapUsed(ws[0]))),
                Some(used) => Some(
                    Ok(
                        (
                            match file_name(ws[0]) {
                                Some(n) => n,
                                None => ws[0],
                            },
                            sat_mul(size, 1024),
                            sat_mul(used, 1024),
                        ),
                    ),
                ),
            },
        }
    }
}

fn swaps_sample(line: &[char]) -> (r: Option<Result<RawSwapSample, ProcfsError>>)
    ensures
        match swaps_line(line@) {
            None => r is None,
            Some(Err(e)) => r matches Some(Err(x)) && x@ == e,
            Some(Ok(x)) => r matches Some(Ok(s)) && s@ == x,
        },
{
    let ws = split_whitespace(line);
    if ws.len() < 5 {
        return None;
    }
    assert(seqs(ws@)[0] == ws@[0]@);
    assert(seqs(ws@)[2] == ws@[2]@);
    assert(seqs(ws@)[3] == ws@[3]@);
    let size = match parse_u64(&ws[2]) {
        Some(v) => saturating_mul(v, 1024),
        None => {
            return Some(Err(ProcfsError::SwapSize { name: string_from(&ws[0]) }));
        },
    };
    let used = match parse_u64(&ws[3]) {
        Some(v) => saturating_mul(v, 1024),
        None => {
            return Some(Err(ProcfsError::SwapUsed { name: string_from(&ws[0]) }));
        },
    };
    let name = match path_file_name(&ws[0]) {
        Some(n) => string_from(&n),
        None => string_from(&ws[0]),
    };
    Some(Ok(RawSwapSample { name, size_bytes: size, used_bytes: used }))
}

/// Reads `/proc/swaps`: after the header line, every swap area named by
/// the file name of its path.
#[verifier::loop_isolation(false)]
pub fn parse_swaps(content: &str) -> (r: Result<Vec<RawSwapSample>, ProcfsError>)
    ensures
        match scan_lines(lines_after(content@, 1), |l: Seq<char>| swaps_line(l)) {
            Ok(v) => r matches Ok(samples) && views(samples@) == v,
            Err(e) => r matches Err(x) && x@ == e,
        },
{
    let ghost f = |l: Seq<char>| swaps_line(l);
    let chars = chars_of(content);
    let ls = split_lines(&chars);
    let mut samples: Vec<RawSwapSample> = Vec::new();
    if ls.len() <= 1 {
        assert(lines_after(content@, 1) =~= Seq::<Seq<char>>::empty());
        assert(views(samples@) =~= Seq::<(Seq<char>, u64, u64)>::empty());
        return Ok(samples);
    }
    let mut i: usize = 1;
    assert(seqs(ls@).subrange(1, 1) =~= Seq::<Seq<char>>::empty());
    assert(views(samples@) =~= Seq::<(Seq<char>, u64, u64)>::empty());
    while i < ls.len()
        invariant
            1 <= i <= ls@.len(),
            seqs(ls@) == lines(content@),
            scan_lines(seqs(ls@).subrange(1, i as int), f) == Ok::<Seq<(Seq<char>, u64, u64)>, ProcfsErrorView>(views(samples@)),
        decreases ls@.len() - i,
    {
        assert(seqs(ls@).subrange(1, i + 1).drop_last() =~= seqs(ls@).subrange(1, i as int));
        assert(seqs(ls@).subrange(1, i + 1).last() == ls@[i as int]@);
        let ghost prev = views(samples@);
        match swaps_sample(&ls[i]) {
            None => {},
            Some(Err(e)) => {
                proof {
                    lemma_scan_error_persists(seqs(ls@), f, 1, i as int + 1);
                }
                return Err(e);
            },
            Some(Ok(s)) => {
                let ghost sv = s@;
                samples.push(s);
                assert(views(samples@) =~= prev.push(sv));
            },
        }
        i = i + 1;
    }
    assert(seqs(ls@).subrange(1, i as int) =~= lines_after(content@, 1));
    Ok(samples)
}


/// The rest of the first line that starts with `key`.
pub open spec fn first_prefixed(ls: Seq<Seq<char>>, key: Seq<char>) -> Option<Seq<char>>
    decreases ls.len(),
{
    if ls.len() == 0 {
        None
    } else {
        match first_prefixed(ls.drop_last(), key) {
            Some(rest) => Some(rest),
            None => if key.is_prefix_of(ls.last()) {
                Some(ls.last().skip(key.len() as int))
            } else {
                None
            },
        }
    }
}

/// The real uid of `/proc/<pid>/status`: the first word of the first `Uid:`
/// line.
pub open spec fn status_uid(status: Seq<char>) -> Option<u32> {
    match first_prefixed(lines(status), "Uid:"@) {
        Some(rest) => {
            let ws = words(rest);
            if ws.len() > 0 {
                spec_parse_u32(ws[0])
            } else {
                None
            }
        },
        None => None,
    }
}

#[verifier::loop_isolation(false)]
pub fn parse_status_uid(status: &str) -> (r: Option<u32>)
    ensures
        r == status_uid(status@),
{
    let chars = chars_of(status);
    let ls = split_lines(&chars);
    let key = chars_of("Uid:");
    proof {
        reveal_strlit("Uid:");
    }
    let mut i: usize = 0;
    while i < ls.len()
        invariant
            i <= ls@.len(),
            seqs(ls@) == lines(status@),
            first_prefixed(seqs(ls@).take(i as int), "Uid:"@) is None,
        decreases ls@.len() - i,
    {
        assert(seqs(ls@).take(i + 1).drop_last() =~= seqs(ls@).take(i as int));
        assert(seqs(ls@).take(i + 1).last() == ls@[i as int]@);
        if starts_with_str(&ls[i], "Uid:") {
            let rest = copy_range(&ls[i], key.len(), ls[i].len());
            proof {
                assert(rest@ =~= ls@[i as int]@.skip(4));
                lemma_first_prefixed_stays(seqs(ls@), "Uid:"@, i as int + 1);
                assert(seqs(ls@).take(ls@.len() as int) =~= seqs(ls@));
            }
            let ws = split_whitespace(&rest);
            if ws.len() == 0 {
                return None;
            }
            assert(seqs(ws@)[0] == ws@[0]@);
            return parse_u32(&ws[0]);
        }
        i = i + 1;
    }
    assert(seqs(ls@).take(i as int) =~= lines(status@));
    None
}

proof fn lemma_first_prefixed_stays(ls: Seq<Seq<char>>, key: Seq<char>, i: int)
    requires
        0 <= i <= ls.len(),
        first_prefixed(ls.take(i), key) is Some,
    ensures
        first_prefixed(ls, key) == first_prefixed(ls.take(i), key),
    decreases ls.len() - i,
{
    if i < ls.len() {
        assert(ls.take(i + 1).drop_last() =~= ls.take(i));
        lemma_first_prefixed_stays(ls, key, i + 1);
    } else {
        assert(ls.take(i) =~= ls);
    }
}

/// The non-empty NUL-separated arguments of a command line, decoded.
pub open spec fn cmdline_args(cmdline: Seq<u8>) -> Seq<Seq<char>> {
    pieces(cmdline, 0u8).filter_map(
        |p: Seq<u8>|
            if p.len() > 0 {
                Some(lossy_utf8(p))
            } else {
                None
            },
    )
}

/// The command of a process from its decoded arguments: the arguments
/// joined by spaces, else the trimmed `comm` name, else nothing.
pub open spec fn command_of_args(args: Seq<Seq<char>>, comm_fallback: Seq<char>) -> Option<Seq<char>> {
    if args.len() > 0 {
        Some(join(args, " "@))
    } else if trim(comm_fallback).len() == 0 {
        None
    } else {
        Some(trim(comm_fallback))
    }
}

/// The command of a process from its `cmdline` bytes and `comm` text.
pub open spec fn process_command(cmdline: Seq<u8>, comm_fallback: Seq<char>) -> Option<Seq<char>> {
    command_of_args(cmdline_args(cmdline), comm_fallback)
}

/// The non-empty NUL-separated arguments of a command line, each decoded
/// as `String::from_utf8_lossy` does.
#[verifier::loop_isolation(false)]
pub fn decode_cmdline_args(cmdline: &[u8]) -> (r: Vec<Vec<char>>)
    ensures
        seqs(r@) == cmdline_args(cmdline@),
{
    let ps = split_byte(cmdline, 0u8);
    let ghost f = |p: Seq<u8>|
        if p.len() > 0 {
            Some(lossy_utf8(p))
        } else {
            None
        };
    let mut args: Vec<Vec<char>> = Vec::new();
    let mut i: usize = 0;
    while i < ps.len()
        invariant
            i <= ps@.len(),
            byte_seqs(ps@) == pieces(cmdline@, 0u8),
            seqs(args@) == byte_seqs(ps@).take(i as int).filter_map(f),
        decreases ps@.len() - i,
    {
        assert(byte_seqs(ps@).take(i + 1).drop_last() =~= byte_seqs(ps@).take(i as int));
        assert(byte_seqs(ps@).take(i + 1).last() == ps@[i as int]@);
        if ps[i].len() > 0 {
            args.push(utf8_lossy_chars(&ps[i]));
        }
        assert(seqs(args@) =~= byte_seqs(ps@).take(i + 1).filter_map(f));
        i = i + 1;
    }
    assert(byte_seqs(ps@).take(i as int) =~= pieces(cmdline@, 0u8));
    args
}

/// The command of a process from its decoded arguments and `comm` text.
#[verifier::loop_isolation(false)]
pub fn command_from_args(args: &Vec<Vec<char>>, comm_fallback: &str) -> (r: Option<String>)
    ensures
        match r {
            Some(s) => command_of_args(seqs(args@), comm_fallback@) == Some(s@),
            None => command_of_args(seqs(args@), comm_fallback@) is None,
        },
{
    if args.len() > 0 {
        proof {
            reveal_strlit(" ");
        }
        let mut space: Vec<char> = Vec::new();
        space.push(' ');
        assert(space@ =~= " "@);
        let joined = join_chars(args, space.as_slice());
        return Some(string_from(&joined));
    }
    let comm = chars_of(comm_fallback);
    let trimmed = trim_chars(&comm);
    if trimmed.len() == 0 {
        None
    } else {
        Some(string_from(&trimmed))
    }
}

/// The command of a process from its `cmdline` bytes, else its `comm`
/// text.
pub fn parse_process_command(cmdline: &[u8], comm_fallback: &str) -> (r: Option<String>)
    ensures
        match r {
            Some(s) => process_command(cmdline@, comm_fallback@) == Some(s@),
            None => process_command(cmdline@, comm_fallback@) is None,
        },
{
    let args = decode_cmdline_args(cmdline);
    command_from_args(&args, comm_fallback)
}

/// The command name and the fields after it of `/proc/<pid>/stat`:
/// positions of the first '(' and the last ')' when both exist.
pub open spec fn stat_parens(stat: Seq<char>) -> Option<(int, int)> {
    match (first_index(stat, '('), last_index(stat, ')')) {
        (Some(open), Some(close)) => Some((open, close)),
        _ => None,
    }
}

/// Slicing out the command name and the fields stays on character
/// boundaries inside the text (else the slicing panics).
pub open spec fn stat_sliceable(stat: Seq<char>) -> bool {
    match stat_parens(stat) {
        Some((open, close)) => open < close && close + 1 < stat.len() && (stat[close + 1] as u32)
            < 128,
        None => true,
    }
}

/// The fields after the command name.
pub open spec fn stat_fields(stat: Seq<char>, close: int) -> Seq<Seq<char>> {
    words(stat.skip(close + 2))
}

/// `(state, utime, stime, start time, resident pages)` of a stat text with
/// at least 22 fields after the name whose numbers all parse.
pub open spec fn stat_numbers(stat: Seq<char>) -> Option<(char, u64, u64, u64, u64)> {
    match stat_parens(stat) {
        None => None,
        Some((open, close)) => {
            let fs = stat_fields(stat, close);
            if fs.len() < 22 {
                None
            } else {
                match (
                    spec_parse_u64(fs[11]),
                    spec_parse_u64(fs[12]),
                    spec_parse_u64(fs[19]),
                    spec_parse_i64(fs[21]),
                ) {
                    (Some(utime), Some(stime), Some(start), Some(rss)) => Some(
                        (
                            if fs[0].len() > 0 {
                                fs[0][0]
                            } else {
                                '?'
                            },
                            utime,
                            stime,
                            start,
                            if rss < 0 {
                                0u64
                            } else {
                                rss as u64
                            },
                        ),
                    ),
                    _ => None,
                }
            }
        },
    }
}

/// The inputs on which reading a process sample neither slices out of
/// bounds nor overflows adding the user and system times.
pub open spec fn process_stat_ok(stat: Seq<char>) -> bool {
    &&& stat_sliceable(stat)
    &&& match stat_numbers(stat) {
        Some((_, utime, stime, _, _)) => utime + stime <= u64::MAX,
        None => true,
    }
}

/// The user name that `/etc/passwd` gives `uid`, else its number.
pub open spec fn user_name(uid_map: Map<u32, String>, uid: u32) -> Seq<char> {
    if uid_map.contains_key(uid) {
        uid_map[uid]@
    } else {
        decimal(uid as nat)
    }
}

impl View for RawProcessSample {
    type V = (u32, u64, Seq<char>, char, u64, u64, Seq<char>);

    open spec fn view(&self) -> Self::V {
        (
            self.key.pid,
            self.key.start_time_ticks,
            self.user@,
            self.state,
            self.total_time_ticks,
            self.rss_bytes,
            self.command@,
        )
    }
}

/// The sample that `/proc/<pid>/stat`, `status`, `cmdline` and `comm` give.
pub open spec fn process_sample(
    pid: u32,
    stat: Seq<char>,
    status: Seq<char>,
    cmdline: Seq<u8>,
    comm_fallback: Seq<char>,
    uid_map: Map<u32, String>,
    page_size: u64,
) -> Option<(u32, u64, Seq<char>, char, u64, u64, Seq<char>)> {
    match (stat_parens(stat), stat_numbers(stat)) {
        (Some((open, close)), Some((state, utime, stime, start, rss_pages))) => {
            let uid = match status_uid(status) {
                Some(u) => u,
                None => 0u32,
            };
            Some(
                (
                    pid,
                    start,
                    user_name(uid_map, uid),
                    state,
                    (utime + stime) as u64,
                    sat_mul(rss_pages, page_size),
                    match process_command(cmdline, comm_fallback) {
                        Some(c) => c,
                        None => stat.subrange(open + 1, close),
                    },
                ),
            )
        },
        _ => None,
    }
}

/// Whether reading the process sample of these files stays in bounds and
/// free of overflow (`process_stat_ok`).
pub fn process_stat_is_readable(stat: &str) -> (r: bool)
    ensures
        r == process_stat_ok(stat@),
{
    let s = chars_of(stat);
    let (open, close) = match (find_char(&s, '('), rfind_char(&s, ')')) {
        (Some(o), Some(c)) => (o, c),
        _ => {
            return true;
        },
    };
    if !(open < close && close + 1 < s.len() && (s[close + 1] as u32) < 128) {
        return false;
    }
    match stat_number_fields(&s, close) {
        Some((_, utime, stime, _, _)) => utime.checked_add(stime).is_some(),
        None => true,
    }
}

fn stat_number_fields(s: &Vec<char>, close: usize) -> (r: Option<(char, u64, u64, u64, u64)>)
    requires
        stat_parens(s@) matches Some((o, c)) && c == close,
        stat_sliceable(s@),
    ensures
        r == stat_numbers(s@),
{
    let n = s.len();
    let rest = copy_range(s, close + 2, n);
    assert(rest@ =~= s@.skip(close + 2));
    let fs = split_whitespace(&rest);
    if fs.len() < 22 {
        return None;
    }
    assert(seqs(fs@)[0] == fs@[0]@);
    assert(seqs(fs@)[11] == fs@[11]@);
    assert(seqs(fs@)[12] == fs@[12]@);
    assert(seqs(fs@)[19] == fs@[19]@);
    assert(seqs(fs@)[21] == fs@[21]@);
    let state = if fs[0].len() > 0 {
        fs[0][0]
    } else {
        '?'
    };
    match (parse_u64(&fs[11]), parse_u64(&fs[12]), parse_u64(&fs[19]), parse_i64(&fs[21])) {
        (Some(utime), Some(stime), Some(start), Some(rss)) => {
            let rss_pages: u64 = if rss < 0 {
                0
            } else {
                rss as u64
            };
            Some((state, utime, stime, start, rss_pages))
        },
        _ => None,
    }
}

/// Reads one process from the texts of its `stat`, `status`, `cmdline` and
/// `comm` files; `None` when the stat text is not well formed.
pub fn parse_process_sample(
    pid: u32,
    stat: &str,
    status: &str,
    cmdline: &[u8],
    comm_fallback: &str,
    uid_map: &HashMap<u32, String>,
    page_size: u64,
) -> (r: Result<Option<RawProcessSample>, ProcfsError>)
    requires
        process_stat_ok(stat@),
    ensures
        r matches Ok(sample) && match sample {
            Some(s) => process_sample(
                pid,
                stat@,
                status@,
                cmdline@,
                comm_fallback@,
                uid_map@,
                page_size,
            ) == Some(s@),
            None => process_sample(
                pid,
                stat@,
                status@,
                cmdline@,
                comm_fallback@,
                uid_map@,
                page_size,
            ) is None,
        },
{
    broadcast use vstd::std_specs::hash::group_hash_axioms;

    let s = chars_of(stat);
    let open = match find_char(&s, '(') {
        Some(i) => i,
        None => {
            return Ok(None);
        },
    };
    let close = match rfind_char(&s, ')') {
        Some(i) => i,
        None => {
            return Ok(None);
        },
    };
    let (state, utime, stime, start_time_ticks, rss_pages) = match stat_number_fields(&s, close) {
        Some(v) => v,
        None => {
            return Ok(None);
        },
    };
    let comm = copy_range(&s, open + 1, close);
    let uid = match parse_status_uid(status) {
        Some(u) => u,
        None => 0,
    };
    let command = match parse_process_command(cmdline, comm_fallback) {
        Some(c) => c,
        None => string_from(&comm),
    };
    let user = match uid_map.get(&uid) {
        Some(name) => name.clone(),
        None => {
            let mut digits: Vec<char> = Vec::new();
            push_decimal(&mut digits, uid as u64);
            assert(digits@ =~= decimal(uid as nat));
            string_from(&digits)
        },
    };
    let rss_bytes = saturating_mul(rss_pages, page_size);
    Ok(
        Some(
            RawProcessSample {
                key: ProcessKey { pid, start_time_ticks },
                user,
                state,
                total_time_ticks: utime + stime,
                rss_bytes,
                command,
            },
        ),
    )
}

/// The text of the seconds since boot: the first field of `/proc/uptime`.
pub fn parse_uptime(content: &str) -> (r: Result<String, ProcfsError>)
    ensures
        match r {
            Ok(seconds) => words(content@).len() > 0 && seconds@ == words(content@)[0],
            Err(e) => words(content@).len() == 0 && e == ProcfsError::UptimeMissing,
        },
{
    let chars = chars_of(content);
    let ws = split_whitespace(&chars);
    if ws.len() == 0 {
        return Err(ProcfsError::UptimeMissing);
    }
    assert(seqs(ws@)[0] == ws@[0]@);
    Ok(string_from(&ws[0]))
}

/// The user of a line of `/etc/passwd`: the uid in the third `:` field and
/// the name in the first, when the uid is a number.
pub open spec fn passwd_entry(line: Seq<char>) -> Option<(u32, Seq<char>)> {
    let parts = pieces(line, ':');
    if parts.len() < 3 {
        None
    } else {
        match spec_parse_u32(parts[2]) {
            Some(uid) => Some((uid, parts[0])),
            None => None,
        }
    }
}

/// The users of `/etc/passwd` by uid; a later line for the same uid wins.
pub open spec fn passwd_users(ls: Seq<Seq<char>>) -> Map<u32, Seq<char>>
    decreases ls.len(),
{
    if ls.len() == 0 {
        Map::empty()
    } else {
        let m = passwd_users(ls.drop_last());
        match passwd_entry(ls.last()) {
            Some((uid, name)) => m.insert(uid, name),
            None => m,
        }
    }
}

/// The map holds exactly the names of `names`.
pub open spec fn same_users(m: Map<u32, String>, names: Map<u32, Seq<char>>) -> bool {
    &&& m.dom() == names.dom()
    &&& forall|uid: u32| #[trigger] names.contains_key(uid) ==> m[uid]@ == names[uid]
}

/// The page size that `sysconf(_SC_PAGESIZE)` gives, 4096 when it fails.
pub open spec fn page_size_of(sysconf_result: i64) -> u64 {
    if sysconf_result > 0 {
        sysconf_result as u64
    } else {
        4096
    }
}

/// The users of the text of `/etc/passwd`.
#[verifier::loop_isolation(false)]
pub fn read_passwd_users(content: &str) -> (r: HashMap<u32, String>)
    ensures
        same_users(r@, passwd_users(lines(content@))),
{
    broadcast use vstd::std_specs::hash::group_hash_axioms;

    let chars = chars_of(content);
    let ls = split_lines(&chars);
    let mut users: HashMap<u32, String> = HashMap::new();
    let mut i: usize = 0;
    assert(same_users(users@, passwd_users(seqs(ls@).take(0)))) by {
        assert(users@.dom() =~= passwd_users(seqs(ls@).take(0)).dom());
    }
    while i < ls.len()
        invariant
            i <= ls@.len(),
            seqs(ls@) == lines(content@),
            same_users(users@, passwd_users(seqs(ls@).take(i as int))),
        decreases ls@.len() - i,
    {
        assert(seqs(ls@).take(i + 1).drop_last() =~= seqs(ls@).take(i as int));
        assert(seqs(ls@).take(i + 1).last() == ls@[i as int]@);
        let parts = split_char(&ls[i], ':');
        if parts.len() >= 3 {
            assert(seqs(parts@)[2] == parts@[2]@);
            assert(seqs(parts@)[0] == parts@[0]@);
            match parse_u32(&parts[2]) {
                Some(uid) => {
                    let name = string_from(&parts[0]);
                    let ghost before = users@;
                    let ghost names = passwd_users(seqs(ls@).take(i as int));
                    users.insert(uid, name);
                    assert(users@.dom() =~= names.insert(uid, parts@[0]@).dom());
                    assert forall|u: u32| #[trigger] names.insert(uid, parts@[0]@).contains_key(u) implies users@[u]@
                        == names.insert(uid, parts@[0]@)[u] by {
                        if u != uid {
                            assert(names.contains_key(u));
                        }
                    }
                },
                None => {},
            }
        }
        i = i + 1;
    }
    assert(seqs(ls@).take(i as int) =~= lines(content@));
    users
}

/// Reads the `/proc` tree under a root: the users that process owners are
/// named by and the page size that resident sizes are counted in.
pub struct ProcfsReader {
    root: String,
    uid_map: HashMap<u32, String>,
    page_size: u64,
}

impl ProcfsReader {
    pub closed spec fn root_text(&self) -> Seq<char> {
        self.root@
    }

    pub closed spec fn users(&self) -> Map<u32, String> {
        self.uid_map@
    }

    pub closed spec fn page_bytes(&self) -> u64 {
        self.page_size
    }

    /// A reader of the tree at `root`. `passwd` is the text of
    /// `/etc/passwd` when it could be read (no user names otherwise);
    /// `sysconf_page_size` is what `sysconf(_SC_PAGESIZE)` returned.
    pub fn new(root: &str, passwd: Option<&str>, sysconf_page_size: i64) -> (r: Self)
        ensures
            r.root_text() == root@,
            same_users(
                r.users(),
                match passwd {
                    Some(text) => passwd_users(lines(text@)),
                    None => Map::empty(),
                },
            ),
            r.page_bytes() == page_size_of(sysconf_page_size),
    {
        let uid_map = match passwd {
            Some(text) => read_passwd_users(text),
            None => {
                let m: HashMap<u32, String> = HashMap::new();
                assert(m@.dom() =~= Map::<u32, Seq<char>>::empty().dom());
                m
            },
        };
        let page_size: u64 = if sysconf_page_size > 0 {
            sysconf_page_size as u64
        } else {
            4096
        };
        let root_chars = chars_of(root);
        ProcfsReader { root: string_from(&root_chars), uid_map, page_size }
    }

    /// The size of a memory page in bytes.
    pub fn page_size(&self) -> (r: u64)
        ensures
            r == self.page_bytes(),
    {
        self.page_size
    }

    /// The user names by uid.
    pub fn uid_map(&self) -> (r: &HashMap<u32, String>)
        ensures
            r@ == self.users(),
    {
        &self.uid_map
    }

    /// The path of a file of the tree.
    pub fn file_path(&self, relative: &str) -> (r: String)
        ensures
            r@ == join_path(self.root_text(), relative@),
    {
        join_path_text(self.root.as_str(), relative)
    }

    /// The kernel release, from the text of `sys/kernel/osrelease`.
    pub fn read_kernel_release(&self, content: &str) -> (r: String)
        ensures
            r@ == trim(content@),
    {
        let chars = chars_of(content);
        string_from(&trim_chars(&chars))
    }
}

/// Whether a directory of `/proc` is named like a process (only digits).
pub fn is_pid_dir_name(name: &str) -> (r: bool)
    ensures
        r == all_digits(name@),
{
    let chars = chars_of(name);
    crate::text::all_ascii_digits(&chars)
}

/// How reading a file of a process failed.
#[derive(Clone, Copy, Debug, PartialEq, Eq, Structural)]
pub enum ReadFailure {
    NotFound,
    PermissionDenied,
    Other,
}

/// Why a process directory could not be read.
#[derive(Clone, Copy, Debug, PartialEq, Eq, Structural)]
pub enum ProcessReadError {
    /// The directory name is not a process id.
    Pid,
    /// `stat` could not be read.
    Stat,
    /// `status` could not be read.
    Status,
    /// `cmdline` could not be read.
    Cmdline,
}

/// A process that vanished or is not ours to read is passed over.
pub fn is_missing_or_permission(failure: ReadFailure) -> (r: bool)
    ensures
        r == !(failure is Other),
{
    match failure {
        ReadFailure::NotFound => true,
        ReadFailure::PermissionDenied => true,
        ReadFailure::Other => false,
    }
}

pub open spec fn text_of(r: Result<&str, ReadFailure>) -> Result<Seq<char>, ReadFailure> {
    match r {
        Ok(t) => Ok(t@),
        Err(f) => Err(f),
    }
}

pub open spec fn bytes_of(r: Result<&[u8], ReadFailure>) -> Result<Seq<u8>, ReadFailure> {
    match r {
        Ok(b) => Ok(b@),
        Err(f) => Err(f),
    }
}

pub open spec fn outcome_view(r: Result<Option<RawProcessSample>, ProcessReadError>) -> Result<
    Option<(u32, u64, Seq<char>, char, u64, u64, Seq<char>)>,
    ProcessReadError,
> {
    match r {
        Ok(Some(s)) => Ok(Some(s@)),
        Ok(None) => Ok(None),
        Err(e) => Err(e),
    }
}

/// What reading a process directory gives: its id from the directory
/// name, then its `stat` and `status` (a process that vanished or is not
/// readable is passed over), its `cmdline` (empty when it vanished or is
/// not readable) and its `comm`.
pub open spec fn process_read_result(
    dir_name: Seq<char>,
    stat: Result<Seq<char>, ReadFailure>,
    status: Result<Seq<char>, ReadFailure>,
    cmdline: Result<Seq<u8>, ReadFailure>,
    comm: Seq<char>,
    uid_map: Map<u32, String>,
    page_size: u64,
) -> Result<Option<(u32, u64, Seq<char>, char, u64, u64, Seq<char>)>, ProcessReadError> {
    match spec_parse_u32(dir_name) {
        None => Err(ProcessReadError::Pid),
        Some(pid) => match stat {
            Err(f) => if f is Other {
                Err(ProcessReadError::Stat)
            } else {
                Ok(None)
            },
            Ok(st) => match status {
                Err(f) => if f is Other {
                    Err(ProcessReadError::Status)
                } else {
                    Ok(None)
                },
                Ok(su) => match cmdline {
                    Err(ReadFailure::Other) => Err(ProcessReadError::Cmdline),
                    _ => Ok(
                        process_sample(
                            pid,
                            st,
                            su,
                            match cmdline {
                                Ok(c) => c,
                                Err(_) => Seq::empty(),
                            },
                            comm,
                            uid_map,
                            page_size,
                        ),
                    ),
                },
            },
        },
    }
}

/// Reads one process directory from what reading its files gave.
pub fn read_process_sample(
    dir_name: &str,
    stat: Result<&str, ReadFailure>,
    status: Result<&str, ReadFailure>,
    cmdline: Result<&[u8], ReadFailure>,
    comm: &str,
    uid_map: &HashMap<u32, String>,
    page_size: u64,
) -> (r: Result<Option<RawProcessSample>, ProcessReadError>)
    requires
        stat matches Ok(text) ==> process_stat_ok(text@),
    ensures
        outcome_view(r) == process_read_result(
            dir_name@,
            text_of(stat),
            text_of(status),
            bytes_of(cmdline),
            comm@,
            uid_map@,
            page_size,
        ),
{
    let name = chars_of(dir_name);
    let pid = match parse_u32(&name) {
        Some(p) => p,
        None => {
            return Err(ProcessReadError::Pid);
        },
    };
    let stat_text = match stat {
        Ok(t) => t,
        Err(f) => {
            if is_missing_or_permission(f) {
                return Ok(None);
            }
            return Err(ProcessReadError::Stat);
        },
    };
    let status_text = match status {
        Ok(t) => t,
        Err(f) => {
            if is_missing_or_permission(f) {
                return Ok(None);
            }
            return Err(ProcessReadError::Status);
        },
    };
    let empty: Vec<u8> = Vec::new();
    let cmdline_bytes: &[u8] = match cmdline {
        Ok(b) => b,
        Err(f) => {
            if is_missing_or_permission(f) {
                empty.as_slice()
            } else {
                return Err(ProcessReadError::Cmdline);
            }
        },
    };
    match parse_process_sample(pid, stat_text, status_text, cmdline_bytes, comm, uid_map, page_size) {
        Ok(sample) => Ok(sample),
        Err(_) => Ok(None),
    }
}

} // verus!
