//! The `/sys` side of the sampler: what the texts of its files say about
//! the machine, its temperature sensors and its accelerators.
use std::collections::HashMap;
use vstd::prelude::*;
use crate::rank::{RankOrder, arranges, arranges_by, lemma_multiset_map, sort_ranked, stable_under, stably_ranked_by};
use crate::text::{
    chars_eq, copy_range, ends_with_chars, lemma_lex_antisymmetric, lemma_lex_total,
    lemma_lex_transitive, lex_le, lex_le_exec, parse_usize, spec_parse_usize, trim_end_seq,
    trim_end_text, chars_of, find_seq, find_text, first_index, find_char, lemma_find_seq_bound,
    lemma_first_index_bound, push_two_digits, two_digits, decimal, string_views, split_whitespace,
    seqs, words, chars_eq_str, concat_chars, contains_seq, contains_str, is_digit, join_path,
    join_path_text, leading_digits, digit_prefix_len, lower_seq, parse_i64, parse_u64,
    spec_parse_i64, spec_parse_u64, starts_with_str, string_from, to_ascii_lowercase, trim,
    trim_chars, trim_end_char, trim_end_chars, is_ws, occurs_at, trim_start, trim_end,
};
use super::model::{
    AcceleratorMetrics, GpuMetrics, MachineInfo, NpuMetrics, RuntimeState, SensorKind, SensorReading,
    SensorSource, VpuMetrics, views,
};
use super::procfs::ProcfsReader;
use crate::text::push_decimal;

verus! {

broadcast use vstd::string::group_string_axioms;

/// The kind of part a sensor watches, by the words in its lower-cased
/// device name and label.
pub open spec fn sensor_kind_of(hay: Seq<char>) -> SensorKind {
    if contains_seq(hay, "gpu"@) || contains_seq(hay, "amdgpu"@) {
        SensorKind::Gpu
    } else if contains_seq(hay, "npu"@) {
        SensorKind::Npu
    } else if contains_seq(hay, "soc"@) {
        SensorKind::Soc
    } else if contains_seq(hay, "package"@) || contains_seq(hay, "tctl"@) || contains_seq(
        hay,
        "tdie"@,
    ) || contains_seq(hay, "cpu"@) || contains_seq(hay, "coretemp"@) || contains_seq(
        hay,
        "k10temp"@,
    ) || contains_seq(hay, "littlecore"@) || contains_seq(hay, "bigcore"@) {
        SensorKind::Cpu
    } else if contains_seq(hay, "nvme"@) || contains_seq(hay, "composite"@) {
        SensorKind::Storage
    } else if contains_seq(hay, "wifi"@) || contains_seq(hay, "phy"@) || contains_seq(hay, "mt79"@) {
        SensorKind::Wireless
    } else if contains_seq(hay, "r8169"@) || contains_seq(hay, "eth"@) || contains_seq(hay, "net"@) {
        SensorKind::Network
    } else {
        SensorKind::Unknown
    }
}

/// The kind of a sensor from its device name and label.
pub open spec fn sensor_kind(device_name: Seq<char>, label: Seq<char>) -> SensorKind {
    sensor_kind_of(lower_seq(device_name + " "@ + label))
}

/// The kind of part a sensor watches, from its device name and label.
pub fn classify_sensor(device_name: &str, label: &str) -> (r: SensorKind)
    ensures
        r == sensor_kind(device_name@, label@),
{
    proof {
        reveal_strlit(" ");
    }
    let mut joined = chars_of(device_name);
    joined.push(' ');
    let hay = to_ascii_lowercase(&concat_chars(&joined, &chars_of(label)));
    assert(hay@ == lower_seq(device_name@ + " "@ + label@));
    if contains_str(&hay, "gpu") || contains_str(&hay, "amdgpu") {
        SensorKind::Gpu
    } else if contains_str(&hay, "npu") {
        SensorKind::Npu
    } else if contains_str(&hay, "soc") {
        SensorKind::Soc
    } else if contains_str(&hay, "package") || contains_str(&hay, "tctl") || contains_str(
        &hay,
        "tdie",
    ) || contains_str(&hay, "cpu") || contains_str(&hay, "coretemp") || contains_str(
        &hay,
        "k10temp",
    ) || contains_str(&hay, "littlecore") || contains_str(&hay, "bigcore") {
        SensorKind::Cpu
    } else if contains_str(&hay, "nvme") || contains_str(&hay, "composite") {
        SensorKind::Storage
    } else if contains_str(&hay, "wifi") || contains_str(&hay, "phy") || contains_str(&hay, "mt79") {
        SensorKind::Wireless
    } else if contains_str(&hay, "r8169") || contains_str(&hay, "eth") || contains_str(&hay, "net") {
        SensorKind::Network
    } else {
        SensorKind::Unknown
    }
}

/// The CIX Sky1 label of an ACPI thermal zone name.
pub open spec fn cix_label_of(acpi_name: Seq<char>) -> Option<Seq<char>> {
    if acpi_name == "TZB0"@ {
        Some("cpu-b0"@)
    } else if acpi_name == "TZB1"@ {
        Some("cpu-b1"@)
    } else if acpi_name == "TZL0"@ {
        Some("cpu-l0"@)
    } else if acpi_name == "TZM0"@ {
        Some("cpu-m0"@)
    } else if acpi_name == "TZM1"@ {
        Some("cpu-m1"@)
    } else if acpi_name == "TZGT"@ {
        Some("gpu"@)
    } else if acpi_name == "ECTZ"@ {
        Some("soc"@)
    } else {
        None
    }
}

/// The CIX Sky1 label of an ACPI thermal zone (`TZB0` is `cpu-b0`).
pub fn cix_acpi_thermal_label(acpi_name: &str) -> (r: Option<&'static str>)
    ensures
        match r {
            Some(t) => cix_label_of(acpi_name@) == Some(t@),
            None => cix_label_of(acpi_name@) is None,
        },
{
    let n = chars_of(acpi_name);
    if chars_eq_str(&n, "TZB0") {
        Some("cpu-b0")
    } else if chars_eq_str(&n, "TZB1") {
        Some("cpu-b1")
    } else if chars_eq_str(&n, "TZL0") {
        Some("cpu-l0")
    } else if chars_eq_str(&n, "TZM0") {
        Some("cpu-m0")
    } else if chars_eq_str(&n, "TZM1") {
        Some("cpu-m1")
    } else if chars_eq_str(&n, "TZGT") {
        Some("gpu")
    } else if chars_eq_str(&n, "ECTZ") {
        Some("soc")
    } else {
        None
    }
}

/// The unsigned number that a file of `/sys` holds, surrounding
/// whitespace aside.
pub fn read_u64(content: &str) -> (r: Option<u64>)
    ensures
        r == spec_parse_u64(trim(content@)),
{
    let c = chars_of(content);
    parse_u64(&trim_chars(&c))
}

/// The signed number that a file of `/sys` holds, surrounding whitespace
/// aside.
pub fn read_i64(content: &str) -> (r: Option<i64>)
    ensures
        r == spec_parse_i64(trim(content@)),
{
    let c = chars_of(content);
    parse_i64(&trim_chars(&c))
}

/// The power state that a `runtime_status` file names.
pub open spec fn runtime_state_of(content: Seq<char>) -> Option<RuntimeState> {
    let state = lower_seq(trim(content));
    if state.len() == 0 {
        None
    } else if contains_seq(state, "active"@) {
        Some(RuntimeState::Active)
    } else if contains_seq(state, "suspend"@) {
        Some(RuntimeState::Suspended)
    } else {
        Some(RuntimeState::Unknown)
    }
}

/// The power state that the text of a `runtime_status` file names.
pub fn parse_runtime_state(content: &str) -> (r: Option<RuntimeState>)
    ensures
        r == runtime_state_of(content@),
{
    let c = chars_of(content);
    let state = to_ascii_lowercase(&trim_chars(&c));
    if state.len() == 0 {
        None
    } else if contains_str(&state, "active") {
        Some(RuntimeState::Active)
    } else if contains_str(&state, "suspend") {
        Some(RuntimeState::Suspended)
    } else {
        Some(RuntimeState::Unknown)
    }
}

/// Reading back the label of a power state gives the state.
pub proof fn lemma_runtime_state_label_read_back(state: RuntimeState)
    ensures
        runtime_state_of(state.spec_label()) == Some(state),
{
    reveal_strlit("active");
    reveal_strlit("suspended");
    reveal_strlit("unknown");
    reveal_strlit("suspend");
    let l = state.spec_label();
    assert(!is_ws(l[0]) && !is_ws(l.last()));
    assert(trim_start(l) == l);
    assert(trim_end(l) == l);
    assert(lower_seq(l) =~= l);
    match state {
        RuntimeState::Active => {
            assert(l.subrange(0, 6) =~= "active"@);
            assert(occurs_at(l, "active"@, 0));
        },
        RuntimeState::Suspended => {
            assert forall|at: int| !occurs_at(l, "active"@, at) by {
                if 0 <= at && at + 6 <= l.len() {
                    assert(l.subrange(at, at + 6)[0] == l[at]);
                }
            }
            assert(l.subrange(0, 7) =~= "suspend"@);
            assert(occurs_at(l, "suspend"@, 0));
        },
        RuntimeState::Unknown => {
            assert forall|at: int| !occurs_at(l, "active"@, at) by {
                if 0 <= at && at + 6 <= l.len() {
                    assert(l.subrange(at, at + 6)[0] == l[at]);
                }
            }
            assert forall|at: int| !occurs_at(l, "suspend"@, at) by {
                if 0 <= at && at + 7 <= l.len() {
                    assert(l.subrange(at, at + 7)[0] == l[at]);
                }
            }
        },
    }
}

/// The load percentage at the start of a devfreq `load` file (such as
/// `7@300000000Hz`), as the digits that state it; none without digits.
pub fn parse_devfreq_load(content: &str) -> (r: Option<String>)
    ensures
        ({
            let t = trim(content@);
            match r {
                Some(digits) => digit_prefix_len(t) > 0 && digits@ == t.take(digit_prefix_len(t) as int),
                None => digit_prefix_len(t) == 0,
            }
        }),
{
    let c = chars_of(content);
    let prefix = leading_digits(&trim_chars(&c));
    if prefix.len() == 0 {
        None
    } else {
        Some(string_from(&prefix))
    }
}

/// The number in `VPU Utilization: 38.25%`, as text: what follows the
/// prefix, trimmed, without trailing percent signs.
pub open spec fn vpu_utilization_text(content: Seq<char>) -> Option<Seq<char>> {
    let t = trim(content);
    if "VPU Utilization:"@.is_prefix_of(t) {
        Some(trim_end_char(trim(t.skip("VPU Utilization:"@.len() as int)), '%'))
    } else {
        None
    }
}

/// The utilization number of the VPU `utilization` debugfs text.
pub fn parse_vpu_debugfs_utilization(content: &str) -> (r: Option<String>)
    ensures
        match r {
            Some(v) => vpu_utilization_text(content@) == Some(v@),
            None => vpu_utilization_text(content@) is None,
        },
{
    let c = chars_of(content);
    let t = trim_chars(&c);
    if !starts_with_str(&t, "VPU Utilization:") {
        return None;
    }
    let prefix = chars_of("VPU Utilization:");
    let rest = crate::text::copy_range(&t, prefix.len(), t.len());
    assert(rest@ =~= t@.skip("VPU Utilization:"@.len() as int));
    let value = trim_end_chars(&trim_chars(&rest), '%');
    Some(string_from(&value))
}

/// The model that the device tree names: the file's text trimmed and
/// without trailing NUL characters, when anything is left.
pub open spec fn device_tree_model_of(content: Option<Seq<char>>) -> Option<Seq<char>> {
    match content {
        Some(text) => {
            let model = trim_end_char(trim(text), '\0');
            if model.len() > 0 {
                Some(model)
            } else {
                None
            }
        },
        None => None,
    }
}

pub open spec fn opt_text(t: Option<&str>) -> Option<Seq<char>> {
    match t {
        Some(s) => Some(s@),
        None => None,
    }
}

pub open spec fn opt_string(t: Option<String>) -> Option<Seq<char>> {
    match t {
        Some(s) => Some(s@),
        None => None,
    }
}

/// The model that the device tree names, from the text of its `model`
/// file when it could be read.
pub fn read_device_tree_model(content: Option<&str>) -> (r: Option<String>)
    ensures
        opt_string(r) == device_tree_model_of(opt_text(content)),
{
    match content {
        Some(text) => {
            let c = chars_of(text);
            let model = trim_end_chars(&trim_chars(&c), '\0');
            if model.len() > 0 {
                Some(string_from(&model))
            } else {
                None
            }
        },
        None => None,
    }
}

/// The machine name of the DMI tables: vendor and product when both are
/// there and not empty, else whichever one of them was read, if not empty.
pub open spec fn dmi_name_of(vendor: Option<Seq<char>>, product: Option<Seq<char>>) -> Option<Seq<char>> {
    match (vendor, product) {
        (Some(v), Some(p)) => if trim(v).len() > 0 && trim(p).len() > 0 {
            Some(trim(v) + " "@ + trim(p))
        } else {
            None
        },
        (None, Some(p)) => if trim(p).len() > 0 {
            Some(trim(p))
        } else {
            None
        },
        (Some(v), None) => if trim(v).len() > 0 {
            Some(trim(v))
        } else {
            None
        },
        (None, None) => None,
    }
}

/// The machine name of the DMI tables, from the texts of `sys_vendor` and
/// `product_name` when they could be read.
pub fn read_dmi_system_name(vendor: Option<&str>, product: Option<&str>) -> (r: Option<String>)
    ensures
        opt_string(r) == dmi_name_of(opt_text(vendor), opt_text(product)),
{
    proof {
        reveal_strlit(" ");
    }
    match (vendor, product) {
        (Some(v), Some(p)) => {
            let tv = trim_chars(&chars_of(v));
            let tp = trim_chars(&chars_of(p));
            if tv.len() > 0 && tp.len() > 0 {
                let mut joined = tv;
                joined.push(' ');
                Some(string_from(&concat_chars(&joined, &tp)))
            } else {
                None
            }
        },
        (None, Some(p)) => {
            let tp = trim_chars(&chars_of(p));
            if tp.len() > 0 {
                Some(string_from(&tp))
            } else {
                None
            }
        },
        (Some(v), None) => {
            let tv = trim_chars(&chars_of(v));
            if tv.len() > 0 {
                Some(string_from(&tv))
            } else {
                None
            }
        },
        (None, None) => None,
    }
}

/// The separators of an ACPI path such as `\\_SB_.TZB0`.
pub open spec fn is_acpi_sep(c: char) -> bool {
    c == '.' || c == '\\'
}

/// The characters after the last separator.
pub open spec fn trailing_part(s: Seq<char>) -> Seq<char>
    decreases s.len(),
{
    if s.len() == 0 || is_acpi_sep(s.last()) {
        Seq::empty()
    } else {
        trailing_part(s.drop_last()).push(s.last())
    }
}

/// The last non-empty name of an ACPI path.
pub open spec fn last_acpi_part(s: Seq<char>) -> Option<Seq<char>>
    decreases s.len(),
{
    if s.len() == 0 {
        None
    } else if is_acpi_sep(s.last()) {
        last_acpi_part(s.drop_last())
    } else {
        Some(trailing_part(s))
    }
}

fn acpi_sep(c: char) -> (r: bool)
    ensures
        r == is_acpi_sep(c),
{
    c == '.' || c == '\\'
}

/// The last non-empty name of an ACPI path.
pub fn acpi_name_from_path(path: &[char]) -> (r: Option<Vec<char>>)
    ensures
        match r {
            Some(v) => last_acpi_part(path@) == Some(v@),
            None => last_acpi_part(path@) is None,
        },
{
    let mut e: usize = path.len();
    assert(path@.take(e as int) =~= path@);
    while e > 0 && acpi_sep(path[e - 1])
        invariant
            e <= path@.len(),
            last_acpi_part(path@) == last_acpi_part(path@.take(e as int)),
        decreases e,
    {
        assert(path@.take(e as int).drop_last() =~= path@.take(e - 1));
        e = e - 1;
    }
    if e == 0 {
        return None;
    }
    assert(path@.take(e as int).last() == path@[e - 1]);
    let mut b: usize = e;
    assert(path@.subrange(e as int, e as int) =~= Seq::<char>::empty());
    assert(trailing_part(path@.take(e as int)) =~= trailing_part(path@.take(e as int)) + path@.subrange(
        e as int,
        e as int,
    ));
    while b > 0 && !acpi_sep(path[b - 1])
        invariant
            b <= e <= path@.len(),
            trailing_part(path@.take(e as int)) == trailing_part(path@.take(b as int))
                + path@.subrange(b as int, e as int),
        decreases b,
    {
        assert(path@.take(b as int).drop_last() =~= path@.take(b - 1));
        assert(path@.take(b as int).last() == path@[b - 1]);
        assert(trailing_part(path@.take(b - 1)).push(path@[b - 1]) + path@.subrange(b as int, e as int)
            =~= trailing_part(path@.take(b - 1)) + path@.subrange(b - 1, e as int));
        b = b - 1;
    }
    if b > 0 {
        assert(path@.take(b as int).last() == path@[b - 1]);
    }
    assert(trailing_part(path@.take(b as int)) =~= Seq::<char>::empty());
    assert(trailing_part(path@.take(e as int)) =~= path@.subrange(b as int, e as int));
    Some(copy_range(path, b, e))
}

/// The number of a `thermal_zoneN` directory.
pub open spec fn thermal_zone_index(name: Seq<char>) -> Option<usize> {
    if "thermal_zone"@.is_prefix_of(name) {
        spec_parse_usize(name.skip("thermal_zone"@.len() as int))
    } else {
        None
    }
}

/// The number of a `thermal_zoneN` directory name.
pub fn parse_thermal_zone_index(name: &str) -> (r: Option<usize>)
    ensures
        r == thermal_zone_index(name@),
{
    let n = chars_of(name);
    if !starts_with_str(&n, "thermal_zone") {
        return None;
    }
    let p = chars_of("thermal_zone");
    let rest = copy_range(&n, p.len(), n.len());
    assert(rest@ =~= name@.skip("thermal_zone"@.len() as int));
    parse_usize(&rest)
}

/// What was read of one `class/thermal` entry: its name and the texts of
/// its `type` and `temp` files, of its `device/path` file and of the
/// `path` file of its `LNXTHERM` ACPI device (each when it could be read).
#[derive(Clone, Debug)]
pub struct ThermalZoneFiles {
    pub name: String,
    pub type_text: Option<String>,
    pub temp_text: Option<String>,
    pub device_path_text: Option<String>,
    pub lnxtherm_path_text: Option<String>,
}

/// The ACPI path of a zone: its `device/path`, else its `LNXTHERM` path.
pub open spec fn acpi_path_of(device: Option<Seq<char>>, lnxtherm: Option<Seq<char>>) -> Option<Seq<char>> {
    match device {
        Some(t) => Some(trim(t)),
        None => match lnxtherm {
            Some(t) => Some(trim(t)),
            None => None,
        },
    }
}

/// The label of a thermal zone: the CIX name of its ACPI zone where it has
/// one, else its type, else its directory name.
pub open spec fn zone_label(z: ThermalZoneFiles) -> Seq<char> {
    let raw_label = match z.type_text {
        Some(t) => trim(t@),
        None => z.name@,
    };
    let acpi = match thermal_zone_index(z.name@) {
        None => None,
        Some(_) => match acpi_path_of(opt_string(z.device_path_text), opt_string(z.lnxtherm_path_text)) {
            None => None,
            Some(p) => last_acpi_part(p),
        },
    };
    match acpi {
        Some(a) => match cix_label_of(a) {
            Some(l) => l,
            None => raw_label,
        },
        None => raw_label,
    }
}

pub open spec fn clamp_nonnegative(v: i64) -> u64 {
    if v < 0 {
        0
    } else {
        v as u64
    }
}

/// The millidegrees of a `temp` file: an unsigned number, else a signed
/// one with negative values counted as zero.
pub open spec fn zone_millidegrees(text: Option<Seq<char>>) -> Option<u64> {
    match text {
        None => None,
        Some(t) => match spec_parse_u64(trim(t)) {
            Some(v) => Some(v),
            None => match spec_parse_i64(trim(t)) {
                Some(v) => Some(clamp_nonnegative(v)),
                None => None,
            },
        },
    }
}

/// The sensor of a `thermal_zone*` entry whose temperature could be read.
pub open spec fn thermal_sensor(z: ThermalZoneFiles) -> Option<(SensorSource, Seq<char>, Seq<char>, SensorKind, u64)> {
    if !"thermal_zone"@.is_prefix_of(z.name@) {
        None
    } else {
        match zone_millidegrees(opt_string(z.temp_text)) {
            None => None,
            Some(t) => Some(
                (
                    SensorSource::ThermalZone,
                    z.name@,
                    zone_label(z),
                    sensor_kind(zone_label(z), zone_label(z)),
                    t,
                ),
            ),
        }
    }
}

pub open spec fn opt_view(r: Option<SensorReading>) -> Option<(SensorSource, Seq<char>, Seq<char>, SensorKind, u64)> {
    match r {
        Some(s) => Some(s@),
        None => None,
    }
}

fn opt_chars(t: &Option<String>) -> (r: Option<Vec<char>>)
    ensures
        match r {
            Some(v) => opt_string(*t) == Some(v@),
            None => t is None,
        },
{
    match t {
        Some(s) => Some(chars_of(s.as_str())),
        None => None,
    }
}

fn millidegrees(text: &Option<String>) -> (r: Option<u64>)
    ensures
        r == zone_millidegrees(opt_string(*text)),
{
    match text {
        None => None,
        Some(t) => match read_u64(t.as_str()) {
            Some(v) => Some(v),
            None => match read_i64(t.as_str()) {
                Some(v) => Some(
                    if v < 0 {
                        0
                    } else {
                        v as u64
                    },
                ),
                None => None,
            },
        },
    }
}

fn zone_label_of(z: &ThermalZoneFiles) -> (r: Vec<char>)
    ensures
        r@ == zone_label(*z),
{
    let raw_label = match &z.type_text {
        Some(t) => trim_chars(&chars_of(t.as_str())),
        None => chars_of(z.name.as_str()),
    };
    let index = parse_thermal_zone_index(z.name.as_str());
    if index.is_none() {
        return raw_label;
    }
    let path = match opt_chars(&z.device_path_text) {
        Some(t) => trim_chars(&t),
        None => match opt_chars(&z.lnxtherm_path_text) {
            Some(t) => trim_chars(&t),
            None => {
                return raw_label;
            },
        },
    };
    let acpi = match acpi_name_from_path(&path) {
        Some(a) => a,
        None => {
            return raw_label;
        },
    };
    let acpi_text = string_from(&acpi);
    match cix_acpi_thermal_label(acpi_text.as_str()) {
        Some(l) => chars_of(l),
        None => raw_label,
    }
}

/// The sensor of one thermal zone entry, if it is a zone with a readable
/// temperature.
pub fn thermal_sensor_of(z: &ThermalZoneFiles) -> (r: Option<SensorReading>)
    ensures
        opt_view(r) == thermal_sensor(*z),
{
    let name = chars_of(z.name.as_str());
    if !starts_with_str(&name, "thermal_zone") {
        return None;
    }
    let t = match millidegrees(&z.temp_text) {
        Some(t) => t,
        None => {
            return None;
        },
    };
    let label = string_from(&zone_label_of(z));
    let kind = classify_sensor(label.as_str(), label.as_str());
    Some(
        SensorReading {
            source: SensorSource::ThermalZone,
            device_name: z.name.clone(),
            label,
            kind,
            temperature_millic: t,
        },
    )
}

/// Sensors ordered by label.
pub struct ByLabel;

/// Sensors ordered by device name, then label.
pub struct ByDeviceThenLabel;

impl RankOrder<ByLabel> for SensorReading {
    open spec fn ranks_before(&self, other: &Self) -> bool {
        lex_le(self.label@, other.label@)
    }

    proof fn lemma_rank_total(a: &Self, b: &Self) {
        lemma_lex_total(a.label@, b.label@);
    }

    proof fn lemma_rank_transitive(a: &Self, b: &Self, c: &Self) {
        lemma_lex_transitive(a.label@, b.label@, c.label@);
    }

    fn ranks_before_exec(&self, other: &Self) -> (r: bool) {
        lex_le_exec(&chars_of(self.label.as_str()), &chars_of(other.label.as_str()))
    }
}

impl RankOrder<ByDeviceThenLabel> for SensorReading {
    open spec fn ranks_before(&self, other: &Self) -> bool {
        &&& lex_le(self.device_name@, other.device_name@)
        &&& self.device_name@ == other.device_name@ ==> lex_le(self.label@, other.label@)
    }

    proof fn lemma_rank_total(a: &Self, b: &Self) {
        lemma_lex_total(a.device_name@, b.device_name@);
        lemma_lex_total(a.label@, b.label@);
    }

    proof fn lemma_rank_transitive(a: &Self, b: &Self, c: &Self) {
        lemma_lex_transitive(a.device_name@, b.device_name@, c.device_name@);
        if a.device_name@ == c.device_name@ {
            lemma_lex_antisymmetric(a.device_name@, b.device_name@);
            lemma_lex_transitive(a.label@, b.label@, c.label@);
        }
    }

    fn ranks_before_exec(&self, other: &Self) -> (r: bool) {
        let a = chars_of(self.device_name.as_str());
        let b = chars_of(other.device_name.as_str());
        if chars_eq(&a, &b) {
            proof {
                lemma_lex_total(self.device_name@, other.device_name@);
            }
            lex_le_exec(&chars_of(self.label.as_str()), &chars_of(other.label.as_str()))
        } else {
            lex_le_exec(&a, &b)
        }
    }
}

/// The readings of the thermal zones, in the order of the zones.
pub open spec fn thermal_readings(zones: Seq<ThermalZoneFiles>) -> Seq<(SensorSource, Seq<char>, Seq<char>, SensorKind, u64)> {
    zones.filter_map(|z: ThermalZoneFiles| thermal_sensor(z))
}

/// A sorted list stays an arrangement of the views of what was sorted.
proof fn lemma_sorted_views<K>(
    sorted: Seq<SensorReading>,
    unsorted: Seq<SensorReading>,
    expected: Seq<(SensorSource, Seq<char>, Seq<char>, SensorKind, u64)>,
)
    where SensorReading: RankOrder<K>,
    requires
        crate::rank::stably_ranked::<K, SensorReading>(sorted, unsorted),
        views(unsorted) == expected,
    ensures
        stably_ranked_by::<K, SensorReading, _>(sorted, expected, |x: SensorReading| x@),
{
    lemma_multiset_map(sorted, unsorted, |x: SensorReading| x@);
    assert(views(unsorted) =~= unsorted.map_values(|x: SensorReading| x@));
    let p = choose|p: Seq<int>| #[trigger] arranges(p, sorted, unsorted) && stable_under::<K, SensorReading>(p, sorted);
    assert forall|i: int| 0 <= i < p.len() implies (|x: SensorReading| x@)(#[trigger] sorted[i]) == expected[p[i]] by {
        assert(sorted[i] == unsorted[p[i]]);
    }
    assert(arranges_by(p, sorted, expected, |x: SensorReading| x@));
}

/// The sensors of the thermal zones, ordered by label.
pub fn thermal_sensors(zones: &Vec<ThermalZoneFiles>) -> (r: Vec<SensorReading>)
    ensures
        stably_ranked_by::<ByLabel, _, _>(r@, thermal_readings(zones@), |x: SensorReading| x@),
{
    let ghost f = |z: ThermalZoneFiles| thermal_sensor(z);
    let mut built: Vec<SensorReading> = Vec::new();
    let mut i: usize = 0;
    while i < zones.len()
        invariant
            i <= zones@.len(),
            f == (|z: ThermalZoneFiles| thermal_sensor(z)),
            views(built@) == zones@.take(i as int).filter_map(f),
        decreases zones@.len() - i,
    {
        assert(zones@.take(i + 1).drop_last() =~= zones@.take(i as int));
        match thermal_sensor_of(&zones[i]) {
            Some(s) => {
                built.push(s);
            },
            None => {},
        }
        assert(views(built@) =~= zones@.take(i + 1).filter_map(f));
        i = i + 1;
    }
    assert(zones@.take(i as int) =~= zones@);
    let ghost unsorted = built@;
    let sorted = sort_ranked::<ByLabel, _>(built);
    proof {
        lemma_sorted_views::<ByLabel>(sorted@, unsorted, thermal_readings(zones@));
    }
    sorted
}

/// The `tempN` stem of a hwmon `tempN_input` file.
pub open spec fn channel_stem(file_name: Seq<char>) -> Option<Seq<char>> {
    if "temp"@.is_prefix_of(file_name) && "_input"@.len() <= file_name.len() && file_name.skip(
        file_name.len() - "_input"@.len(),
    ) == "_input"@ {
        Some(trim_end_seq(file_name, "_input"@))
    } else {
        None
    }
}

/// The `tempN` stem of a hwmon `tempN_input` file name.
pub fn hwmon_channel_stem(file_name: &str) -> (r: Option<String>)
    ensures
        match r {
            Some(s) => channel_stem(file_name@) == Some(s@),
            None => channel_stem(file_name@) is None,
        },
{
    let n = chars_of(file_name);
    if !starts_with_str(&n, "temp") || !ends_with_chars(&n, &chars_of("_input")) {
        return None;
    }
    Some(string_from(&trim_end_text(&n, "_input")))
}

/// The name of a hwmon device: its `name` file, else its directory name.
pub fn hwmon_device_name(name_text: Option<&str>, dir_name: &str) -> (r: String)
    ensures
        r@ == match name_text {
            Some(t) => trim(t@),
            None => dir_name@,
        },
{
    match name_text {
        Some(t) => string_from(&trim_chars(&chars_of(t))),
        None => string_from(&chars_of(dir_name)),
    }
}

/// What was read of one hwmon temperature channel: the device's name, the
/// channel's stem, and the texts of its `_input` and `_label` files when
/// they could be read.
#[derive(Clone, Debug)]
pub struct HwmonChannelFiles {
    pub device_name: String,
    pub stem: String,
    pub input_text: Option<String>,
    pub label_text: Option<String>,
}

/// The label of a channel: its `_label` file, else its stem.
pub open spec fn channel_label(c: HwmonChannelFiles) -> Seq<char> {
    match c.label_text {
        Some(l) => trim(l@),
        None => c.stem@,
    }
}

/// The sensor of a hwmon channel whose input holds a number; negative
/// values count as zero.
pub open spec fn hwmon_sensor(c: HwmonChannelFiles) -> Option<(SensorSource, Seq<char>, Seq<char>, SensorKind, u64)> {
    match c.input_text {
        None => None,
        Some(t) => match spec_parse_i64(trim(t@)) {
            None => None,
            Some(v) => Some(
                (
                    SensorSource::Hwmon,
                    c.device_name@,
                    channel_label(c),
                    sensor_kind(c.device_name@, channel_label(c)),
                    clamp_nonnegative(v),
                ),
            ),
        },
    }
}

/// The sensor of one hwmon channel, if its input holds a number.
pub fn hwmon_sensor_of(c: &HwmonChannelFiles) -> (r: Option<SensorReading>)
    ensures
        opt_view(r) == hwmon_sensor(*c),
{
    let v = match &c.input_text {
        None => {
            return None;
        },
        Some(t) => match read_i64(t.as_str()) {
            None => {
                return None;
            },
            Some(v) => v,
        },
    };
    let label = match &c.label_text {
        Some(l) => string_from(&trim_chars(&chars_of(l.as_str()))),
        None => c.stem.clone(),
    };
    let kind = classify_sensor(c.device_name.as_str(), label.as_str());
    Some(
        SensorReading {
            source: SensorSource::Hwmon,
            device_name: c.device_name.clone(),
            label,
            kind,
            temperature_millic: if v < 0 {
                0
            } else {
                v as u64
            },
        },
    )
}

/// The readings of the hwmon channels, in the order of the channels.
pub open spec fn hwmon_readings(channels: Seq<HwmonChannelFiles>) -> Seq<(SensorSource, Seq<char>, Seq<char>, SensorKind, u64)> {
    channels.filter_map(|c: HwmonChannelFiles| hwmon_sensor(c))
}

/// The sensors of the hwmon channels, ordered by device name, then label.
pub fn hwmon_sensors(channels: &Vec<HwmonChannelFiles>) -> (r: Vec<SensorReading>)
    ensures
        stably_ranked_by::<ByDeviceThenLabel, _, _>(r@, hwmon_readings(channels@), |x: SensorReading| x@),
{
    let ghost f = |c: HwmonChannelFiles| hwmon_sensor(c);
    let mut built: Vec<SensorReading> = Vec::new();
    let mut i: usize = 0;
    while i < channels.len()
        invariant
            i <= channels@.len(),
            f == (|c: HwmonChannelFiles| hwmon_sensor(c)),
            views(built@) == channels@.take(i as int).filter_map(f),
        decreases channels@.len() - i,
    {
        assert(channels@.take(i + 1).drop_last() =~= channels@.take(i as int));
        match hwmon_sensor_of(&channels[i]) {
            Some(s) => {
                built.push(s);
            },
            None => {},
        }
        assert(views(built@) =~= channels@.take(i + 1).filter_map(f));
        i = i + 1;
    }
    assert(channels@.take(i as int) =~= channels@);
    let ghost unsorted = built@;
    let sorted = sort_ranked::<ByDeviceThenLabel, _>(built);
    proof {
        lemma_sorted_views::<ByDeviceThenLabel>(sorted@, unsorted, hwmon_readings(channels@));
    }
    sorted
}

/// What makes two readings the same: kind, lower-cased label and
/// temperature.
pub open spec fn sensor_key(s: SensorReading) -> (SensorKind, Seq<char>, u64) {
    (s.kind, lower_seq(s.label@), s.temperature_millic)
}

/// Whether a reading before position `i` has the key of the one at `i`.
pub open spec fn seen_before(s: Seq<SensorReading>, i: int) -> bool {
    exists|j: int| 0 <= j < i && sensor_key(#[trigger] s[j]) == sensor_key(s[i])
}

/// The readings in order, each kept only the first time its key occurs.
pub open spec fn dedupe(s: Seq<SensorReading>) -> Seq<SensorReading>
    decreases s.len(),
{
    if s.len() == 0 {
        Seq::empty()
    } else if seen_before(s, s.len() - 1) {
        dedupe(s.drop_last())
    } else {
        dedupe(s.drop_last()).push(s.last())
    }
}

fn copy_sensor(s: &SensorReading) -> (r: SensorReading)
    ensures
        r == *s,
{
    SensorReading {
        source: s.source,
        device_name: s.device_name.clone(),
        label: s.label.clone(),
        kind: s.kind,
        temperature_millic: s.temperature_millic,
    }
}

fn same_key(a: &SensorReading, b: &SensorReading) -> (r: bool)
    ensures
        r == (sensor_key(*a) == sensor_key(*b)),
{
    a.kind == b.kind && a.temperature_millic == b.temperature_millic && chars_eq(
        &to_ascii_lowercase(&chars_of(a.label.as_str())),
        &to_ascii_lowercase(&chars_of(b.label.as_str())),
    )
}

/// The readings without repeats of a key, the first of each kept.
pub fn dedupe_sensors(sensors: &Vec<SensorReading>) -> (r: Vec<SensorReading>)
    ensures
        r@ == dedupe(sensors@),
{
    let mut out: Vec<SensorReading> = Vec::new();
    let mut i: usize = 0;
    while i < sensors.len()
        invariant
            i <= sensors@.len(),
            out@ == dedupe(sensors@.take(i as int)),
        decreases sensors@.len() - i,
    {
        let ghost t = sensors@.take(i + 1);
        assert(t.drop_last() =~= sensors@.take(i as int));
        let mut seen = false;
        let mut j: usize = 0;
        while j < i
            invariant
                j <= i < sensors@.len(),
                t == sensors@.take(i + 1),
                seen == exists|k: int| 0 <= k < j && sensor_key(#[trigger] t[k]) == sensor_key(t[i as int]),
            decreases i - j,
        {
            if same_key(&sensors[j], &sensors[i]) {
                assert(sensor_key(t[j as int]) == sensor_key(t[i as int]));
                seen = true;
            }
            j = j + 1;
        }
        assert(seen == seen_before(t, i as int));
        if !seen {
            out.push(copy_sensor(&sensors[i]));
        }
        i = i + 1;
    }
    assert(sensors@.take(i as int) =~= sensors@);
    out
}

/// The sensors of the machine: the thermal zones, then the hwmon
/// channels, each reading kept only the first time its key occurs.
pub fn read_sensors(thermal: &Vec<SensorReading>, hwmon: &Vec<SensorReading>) -> (r: Vec<SensorReading>)
    ensures
        r@ == dedupe(thermal@ + hwmon@),
{
    let mut all: Vec<SensorReading> = Vec::new();
    let mut i: usize = 0;
    while i < thermal.len()
        invariant
            i <= thermal@.len(),
            all@ == thermal@.take(i as int),
        decreases thermal@.len() - i,
    {
        all.push(copy_sensor(&thermal[i]));
        assert(all@ =~= thermal@.take(i + 1));
        i = i + 1;
    }
    let mut j: usize = 0;
    while j < hwmon.len()
        invariant
            i == thermal@.len(),
            j <= hwmon@.len(),
            all@ == thermal@.take(i as int) + hwmon@.take(j as int),
        decreases hwmon@.len() - j,
    {
        all.push(copy_sensor(&hwmon[j]));
        assert(all@ =~= thermal@.take(i as int) + hwmon@.take(j + 1));
        j = j + 1;
    }
    assert(all@ =~= thermal@ + hwmon@);
    dedupe_sensors(&all)
}

/// The `busy_time` and `idle_time` values of a Mali `dvfs_utilization`
/// text, scanned as `key value` pairs from position `i` on; none when a
/// key has no value or a value is not a number.
pub open spec fn mali_scan(parts: Seq<Seq<char>>, i: int, busy: Option<u64>, idle: Option<u64>) -> Option<
    (Option<u64>, Option<u64>),
>
    decreases parts.len() - i,
{
    if i < 0 || i >= parts.len() {
        Some((busy, idle))
    } else if i + 1 >= parts.len() {
        None
    } else {
        match spec_parse_u64(parts[i + 1]) {
            None => None,
            Some(v) => {
                let key = trim_end_char(parts[i], ':');
                mali_scan(
                    parts,
                    i + 2,
                    if key == "busy_time"@ {
                        Some(v)
                    } else {
                        busy
                    },
                    if key == "idle_time"@ {
                        Some(v)
                    } else {
                        idle
                    },
                )
            },
        }
    }
}

/// The busy and idle times of a Mali `dvfs_utilization` text, when both
/// are there and not both zero; the usage is `busy / (busy + idle)`.
pub open spec fn mali_usage(content: Seq<char>) -> Option<(u64, u64)> {
    match mali_scan(words(content), 0, None, None) {
        Some((Some(b), Some(d))) => if b + d > 0 {
            Some((b, d))
        } else {
            None
        },
        _ => None,
    }
}

/// The busy and idle times of a Mali `dvfs_utilization` text.
pub fn parse_mali_debugfs_usage(content: &str) -> (r: Option<(u64, u64)>)
    ensures
        r == mali_usage(content@),
{
    proof {
        reveal_strlit("busy_time");
        reveal_strlit("idle_time");
    }
    let chars = chars_of(content);
    let parts = split_whitespace(&chars);
    let ghost ps = seqs(parts@);
    let mut busy: Option<u64> = None;
    let mut idle: Option<u64> = None;
    let mut i: usize = 0;
    while i < parts.len()
        invariant
            ps == seqs(parts@),
            ps == words(content@),
            i <= parts@.len(),
            mali_scan(ps, 0, None, None) == mali_scan(ps, i as int, busy, idle),
        decreases parts@.len() - i,
    {
        if i + 1 >= parts.len() {
            return None;
        }
        assert(ps[i + 1] == parts@[i + 1]@);
        assert(ps[i as int] == parts@[i as int]@);
        let v = match parse_u64(&parts[i + 1]) {
            Some(v) => v,
            None => {
                return None;
            },
        };
        let key = trim_end_chars(&parts[i], ':');
        if chars_eq_str(&key, "busy_time") {
            busy = Some(v);
        }
        if chars_eq_str(&key, "idle_time") {
            idle = Some(v);
        }
        i = i + 2;
    }
    match (busy, idle) {
        (Some(b), Some(d)) => {
            if b > 0 || d > 0 {
                Some((b, d))
            } else {
                None
            }
        },
        _ => None,
    }
}

/// The load texts of the `CoreN: x%` entries of the RKNPU `load` file:
/// from each `Core`, what lies between the next ':' and the next '%',
/// trimmed.
pub open spec fn rknpu_load_texts(rem: Seq<char>) -> Seq<Seq<char>>
    decreases rem.len(),
{
    match find_seq(rem, "Core"@) {
        None => Seq::empty(),
        Some(c) => {
            let r1 = rem.skip(c);
            match first_index(r1, ':') {
                None => Seq::empty(),
                Some(k) => {
                    let after = r1.skip(k + 1);
                    match first_index(after, '%') {
                        None => Seq::empty(),
                        Some(p) => {
                            proof {
                                lemma_find_seq_bound(rem, "Core"@);
                                lemma_first_index_bound(r1, ':');
                                lemma_first_index_bound(after, '%');
                            }
                            seq![trim(after.take(p))] + rknpu_load_texts(after.skip(p + 1))
                        },
                    }
                },
            }
        },
    }
}

/// The per-core load texts of the RKNPU `load` file (such as
/// `NPU load:  Core0:  5%, Core1:  8%`), in order.
pub fn parse_rknpu_debugfs_load(content: &str) -> (r: Vec<String>)
    ensures
        string_views(r@) == rknpu_load_texts(content@),
{
    let mut loads: Vec<String> = Vec::new();
    let mut rem = chars_of(content);
    assert(string_views(loads@) + rknpu_load_texts(rem@) =~= rknpu_load_texts(content@));
    loop
        invariant
            string_views(loads@) + rknpu_load_texts(rem@) == rknpu_load_texts(content@),
        decreases rem@.len(),
    {
        let ghost old_rem = rem@;
        let c = match find_text(&rem, "Core") {
            Some(c) => c,
            None => {
                assert(string_views(loads@) =~= rknpu_load_texts(content@));
                return loads;
            },
        };
        proof {
            lemma_find_seq_bound(rem@, "Core"@);
        }
        let r1 = copy_range(&rem, c, rem.len());
        assert(r1@ =~= rem@.skip(c as int));
        let k = match find_char(&r1, ':') {
            Some(k) => k,
            None => {
                assert(string_views(loads@) =~= rknpu_load_texts(content@));
                return loads;
            },
        };
        let after = copy_range(&r1, k + 1, r1.len());
        assert(after@ =~= r1@.skip(k + 1));
        let p = match find_char(&after, '%') {
            Some(p) => p,
            None => {
                assert(string_views(loads@) =~= rknpu_load_texts(content@));
                return loads;
            },
        };
        let value = trim_chars(&copy_range(&after, 0, p));
        assert(after@.subrange(0, p as int) =~= after@.take(p as int));
        let next = copy_range(&after, p + 1, after.len());
        assert(next@ =~= after@.skip(p + 1));
        let ghost before = string_views(loads@);
        loads.push(string_from(&value));
        assert(string_views(loads@) =~= before.push(value@));
        assert(rknpu_load_texts(old_rem) == seq![value@] + rknpu_load_texts(next@));
        assert(string_views(loads@) + rknpu_load_texts(next@) =~= before + rknpu_load_texts(old_rem));
        rem = next;
    }
}

/// What was read of one `class/devfreq` entry: its name, whether it is a
/// directory, and the text of its `name` file when it could be read.
#[derive(Clone, Debug)]
pub struct DevfreqEntry {
    pub dir_name: String,
    pub is_dir: bool,
    pub name_text: Option<String>,
}

/// The device name of a devfreq entry: its `name` file, else its
/// directory name.
pub open spec fn devfreq_device_name(e: DevfreqEntry) -> Seq<char> {
    match e.name_text {
        Some(t) => trim(t@),
        None => e.dir_name@,
    }
}

/// A devfreq directory whose lower-cased directory and device names
/// contain one of the matchers.
pub open spec fn devfreq_matches(e: DevfreqEntry, matchers: Seq<&str>) -> bool {
    &&& e.is_dir
    &&& exists|k: int|
        0 <= k < matchers.len() && contains_seq(
            lower_seq(e.dir_name@ + " "@ + devfreq_device_name(e)),
            #[trigger] matchers[k]@,
        )
}

/// A devfreq directory whose directory or device name is one of `names`.
pub open spec fn devfreq_named(e: DevfreqEntry, names: Seq<&str>) -> bool {
    &&& e.is_dir
    &&& exists|k: int|
        0 <= k < names.len() && (e.dir_name@ == #[trigger] names[k]@ || devfreq_device_name(e)
            == names[k]@)
}

fn device_name_chars(e: &DevfreqEntry) -> (r: Vec<char>)
    ensures
        r@ == devfreq_device_name(*e),
{
    match &e.name_text {
        Some(t) => trim_chars(&chars_of(t.as_str())),
        None => chars_of(e.dir_name.as_str()),
    }
}

fn entry_matches(e: &DevfreqEntry, matchers: &[&str]) -> (r: bool)
    ensures
        r == devfreq_matches(*e, matchers@),
{
    proof {
        reveal_strlit(" ");
    }
    if !e.is_dir {
        return false;
    }
    let mut joined = chars_of(e.dir_name.as_str());
    joined.push(' ');
    let hay = to_ascii_lowercase(&concat_chars(&joined, &device_name_chars(e)));
    assert(hay@ == lower_seq(e.dir_name@ + " "@ + devfreq_device_name(*e)));
    let mut k: usize = 0;
    while k < matchers.len()
        invariant
            k <= matchers@.len(),
            e.is_dir,
            hay@ == lower_seq(e.dir_name@ + " "@ + devfreq_device_name(*e)),
            forall|j: int| 0 <= j < k ==> !contains_seq(hay@, #[trigger] matchers@[j]@),
        decreases matchers@.len() - k,
    {
        if contains_str(&hay, matchers[k]) {
            assert(contains_seq(hay@, matchers@[k as int]@));
            return true;
        }
        k = k + 1;
    }
    false
}

fn entry_named(e: &DevfreqEntry, names: &[&str]) -> (r: bool)
    ensures
        r == devfreq_named(*e, names@),
{
    if !e.is_dir {
        return false;
    }
    let dir = chars_of(e.dir_name.as_str());
    let device = device_name_chars(e);
    let mut k: usize = 0;
    while k < names.len()
        invariant
            k <= names@.len(),
            e.is_dir,
            dir@ == e.dir_name@,
            device@ == devfreq_device_name(*e),
            forall|j: int|
                0 <= j < k ==> !(e.dir_name@ == #[trigger] names@[j]@ || devfreq_device_name(*e)
                    == names@[j]@),
        decreases names@.len() - k,
    {
        if chars_eq_str(&dir, names[k]) || chars_eq_str(&device, names[k]) {
            assert(e.dir_name@ == names@[k as int]@ || devfreq_device_name(*e) == names@[k as int]@);
            return true;
        }
        k = k + 1;
    }
    false
}

/// The devfreq device that one of the matchers names: among the matching
/// directories, the one whose name sorts first.
pub fn find_devfreq_path(entries: &Vec<DevfreqEntry>, matchers: &[&str]) -> (r: Option<usize>)
    ensures
        match r {
            None => forall|i: int| 0 <= i < entries@.len() ==> !devfreq_matches(#[trigger] entries@[i], matchers@),
            Some(k) => {
                &&& k < entries@.len()
                &&& devfreq_matches(entries@[k as int], matchers@)
                &&& forall|i: int|
                    0 <= i < entries@.len() && devfreq_matches(#[trigger] entries@[i], matchers@) ==> lex_le(
                        entries@[k as int].dir_name@,
                        entries@[i].dir_name@,
                    )
            },
        },
{
    let mut best: Option<usize> = None;
    let mut i: usize = 0;
    while i < entries.len()
        invariant
            i <= entries@.len(),
            match best {
                None => forall|j: int| 0 <= j < i ==> !devfreq_matches(#[trigger] entries@[j], matchers@),
                Some(k) => {
                    &&& k < i
                    &&& devfreq_matches(entries@[k as int], matchers@)
                    &&& forall|j: int|
                        0 <= j < i && devfreq_matches(#[trigger] entries@[j], matchers@) ==> lex_le(
                            entries@[k as int].dir_name@,
                            entries@[j].dir_name@,
                        )
                },
            },
        decreases entries@.len() - i,
    {
        if entry_matches(&entries[i], matchers) {
            match best {
                None => {
                    proof {
                        lemma_lex_total(entries@[i as int].dir_name@, entries@[i as int].dir_name@);
                    }
                    best = Some(i);
                },
                Some(k) => {
                    let here = chars_of(entries[i].dir_name.as_str());
                    let there = chars_of(entries[k].dir_name.as_str());
                    if !lex_le_exec(&there, &here) {
                        proof {
                            lemma_lex_total(entries@[i as int].dir_name@, entries@[k as int].dir_name@);
                            assert forall|j: int|
                                0 <= j < i + 1 && devfreq_matches(#[trigger] entries@[j], matchers@) implies lex_le(
                                entries@[i as int].dir_name@,
                                entries@[j].dir_name@,
                            ) by {
                                if j < i {
                                    lemma_lex_transitive(
                                        entries@[i as int].dir_name@,
                                        entries@[k as int].dir_name@,
                                        entries@[j].dir_name@,
                                    );
                                } else {
                                    lemma_lex_total(entries@[j].dir_name@, entries@[j].dir_name@);
                                }
                            }
                        }
                        best = Some(i);
                    }
                },
            }
        }
        i = i + 1;
    }
    best
}

/// The first devfreq device that has one of `names` as its directory or
/// device name.
pub fn find_named_devfreq_path(entries: &Vec<DevfreqEntry>, names: &[&str]) -> (r: Option<usize>)
    ensures
        match r {
            None => forall|i: int| 0 <= i < entries@.len() ==> !devfreq_named(#[trigger] entries@[i], names@),
            Some(k) => {
                &&& k < entries@.len()
                &&& devfreq_named(entries@[k as int], names@)
                &&& forall|i: int| 0 <= i < k ==> !devfreq_named(#[trigger] entries@[i], names@)
            },
        },
{
    let mut i: usize = 0;
    while i < entries.len()
        invariant
            i <= entries@.len(),
            forall|j: int| 0 <= j < i ==> !devfreq_named(#[trigger] entries@[j], names@),
        decreases entries@.len() - i,
    {
        if entry_named(&entries[i], names) {
            return Some(i);
        }
        i = i + 1;
    }
    None
}

pub open spec fn has_named_devfreq(entries: Seq<DevfreqEntry>, name: &str) -> bool {
    exists|i: int| 0 <= i < entries.len() && devfreq_named(#[trigger] entries[i], seq![name])
}

/// A CIX Sky1 machine: by its DMI name, or by one of its GPU, NPU or VPU
/// devfreq devices.
pub open spec fn cix_platform(dmi_name: Option<Seq<char>>, entries: Seq<DevfreqEntry>) -> bool {
    ||| contains_seq(
        lower_seq(
            match dmi_name {
                Some(n) => n,
                None => Seq::empty(),
            },
        ),
        "radxa orion o6"@,
    )
    ||| has_named_devfreq(entries, "CIXH5000:00")
    ||| has_named_devfreq(entries, "CIXH4000:00")
    ||| has_named_devfreq(entries, "CIXH3010:00")
}

fn named_present(entries: &Vec<DevfreqEntry>, name: &str) -> (r: bool)
    ensures
        r == has_named_devfreq(entries@, name),
{
    let names: [&str; 1] = [name];
    let found = find_named_devfreq_path(entries, names.as_slice());
    assert(names@ =~= seq![name]);
    match found {
        Some(k) => {
            assert(devfreq_named(entries@[k as int], seq![name]));
            true
        },
        None => false,
    }
}

/// A GPU when some reading of it was had: its load, its clock or its
/// power state.
pub fn gpu_metrics<P>(
    usage_percent: Option<P>,
    frequency_hz: Option<u64>,
    runtime_state: Option<RuntimeState>,
) -> (r: Option<GpuMetrics<P>>)
    ensures
        r == if usage_percent is Some || frequency_hz is Some || runtime_state is Some {
            Some(GpuMetrics { usage_percent, frequency_hz, runtime_state })
        } else {
            None
        },
{
    if usage_percent.is_some() || frequency_hz.is_some() || runtime_state.is_some() {
        Some(GpuMetrics { usage_percent, frequency_hz, runtime_state })
    } else {
        None
    }
}

/// An NPU when some reading of it was had: its load, a load of a core,
/// its clock or its power state.
pub fn npu_metrics<P>(
    usage_percent: Option<P>,
    per_core_usage_percent: Vec<P>,
    frequency_hz: Option<u64>,
    runtime_state: Option<RuntimeState>,
) -> (r: Option<NpuMetrics<P>>)
    ensures
        r == if usage_percent is Some || per_core_usage_percent@.len() > 0 || frequency_hz is Some
            || runtime_state is Some {
            Some(NpuMetrics { usage_percent, per_core_usage_percent, frequency_hz, runtime_state })
        } else {
            None
        },
{
    if usage_percent.is_some() || per_core_usage_percent.len() > 0 || frequency_hz.is_some()
        || runtime_state.is_some() {
        Some(NpuMetrics { usage_percent, per_core_usage_percent, frequency_hz, runtime_state })
    } else {
        None
    }
}

/// A VPU when some reading of it was had: its load, its clock or its
/// power state.
pub fn vpu_metrics<P>(
    usage_percent: Option<P>,
    frequency_hz: Option<u64>,
    runtime_state: Option<RuntimeState>,
) -> (r: Option<VpuMetrics<P>>)
    ensures
        r == if usage_percent is Some || frequency_hz is Some || runtime_state is Some {
            Some(VpuMetrics { usage_percent, frequency_hz, runtime_state })
        } else {
            None
        },
{
    if usage_percent.is_some() || frequency_hz.is_some() || runtime_state.is_some() {
        Some(VpuMetrics { usage_percent, frequency_hz, runtime_state })
    } else {
        None
    }
}

/// The accelerators of the machine: the CIX Sky1 devices where they were
/// found, else the GPU and NPU found under their generic devfreq names;
/// the VPU only from the CIX devices.
pub fn merge_accelerators<P>(cix: AcceleratorMetrics<P>, generic: AcceleratorMetrics<P>) -> (r:
    AcceleratorMetrics<P>)
    ensures
        r.gpu == (if cix.gpu is Some { cix.gpu } else { generic.gpu }),
        r.npu == (if cix.npu is Some { cix.npu } else { generic.npu }),
        r.vpu == cix.vpu,
{
    let gpu = match cix.gpu {
        Some(g) => Some(g),
        None => generic.gpu,
    };
    let npu = match cix.npu {
        Some(n) => Some(n),
        None => generic.npu,
    };
    AcceleratorMetrics { gpu, npu, vpu: cix.vpu }
}

/// Whether the machine is a CIX Sky1, from its DMI name and devfreq devices.
pub fn is_cix_platform(dmi_name: Option<&str>, entries: &Vec<DevfreqEntry>) -> (r: bool)
    ensures
        r == cix_platform(opt_text(dmi_name), entries@),
{
    let name = match dmi_name {
        Some(n) => chars_of(n),
        None => Vec::new(),
    };
    let lowered = to_ascii_lowercase(&name);
    contains_str(&lowered, "radxa orion o6") || named_present(entries, "CIXH5000:00")
        || named_present(entries, "CIXH4000:00") || named_present(entries, "CIXH3010:00")
}

/// The state of the VPU performance monitor switch: whether it was looked
/// at, the switch file, the value it held while the write that enables it
/// is under way, and the value to put back on exit.
pub struct VpuPerfMonitor {
    initialized: bool,
    enable_path: Option<String>,
    pending: Option<String>,
    restore_value: Option<String>,
}

/// `(initialized, enable_path, pending, restore_value)` of the monitor.
pub open spec fn fresh_monitor() -> (bool, Option<Seq<char>>, Option<Seq<char>>, Option<Seq<char>>) {
    (false, None, None, None)
}

/// The first look at the switch: once only; with the switch file's text
/// (none when it could not be read), remember the file, and ask for the
/// monitor to be switched on unless it already is ("1").
pub open spec fn ensure_step(
    m: (bool, Option<Seq<char>>, Option<Seq<char>>, Option<Seq<char>>),
    path: Seq<char>,
    current: Option<Seq<char>>,
) -> ((bool, Option<Seq<char>>, Option<Seq<char>>, Option<Seq<char>>), Option<Seq<char>>) {
    if m.0 {
        (m, None)
    } else {
        match current {
            None => ((true, m.1, m.2, m.3), None),
            Some(text) => if trim(text) == "1"@ {
                ((true, Some(path), m.2, m.3), None)
            } else {
                ((true, Some(path), Some(trim(text)), m.3), Some(path))
            },
        }
    }
}

/// The outcome of the write that switches the monitor on: when it
/// succeeded, the earlier value is to be put back on exit.
pub open spec fn written_step(m: (bool, Option<Seq<char>>, Option<Seq<char>>, Option<Seq<char>>), ok: bool) -> (
    bool,
    Option<Seq<char>>,
    Option<Seq<char>>,
    Option<Seq<char>>,
) {
    match m.2 {
        Some(v) => (
            m.0,
            m.1,
            None,
            if ok {
                Some(v)
            } else {
                m.3
            },
        ),
        None => m,
    }
}

/// On exit: the write that puts the earlier value back (file, text), when
/// there is one; it is then forgotten.
pub open spec fn restore_step(m: (bool, Option<Seq<char>>, Option<Seq<char>>, Option<Seq<char>>)) -> (
    (bool, Option<Seq<char>>, Option<Seq<char>>, Option<Seq<char>>),
    Option<(Seq<char>, Seq<char>)>,
) {
    match (m.1, m.3) {
        (Some(p), Some(v)) => ((m.0, m.1, m.2, None), Some((p, v + "\n"@))),
        _ => (m, None),
    }
}

/// The location of the VPU performance monitor switch under a root.
pub open spec fn vpu_enable_path(root: Seq<char>) -> Seq<char> {
    join_path(root, "kernel/debug/amvx/log/group/perf/enable"@)
}

/// The machine name: the device-tree model, else the DMI name, else the
/// hardware name that `uname` gives.
pub open spec fn machine_name_of(
    device_tree: Option<Seq<char>>,
    dmi: Option<Seq<char>>,
    uname_machine: Seq<char>,
) -> Seq<char> {
    match device_tree {
        Some(m) => m,
        None => match dmi {
            Some(n) => n,
            None => uname_machine,
        },
    }
}

/// The frequency of a CPU: its `scaling_cur_freq`, else its
/// `cpuinfo_cur_freq`, whichever is first readable as a number.
pub open spec fn frequency_of(scaling: Option<Seq<char>>, cpuinfo: Option<Seq<char>>) -> Option<u64> {
    let fallback = match cpuinfo {
        Some(t) => spec_parse_u64(trim(t)),
        None => None,
    };
    match scaling {
        Some(t) => match spec_parse_u64(trim(t)) {
            Some(v) => Some(v),
            None => fallback,
        },
        None => fallback,
    }
}

/// The cpufreq directory of a CPU.
pub open spec fn cpufreq_dir(root: Seq<char>, cpu_id: usize) -> Seq<char> {
    join_path(join_path(root, "devices/system/cpu"@), "cpu"@ + decimal(cpu_id as nat) + "/cpufreq"@)
}

/// Reads the `/sys` tree under a root; it owns the switch of the VPU
/// performance monitor, which it turns on when it finds it off and puts
/// back on exit.
pub struct SysfsReader {
    root: String,
    vpu_perf_monitor: VpuPerfMonitor,
}

fn opt_copy(v: &Option<String>) -> (r: Option<String>)
    ensures
        r == *v,
{
    match v {
        Some(s) => Some(s.clone()),
        None => None,
    }
}

impl SysfsReader {
    pub closed spec fn root_text(&self) -> Seq<char> {
        self.root@
    }

    pub closed spec fn monitor(&self) -> (bool, Option<Seq<char>>, Option<Seq<char>>, Option<Seq<char>>) {
        (
            self.vpu_perf_monitor.initialized,
            opt_string(self.vpu_perf_monitor.enable_path),
            opt_string(self.vpu_perf_monitor.pending),
            opt_string(self.vpu_perf_monitor.restore_value),
        )
    }

    pub fn new(root: &str) -> (r: Self)
        ensures
            r.root_text() == root@,
            r.monitor() == fresh_monitor(),
    {
        SysfsReader {
            root: string_from(&chars_of(root)),
            vpu_perf_monitor: VpuPerfMonitor {
                initialized: false,
                enable_path: None,
                pending: None,
                restore_value: None,
            },
        }
    }

    /// The path of a file of the tree.
    pub fn file_path(&self, relative: &str) -> (r: String)
        ensures
            r@ == join_path(self.root_text(), relative@),
    {
        join_path_text(self.root.as_str(), relative)
    }

    /// The switch file of the VPU performance monitor.
    pub fn vpu_perf_enable_path(&self) -> (r: String)
        ensures
            r@ == vpu_enable_path(self.root_text()),
    {
        self.file_path("kernel/debug/amvx/log/group/perf/enable")
    }

    /// Whether the switch has not been looked at yet.
    pub fn vpu_perf_monitor_pending(&self) -> (r: bool)
        ensures
            r == !self.monitor().0,
    {
        !self.vpu_perf_monitor.initialized
    }

    /// The first look at the switch, given the text of its file when it
    /// could be read: the file to write "1" to, when the monitor is to be
    /// switched on.
    pub fn ensure_vpu_perf_monitor(&mut self, current: Option<&str>) -> (r: Option<String>)
        ensures
            final(self).root_text() == old(self).root_text(),
            (final(self).monitor(), opt_string(r)) == ensure_step(
                old(self).monitor(),
                vpu_enable_path(old(self).root_text()),
                opt_text(current),
            ),
    {
        proof {
            reveal_strlit("1");
        }
        if self.vpu_perf_monitor.initialized {
            return None;
        }
        self.vpu_perf_monitor.initialized = true;
        let text = match current {
            Some(t) => t,
            None => {
                return None;
            },
        };
        let path = self.vpu_perf_enable_path();
        self.vpu_perf_monitor.enable_path = Some(path.clone());
        let value = trim_chars(&chars_of(text));
        if chars_eq_str(&value, "1") {
            return None;
        }
        self.vpu_perf_monitor.pending = Some(string_from(&value));
        Some(path)
    }

    /// Records whether the write that switches the monitor on succeeded.
    pub fn vpu_perf_monitor_written(&mut self, ok: bool)
        ensures
            final(self).root_text() == old(self).root_text(),
            final(self).monitor() == written_step(old(self).monitor(), ok),
    {
        let pending = opt_copy(&self.vpu_perf_monitor.pending);
        match pending {
            Some(v) => {
                self.vpu_perf_monitor.pending = None;
                if ok {
                    self.vpu_perf_monitor.restore_value = Some(v);
                }
            },
            None => {},
        }
    }

    /// The write (file, text) that puts the monitor switch back as it was
    /// found, when this reader switched it on; done once.
    pub fn restore_vpu_perf_monitor(&mut self) -> (r: Option<(String, String)>)
        ensures
            final(self).root_text() == old(self).root_text(),
            (final(self).monitor(), match r {
                Some((p, t)) => Some((p@, t@)),
                None => None,
            }) == restore_step(old(self).monitor()),
    {
        proof {
            reveal_strlit("\n");
        }
        let path = match &self.vpu_perf_monitor.enable_path {
            Some(p) => p.clone(),
            None => {
                return None;
            },
        };
        let value = match &self.vpu_perf_monitor.restore_value {
            Some(v) => chars_of(v.as_str()),
            None => {
                return None;
            },
        };
        let mut text = value;
        text.push('\n');
        self.vpu_perf_monitor.restore_value = None;
        Some((path, string_from(&text)))
    }

    /// The machine's name, kernel release and hardware name, from the texts
    /// of `/proc/sys/kernel/osrelease`, `/proc/device-tree/model` and the
    /// DMI `sys_vendor` and `product_name` files (each when it could be
    /// read), and the hardware name that `uname` gives.
    pub fn machine_info(
        &self,
        procfs: &ProcfsReader,
        kernel_release_text: &str,
        device_tree_text: Option<&str>,
        dmi_vendor_text: Option<&str>,
        dmi_product_text: Option<&str>,
        uname_machine: &str,
    ) -> (r: MachineInfo)
        ensures
            r.machine_name@ == machine_name_of(
                device_tree_model_of(opt_text(device_tree_text)),
                dmi_name_of(opt_text(dmi_vendor_text), opt_text(dmi_product_text)),
                uname_machine@,
            ),
            r.kernel@ == trim(kernel_release_text@),
            r.arch@ == uname_machine@,
    {
        let kernel = procfs.read_kernel_release(kernel_release_text);
        let machine_name = match read_device_tree_model(device_tree_text) {
            Some(m) => m,
            None => match read_dmi_system_name(dmi_vendor_text, dmi_product_text) {
                Some(n) => n,
                None => string_from(&chars_of(uname_machine)),
            },
        };
        MachineInfo { machine_name, kernel, arch: string_from(&chars_of(uname_machine)) }
    }

    /// The `scaling_cur_freq` and `cpuinfo_cur_freq` files of a CPU.
    pub fn cpu_frequency_paths(&self, cpu_id: usize) -> (r: (String, String))
        ensures
            r.0@ == join_path(cpufreq_dir(self.root_text(), cpu_id), "scaling_cur_freq"@),
            r.1@ == join_path(cpufreq_dir(self.root_text(), cpu_id), "cpuinfo_cur_freq"@),
    {
        let cpu_dir = self.file_path("devices/system/cpu");
        let mut rel = chars_of("cpu");
        push_decimal(&mut rel, cpu_id as u64);
        let tail = chars_of("/cpufreq");
        let rel = concat_chars(&rel, &tail);
        let rel_text = string_from(&rel);
        let base = join_path_text(cpu_dir.as_str(), rel_text.as_str());
        (
            join_path_text(base.as_str(), "scaling_cur_freq"),
            join_path_text(base.as_str(), "cpuinfo_cur_freq"),
        )
    }

    /// The frequency of each CPU, numbered in order, from the texts of its
    /// two frequency files (each when it could be read).
    pub fn read_cpu_frequencies(&self, readings: &Vec<(Option<String>, Option<String>)>) -> (r: HashMap<usize, Option<u64>>)
        ensures
            r@.dom() == Set::new(|i: usize| i < readings@.len()),
            forall|i: usize|
                #![trigger r@[i]]
                i < readings@.len() ==> r@[i] == frequency_of(
                    opt_string(readings@[i as int].0),
                    opt_string(readings@[i as int].1),
                ),
    {
        broadcast use vstd::std_specs::hash::group_hash_axioms;

        let mut frequencies: HashMap<usize, Option<u64>> = HashMap::new();
        let mut i: usize = 0;
        assert(frequencies@.dom() =~= Set::new(|j: usize| j < 0));
        while i < readings.len()
            invariant
                i <= readings@.len(),
                frequencies@.dom() == Set::new(|j: usize| j < i),
                forall|j: usize|
                    #![trigger frequencies@[j]]
                    j < i ==> frequencies@[j] == frequency_of(
                        opt_string(readings@[j as int].0),
                        opt_string(readings@[j as int].1),
                    ),
            decreases readings@.len() - i,
        {
            let (scaling, cpuinfo) = &readings[i];
            let fallback = match cpuinfo {
                Some(t) => read_u64(t.as_str()),
                None => None,
            };
            let frequency = match scaling {
                Some(t) => match read_u64(t.as_str()) {
                    Some(v) => Some(v),
                    None => fallback,
                },
                None => fallback,
            };
            frequencies.insert(i, frequency);
            assert(frequencies@.dom() =~= Set::new(|j: usize| j < i + 1));
            i = i + 1;
        }
        frequencies
    }

    /// The `path` file of the `LNXTHERM` ACPI device of a thermal zone.
    pub fn lnxtherm_path(&self, index: usize) -> (r: String)
        ensures
            r@ == join_path(
                self.root_text(),
                "bus/acpi/devices/LNXTHERM:"@ + two_digits(index as nat) + "/path"@,
            ),
    {
        let mut rel = chars_of("bus/acpi/devices/LNXTHERM:");
        push_two_digits(&mut rel, index as u64);
        let rel = concat_chars(&rel, &chars_of("/path"));
        let rel_text = string_from(&rel);
        self.file_path(rel_text.as_str())
    }

    /// The power state of a device, from the text of its `runtime_status`
    /// file when it could be read.
    pub fn read_runtime_state(&self, content: Option<&str>) -> (r: Option<RuntimeState>)
        ensures
            r == match content {
                Some(t) => runtime_state_of(t@),
                None => None,
            },
    {
        match content {
            Some(t) => parse_runtime_state(t),
            None => None,
        }
    }
}

/// The switch is looked at once: a second look changes nothing and asks
/// for no write.
pub proof fn lemma_vpu_monitor_looks_once(
    m: (bool, Option<Seq<char>>, Option<Seq<char>>, Option<Seq<char>>),
    path: Seq<char>,
    current: Option<Seq<char>>,
    later_path: Seq<char>,
    later: Option<Seq<char>>,
)
    ensures
        ensure_step(ensure_step(m, path, current).0, later_path, later) == (
            ensure_step(m, path, current).0,
            None::<Seq<char>>,
        ),
{
}

/// Putting the switch back happens at most once: after it, there is
/// nothing more to write.
pub proof fn lemma_vpu_monitor_restores_once(m: (bool, Option<Seq<char>>, Option<Seq<char>>, Option<Seq<char>>))
    ensures
        restore_step(restore_step(m).0).1 is None,
{
}

/// A switch that was found off and then switched on is put back to the
/// value it was found with, in the same file, once.
pub proof fn lemma_vpu_monitor_puts_back_what_it_found(path: Seq<char>, text: Seq<char>)
    requires
        trim(text) != "1"@,
    ensures
        ({
            let (looked, write) = ensure_step(fresh_monitor(), path, Some(text));
            let switched = written_step(looked, true);
            &&& write == Some(path)
            &&& restore_step(switched).1 == Some((path, trim(text) + "\n"@))
            &&& restore_step(restore_step(switched).0).1 is None
        }),
{
}

/// A switch that was found on, could not be read, or could not be written
/// is left alone on exit.
pub proof fn lemma_vpu_monitor_leaves_alone(path: Seq<char>, current: Option<Seq<char>>, ok: bool)
    requires
        current is None || trim(current->0) == "1"@ || !ok,
    ensures
        ({
            let (looked, write) = ensure_step(fresh_monitor(), path, current);
            let after = written_step(looked, ok);
            &&& (current is None || trim(current->0) == "1"@) ==> write is None
            &&& restore_step(after).1 is None
        }),
{
}

/// Deduplication keeps one reading per key: the kept readings come from
/// the input, no two share a key, and every key of the input is kept.
pub proof fn lemma_dedupe_keeps_one_per_key(s: Seq<SensorReading>)
    ensures
        forall|j: int| 0 <= j < dedupe(s).len() ==> s.contains(#[trigger] dedupe(s)[j]),
        forall|i: int, j: int|
            0 <= i < j < dedupe(s).len() ==> sensor_key(#[trigger] dedupe(s)[i]) != sensor_key(
                #[trigger] dedupe(s)[j],
            ),
        forall|i: int|
            0 <= i < s.len() ==> exists|j: int|
                0 <= j < dedupe(s).len() && sensor_key(#[trigger] dedupe(s)[j]) == sensor_key(
                    #[trigger] s[i],
                ),
    decreases s.len(),
{
    if s.len() > 0 {
        let rest = s.drop_last();
        let d = dedupe(rest);
        let n = s.len() - 1;
        lemma_dedupe_keeps_one_per_key(rest);
        assert forall|j: int| 0 <= j < d.len() implies s.contains(#[trigger] d[j]) by {
            let k = choose|k: int| 0 <= k < rest.len() && rest[k] == d[j];
            assert(s[k] == rest[k]);
        }
        if seen_before(s, n) {
            let k = choose|k: int| 0 <= k < n && sensor_key(#[trigger] s[k]) == sensor_key(s[n]);
            assert(rest[k] == s[k]);
            assert forall|i: int| 0 <= i < s.len() implies exists|j: int|
                0 <= j < dedupe(s).len() && sensor_key(#[trigger] dedupe(s)[j]) == sensor_key(
                    #[trigger] s[i],
                ) by {
                assert(dedupe(s) == d);
                let m = if i < n {
                    i
                } else {
                    k
                };
                assert(rest[m] == s[m]);
                assert(sensor_key(rest[m]) == sensor_key(s[i]));
                let j = choose|j: int|
                    0 <= j < d.len() && sensor_key(#[trigger] d[j]) == sensor_key(#[trigger] rest[m]);
                assert(sensor_key(dedupe(s)[j]) == sensor_key(s[i]));
            }
        } else {
            let e = d.push(s.last());
            assert(dedupe(s) == e);
            assert forall|j: int| 0 <= j < d.len() implies sensor_key(#[trigger] d[j]) != sensor_key(
                s[n],
            ) by {
                let k = choose|k: int| 0 <= k < rest.len() && rest[k] == d[j];
                assert(s[k] == rest[k]);
            }
            assert forall|j: int| 0 <= j < e.len() implies s.contains(#[trigger] e[j]) by {
                if j < d.len() {
                    assert(e[j] == d[j]);
                } else {
                    assert(s[n] == e[j]);
                }
            }
            assert forall|i: int, j: int|
                0 <= i < j < e.len() implies sensor_key(#[trigger] e[i]) != sensor_key(#[trigger] e[j]) by {
                assert(e[i] == d[i]);
                if j < d.len() {
                    assert(e[j] == d[j]);
                }
            }
            assert forall|i: int| 0 <= i < s.len() implies exists|j: int|
                0 <= j < e.len() && sensor_key(#[trigger] e[j]) == sensor_key(#[trigger] s[i]) by {
                if i < n {
                    assert(rest[i] == s[i]);
                    let j = choose|j: int|
                        0 <= j < d.len() && sensor_key(#[trigger] d[j]) == sensor_key(#[trigger] rest[i]);
                    assert(e[j] == d[j]);
                } else {
                    assert(e[d.len() as int] == s[n]);
                }
            }
        }
    }
}

/// The words that name a GPU, an NPU or the SoC.
pub open spec fn names_gpu_npu_or_soc(hay: Seq<char>) -> bool {
    contains_seq(hay, "gpu"@) || contains_seq(hay, "npu"@) || contains_seq(hay, "soc"@)
}

/// A sensor is classified by the words in its lower-cased device name and
/// label, in this order of precedence: `gpu` (or `amdgpu`) a GPU; else
/// `npu` an NPU; else `soc` the SoC; else `package`, `tctl`, `tdie`, `cpu`,
/// `coretemp`, `k10temp`, `littlecore` or `bigcore` a CPU; else `nvme` or
/// `composite` storage; else `wifi`, `phy` or `mt79` a wireless adapter;
/// else `r8169`, `eth` or `net` a network adapter; else unknown.
pub proof fn lemma_sensor_kind_by_words(device_name: Seq<char>, label: Seq<char>)
    ensures
        ({
            let hay = lower_seq(device_name + " "@ + label);
            let k = sensor_kind(device_name, label);
            let cpu_word = contains_seq(hay, "package"@) || contains_seq(hay, "tctl"@) || contains_seq(
                hay,
                "tdie"@,
            ) || contains_seq(hay, "cpu"@) || contains_seq(hay, "coretemp"@) || contains_seq(
                hay,
                "k10temp"@,
            ) || contains_seq(hay, "littlecore"@) || contains_seq(hay, "bigcore"@);
            let storage_word = contains_seq(hay, "nvme"@) || contains_seq(hay, "composite"@);
            let wireless_word = contains_seq(hay, "wifi"@) || contains_seq(hay, "phy"@) || contains_seq(
                hay,
                "mt79"@,
            );
            let network_word = contains_seq(hay, "r8169"@) || contains_seq(hay, "eth"@) || contains_seq(
                hay,
                "net"@,
            );
            &&& (contains_seq(hay, "gpu"@) || contains_seq(hay, "amdgpu"@)) ==> k == SensorKind::Gpu
            &&& !contains_seq(hay, "gpu"@) && !contains_seq(hay, "amdgpu"@) && contains_seq(hay, "npu"@)
                ==> k == SensorKind::Npu
            &&& !contains_seq(hay, "gpu"@) && !contains_seq(hay, "amdgpu"@) && !contains_seq(hay, "npu"@)
                && contains_seq(hay, "soc"@) ==> k == SensorKind::Soc
            &&& !names_gpu_npu_or_soc(hay) && !contains_seq(hay, "amdgpu"@) && cpu_word ==> k
                == SensorKind::Cpu
            &&& !names_gpu_npu_or_soc(hay) && !contains_seq(hay, "amdgpu"@) && !cpu_word && storage_word
                ==> k == SensorKind::Storage
            &&& !names_gpu_npu_or_soc(hay) && !contains_seq(hay, "amdgpu"@) && !cpu_word && !storage_word
                && wireless_word ==> k == SensorKind::Wireless
            &&& !names_gpu_npu_or_soc(hay) && !contains_seq(hay, "amdgpu"@) && !cpu_word && !storage_word
                && !wireless_word && network_word ==> k == SensorKind::Network
            &&& !names_gpu_npu_or_soc(hay) && !contains_seq(hay, "amdgpu"@) && !cpu_word && !storage_word
                && !wireless_word && !network_word ==> k == SensorKind::Unknown
        }),
{
}

} // verus!

