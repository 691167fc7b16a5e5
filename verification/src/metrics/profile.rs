//! Board profiles: which temperature sensors stand for which part of the
//! machine on boards whose sensors the generic grouping misreads.
use vstd::prelude::*;
use crate::text::{chars_eq_str, chars_of, contains_seq, contains_str, lower_seq, to_ascii_lowercase};
use super::model::{MachineInfo, SensorKind, SensorReading, SensorSummary, views};

verus! {

#[derive(Clone, Copy, Debug, PartialEq, Eq, Structural)]
pub enum BoardProfile {
    GenericLinux,
    CixSky1,
    RockchipRk3588,
}

/// The thermal-zone labels of the CIX Sky1 CPU clusters.
pub open spec fn is_cix_sensor_label(l: Seq<char>) -> bool {
    ||| l == "cpu-b0"@
    ||| l == "cpu-b1"@
    ||| l == "cpu-l0"@
    ||| l == "cpu-m0"@
    ||| l == "cpu-m1"@
}

/// The thermal-zone labels of the RK3588.
pub open spec fn is_rk3588_sensor_label(l: Seq<char>) -> bool {
    ||| l == "littlecore-thermal"@
    ||| l == "bigcore0-thermal"@
    ||| l == "bigcore1-thermal"@
    ||| l == "gpu-thermal"@
    ||| l == "npu-thermal"@
    ||| l == "soc-thermal"@
}

pub open spec fn has_cix_sensor(sensors: Seq<SensorReading>) -> bool {
    exists|i: int| 0 <= i < sensors.len() && is_cix_sensor_label(#[trigger] sensors[i].label@)
}

pub open spec fn has_rk3588_sensor(sensors: Seq<SensorReading>) -> bool {
    exists|i: int| 0 <= i < sensors.len() && is_rk3588_sensor_label(#[trigger] sensors[i].label@)
}

/// The profile of a machine: CIX Sky1 by name or by its CPU sensor labels,
/// else RK3588 by name or by its sensor labels, else generic.
pub open spec fn detected_profile(machine_name: Seq<char>, sensors: Seq<SensorReading>) -> BoardProfile {
    let name = lower_seq(machine_name);
    if contains_seq(name, "radxa orion o6"@) || contains_seq(name, "cix"@) || has_cix_sensor(
        sensors,
    ) {
        BoardProfile::CixSky1
    } else if contains_seq(name, "rk3588"@) || has_rk3588_sensor(sensors) {
        BoardProfile::RockchipRk3588
    } else {
        BoardProfile::GenericLinux
    }
}

/// The temperature of the first sensor with the label.
pub open spec fn lookup_temperature(sensors: Seq<SensorReading>, label: Seq<char>) -> Option<u64>
    decreases sensors.len(),
{
    if sensors.len() == 0 {
        None
    } else if sensors[0].label@ == label {
        Some(sensors[0].temperature_millic)
    } else {
        lookup_temperature(sensors.skip(1), label)
    }
}

/// The larger of two optional temperatures.
pub open spec fn opt_max(a: Option<u64>, b: Option<u64>) -> Option<u64> {
    match (a, b) {
        (Some(x), Some(y)) => Some(
            if x >= y {
                x
            } else {
                y
            },
        ),
        (Some(x), None) => Some(x),
        (None, y) => y,
    }
}

/// The first of two optional temperatures that is there.
pub open spec fn or_else(a: Option<u64>, b: Option<u64>) -> Option<u64> {
    match a {
        Some(x) => Some(x),
        None => b,
    }
}

/// The highest temperature among the sensors of a kind.
pub open spec fn max_of_kind(sensors: Seq<SensorReading>, kind: SensorKind) -> Option<u64>
    decreases sensors.len(),
{
    if sensors.len() == 0 {
        None
    } else {
        opt_max(
            max_of_kind(sensors.drop_last(), kind),
            if sensors.last().kind == kind {
                Some(sensors.last().temperature_millic)
            } else {
                None
            },
        )
    }
}

/// `rows` with a row for `label` when there is a temperature.
pub open spec fn with_row(rows: Seq<(Seq<char>, u64)>, label: Seq<char>, t: Option<u64>) -> Seq<
    (Seq<char>, u64),
> {
    match t {
        Some(x) => rows.push((label, x)),
        None => rows,
    }
}

/// Generic boards: the hottest sensor of each kind, in the order cpu, gpu,
/// npu, soc, nvme (storage).
pub open spec fn generic_summary(s: Seq<SensorReading>) -> Seq<(Seq<char>, u64)> {
    let r = with_row(Seq::empty(), "cpu"@, max_of_kind(s, SensorKind::Cpu));
    let r = with_row(r, "gpu"@, max_of_kind(s, SensorKind::Gpu));
    let r = with_row(r, "npu"@, max_of_kind(s, SensorKind::Npu));
    let r = with_row(r, "soc"@, max_of_kind(s, SensorKind::Soc));
    with_row(r, "nvme"@, max_of_kind(s, SensorKind::Storage))
}

/// CIX Sky1: the hottest CPU cluster, the `gpu` and `soc` zones, and the
/// hottest storage sensor.
pub open spec fn cix_sky1_summary(s: Seq<SensorReading>) -> Seq<(Seq<char>, u64)> {
    let cpu = opt_max(
        opt_max(
            opt_max(
                opt_max(lookup_temperature(s, "cpu-b0"@), lookup_temperature(s, "cpu-b1"@)),
                lookup_temperature(s, "cpu-l0"@),
            ),
            lookup_temperature(s, "cpu-m0"@),
        ),
        lookup_temperature(s, "cpu-m1"@),
    );
    let r = with_row(Seq::empty(), "cpu"@, cpu);
    let r = with_row(r, "gpu"@, lookup_temperature(s, "gpu"@));
    let r = with_row(r, "soc"@, lookup_temperature(s, "soc"@));
    with_row(r, "nvme"@, max_of_kind(s, SensorKind::Storage))
}

/// RK3588: the hottest CPU cluster and the gpu, npu and soc zones.
pub open spec fn rk3588_summary(s: Seq<SensorReading>) -> Seq<(Seq<char>, u64)> {
    let cpu = opt_max(
        opt_max(
            lookup_temperature(s, "littlecore-thermal"@),
            lookup_temperature(s, "bigcore0-thermal"@),
        ),
        lookup_temperature(s, "bigcore1-thermal"@),
    );
    let r = with_row(Seq::empty(), "cpu"@, cpu);
    let r = with_row(r, "gpu"@, lookup_temperature(s, "gpu-thermal"@));
    let r = with_row(r, "npu"@, lookup_temperature(s, "npu-thermal"@));
    with_row(r, "soc"@, lookup_temperature(s, "soc-thermal"@))
}

/// The summary line of a profile. An RK3588 whose thermal zones carry none
/// of the RK3588 labels is summarised as a generic Linux machine.
pub open spec fn summary_of(profile: BoardProfile, s: Seq<SensorReading>) -> Seq<(Seq<char>, u64)> {
    match profile {
        BoardProfile::GenericLinux => generic_summary(s),
        BoardProfile::CixSky1 => cix_sky1_summary(s),
        BoardProfile::RockchipRk3588 => if has_rk3588_sensor(s) {
            rk3588_summary(s)
        } else {
            generic_summary(s)
        },
    }
}

/// The temperature shown beside a CPU: the zone of its cluster (falling
/// back to the SoC zone where the board has one), none on generic boards.
pub open spec fn cpu_temperature(profile: BoardProfile, cpu_id: usize, s: Seq<SensorReading>) -> Option<u64> {
    match profile {
        BoardProfile::GenericLinux => None,
        BoardProfile::CixSky1 => if cpu_id <= 1 {
            lookup_temperature(s, "cpu-b1"@)
        } else if cpu_id <= 5 {
            or_else(lookup_temperature(s, "cpu-l0"@), lookup_temperature(s, "soc"@))
        } else if cpu_id <= 7 {
            lookup_temperature(s, "cpu-m0"@)
        } else if cpu_id <= 9 {
            lookup_temperature(s, "cpu-m1"@)
        } else if cpu_id <= 11 {
            lookup_temperature(s, "cpu-b0"@)
        } else {
            None
        },
        BoardProfile::RockchipRk3588 => if cpu_id < 4 {
            or_else(lookup_temperature(s, "littlecore-thermal"@), lookup_temperature(s, "soc-thermal"@))
        } else if cpu_id < 6 {
            or_else(lookup_temperature(s, "bigcore0-thermal"@), lookup_temperature(s, "soc-thermal"@))
        } else {
            or_else(lookup_temperature(s, "bigcore1-thermal"@), lookup_temperature(s, "soc-thermal"@))
        },
    }
}

fn is_cix_label(l: &str) -> (r: bool)
    ensures
        r == is_cix_sensor_label(l@),
{
    let c = chars_of(l);
    chars_eq_str(&c, "cpu-b0") || chars_eq_str(&c, "cpu-b1") || chars_eq_str(&c, "cpu-l0")
        || chars_eq_str(&c, "cpu-m0") || chars_eq_str(&c, "cpu-m1")
}

fn is_rk3588_label(l: &str) -> (r: bool)
    ensures
        r == is_rk3588_sensor_label(l@),
{
    let c = chars_of(l);
    chars_eq_str(&c, "littlecore-thermal") || chars_eq_str(&c, "bigcore0-thermal")
        || chars_eq_str(&c, "bigcore1-thermal") || chars_eq_str(&c, "gpu-thermal")
        || chars_eq_str(&c, "npu-thermal") || chars_eq_str(&c, "soc-thermal")
}

fn any_cix_sensor(sensors: &Vec<SensorReading>) -> (r: bool)
    ensures
        r == has_cix_sensor(sensors@),
{
    let mut i: usize = 0;
    while i < sensors.len()
        invariant
            i <= sensors@.len(),
            forall|j: int| 0 <= j < i ==> !is_cix_sensor_label(#[trigger] sensors@[j].label@),
        decreases sensors@.len() - i,
    {
        if is_cix_label(sensors[i].label.as_str()) {
            assert(is_cix_sensor_label(sensors@[i as int].label@));
            return true;
        }
        i = i + 1;
    }
    false
}

fn any_rk3588_sensor(sensors: &Vec<SensorReading>) -> (r: bool)
    ensures
        r == has_rk3588_sensor(sensors@),
{
    let mut i: usize = 0;
    while i < sensors.len()
        invariant
            i <= sensors@.len(),
            forall|j: int| 0 <= j < i ==> !is_rk3588_sensor_label(#[trigger] sensors@[j].label@),
        decreases sensors@.len() - i,
    {
        if is_rk3588_label(sensors[i].label.as_str()) {
            assert(is_rk3588_sensor_label(sensors@[i as int].label@));
            return true;
        }
        i = i + 1;
    }
    false
}

/// The temperature of the first sensor with the label.
pub fn lookup_sensor(sensors: &Vec<SensorReading>, label: &str) -> (r: Option<u64>)
    ensures
        r == lookup_temperature(sensors@, label@),
{
    let want = chars_of(label);
    let mut i: usize = 0;
    assert(sensors@.skip(0) =~= sensors@);
    while i < sensors.len()
        invariant
            i <= sensors@.len(),
            want@ == label@,
            lookup_temperature(sensors@, label@) == lookup_temperature(sensors@.skip(i as int), label@),
        decreases sensors@.len() - i,
    {
        let ghost rest = sensors@.skip(i as int);
        assert(rest[0] == sensors@[i as int]);
        assert(rest.skip(1) =~= sensors@.skip(i + 1));
        assert(lookup_temperature(rest, label@) == if rest[0].label@ == label@ {
            Some(rest[0].temperature_millic)
        } else {
            lookup_temperature(rest.skip(1), label@)
        });
        let have = chars_of(sensors[i].label.as_str());
        if crate::text::chars_eq(&have, &want) {
            return Some(sensors[i].temperature_millic);
        }
        i = i + 1;
    }
    None
}

fn max_opt(a: Option<u64>, b: Option<u64>) -> (r: Option<u64>)
    ensures
        r == opt_max(a, b),
{
    match (a, b) {
        (Some(x), Some(y)) => Some(
            if x >= y {
                x
            } else {
                y
            },
        ),
        (Some(x), None) => Some(x),
        (None, y) => y,
    }
}

fn first_of(a: Option<u64>, b: Option<u64>) -> (r: Option<u64>)
    ensures
        r == or_else(a, b),
{
    match a {
        Some(x) => Some(x),
        None => b,
    }
}

/// The highest temperature among the sensors of a kind.
fn kind_max(sensors: &Vec<SensorReading>, kind: SensorKind) -> (r: Option<u64>)
    ensures
        r == max_of_kind(sensors@, kind),
{
    let mut m: Option<u64> = None;
    let mut i: usize = 0;
    while i < sensors.len()
        invariant
            i <= sensors@.len(),
            m == max_of_kind(sensors@.take(i as int), kind),
        decreases sensors@.len() - i,
    {
        assert(sensors@.take(i + 1).drop_last() =~= sensors@.take(i as int));
        let here = if sensors[i].kind == kind {
            Some(sensors[i].temperature_millic)
        } else {
            None
        };
        m = max_opt(m, here);
        i = i + 1;
    }
    assert(sensors@.take(i as int) =~= sensors@);
    m
}

fn push_row(rows: &mut Vec<SensorSummary>, label: &str, t: Option<u64>)
    ensures
        views(final(rows)@) == with_row(views(old(rows)@), label@, t),
{
    if let Some(x) = t {
        let text = chars_of(label);
        let row = SensorSummary { label: crate::text::string_from(&text), temperature_millic: x };
        rows.push(row);
        assert(views(rows@) =~= views(old(rows)@).push((label@, x)));
    }
}

/// Appends the rows of the generic summary to an empty summary.
fn push_generic_rows(rows: &mut Vec<SensorSummary>, sensors: &Vec<SensorReading>)
    requires
        views(old(rows)@) == Seq::<(Seq<char>, u64)>::empty(),
    ensures
        views(final(rows)@) == generic_summary(sensors@),
{
    push_row(rows, "cpu", kind_max(sensors, SensorKind::Cpu));
    push_row(rows, "gpu", kind_max(sensors, SensorKind::Gpu));
    push_row(rows, "npu", kind_max(sensors, SensorKind::Npu));
    push_row(rows, "soc", kind_max(sensors, SensorKind::Soc));
    push_row(rows, "nvme", kind_max(sensors, SensorKind::Storage));
}

impl BoardProfile {
    /// The profile of the machine, from its name and its sensors.
    pub fn detect(machine: &MachineInfo, sensors: &Vec<SensorReading>) -> (r: Self)
        ensures
            r == detected_profile(machine.machine_name@, sensors@),
    {
        let name = to_ascii_lowercase(&chars_of(machine.machine_name.as_str()));
        if contains_str(&name, "radxa orion o6") || contains_str(&name, "cix") || any_cix_sensor(
            sensors,
        ) {
            BoardProfile::CixSky1
        } else if contains_str(&name, "rk3588") || any_rk3588_sensor(sensors) {
            BoardProfile::RockchipRk3588
        } else {
            BoardProfile::GenericLinux
        }
    }

    /// The temperatures the dashboard's summary line shows, in its order.
    pub fn sensor_summary(self, sensors: &Vec<SensorReading>) -> (r: Vec<SensorSummary>)
        ensures
            views(r@) == summary_of(self, sensors@),
    {
        let mut rows: Vec<SensorSummary> = Vec::new();
        assert(views(rows@) =~= Seq::<(Seq<char>, u64)>::empty());
        match self {
            BoardProfile::GenericLinux => {
                push_generic_rows(&mut rows, sensors);
            },
            BoardProfile::CixSky1 => {
                let cpu = max_opt(
                    max_opt(
                        max_opt(
                            max_opt(lookup_sensor(sensors, "cpu-b0"), lookup_sensor(sensors, "cpu-b1")),
                            lookup_sensor(sensors, "cpu-l0"),
                        ),
                        lookup_sensor(sensors, "cpu-m0"),
                    ),
                    lookup_sensor(sensors, "cpu-m1"),
                );
                push_row(&mut rows, "cpu", cpu);
                push_row(&mut rows, "gpu", lookup_sensor(sensors, "gpu"));
                push_row(&mut rows, "soc", lookup_sensor(sensors, "soc"));
                push_row(&mut rows, "nvme", kind_max(sensors, SensorKind::Storage));
            },
            BoardProfile::RockchipRk3588 => if !any_rk3588_sensor(sensors) {
                push_generic_rows(&mut rows, sensors);
            } else {
                let cpu = max_opt(
                    max_opt(
                        lookup_sensor(sensors, "littlecore-thermal"),
                        lookup_sensor(sensors, "bigcore0-thermal"),
                    ),
                    lookup_sensor(sensors, "bigcore1-thermal"),
                );
                push_row(&mut rows, "cpu", cpu);
                push_row(&mut rows, "gpu", lookup_sensor(sensors, "gpu-thermal"));
                push_row(&mut rows, "npu", lookup_sensor(sensors, "npu-thermal"));
                push_row(&mut rows, "soc", lookup_sensor(sensors, "soc-thermal"));
            },
        }
        rows
    }

    /// The temperature shown beside a CPU, in millidegrees.
    pub fn per_cpu_temperature(self, cpu_id: usize, sensors: &Vec<SensorReading>) -> (r: Option<u64>)
        ensures
            r == cpu_temperature(self, cpu_id, sensors@),
    {
        match self {
            BoardProfile::GenericLinux => None,
            BoardProfile::CixSky1 => {
                if cpu_id <= 1 {
                    lookup_sensor(sensors, "cpu-b1")
                } else if cpu_id <= 5 {
                    first_of(lookup_sensor(sensors, "cpu-l0"), lookup_sensor(sensors, "soc"))
                } else if cpu_id <= 7 {
                    lookup_sensor(sensors, "cpu-m0")
                } else if cpu_id <= 9 {
                    lookup_sensor(sensors, "cpu-m1")
                } else if cpu_id <= 11 {
                    lookup_sensor(sensors, "cpu-b0")
                } else {
                    None
                }
            },
            BoardProfile::RockchipRk3588 => {
                let soc = lookup_sensor(sensors, "soc-thermal");
                if cpu_id < 4 {
                    first_of(lookup_sensor(sensors, "littlecore-thermal"), soc)
                } else if cpu_id < 6 {
                    first_of(lookup_sensor(sensors, "bigcore0-thermal"), soc)
                } else {
                    first_of(lookup_sensor(sensors, "bigcore1-thermal"), soc)
                }
            },
        }
    }
}

/// The temperature kept for a kind is the hottest reading of that kind:
/// none is hotter, and one reads it; there is none only when no sensor is
/// of that kind.
pub proof fn lemma_max_of_kind_is_hottest(sensors: Seq<SensorReading>, kind: SensorKind)
    ensures
        match max_of_kind(sensors, kind) {
            None => forall|i: int| 0 <= i < sensors.len() ==> (#[trigger] sensors[i]).kind != kind,
            Some(t) => {
                &&& forall|i: int|
                    0 <= i < sensors.len() && (#[trigger] sensors[i]).kind == kind ==> sensors[i].temperature_millic
                        <= t
                &&& exists|i: int|
                    0 <= i < sensors.len() && (#[trigger] sensors[i]).kind == kind
                        && sensors[i].temperature_millic == t
            },
        },
    decreases sensors.len(),
{
    if sensors.len() > 0 {
        let rest = sensors.drop_last();
        lemma_max_of_kind_is_hottest(rest, kind);
        assert forall|i: int| 0 <= i < rest.len() implies rest[i] == sensors[i] by {}
        let last = sensors.len() - 1;
        match max_of_kind(rest, kind) {
            Some(t) => {
                let j = choose|j: int|
                    0 <= j < rest.len() && (#[trigger] rest[j]).kind == kind && rest[j].temperature_millic == t;
                assert(sensors[j] == rest[j]);
            },
            None => {},
        }
        if sensors[last].kind == kind {
            assert(sensors[last] == sensors.last());
        }
    }
}

/// A label's temperature is that of the first sensor with the label.
pub proof fn lemma_lookup_is_first(sensors: Seq<SensorReading>, label: Seq<char>)
    ensures
        match lookup_temperature(sensors, label) {
            None => forall|i: int| 0 <= i < sensors.len() ==> (#[trigger] sensors[i]).label@ != label,
            Some(t) => exists|i: int|
                0 <= i < sensors.len() && (#[trigger] sensors[i]).label@ == label
                    && sensors[i].temperature_millic == t && forall|j: int|
                    0 <= j < i ==> sensors[j].label@ != label,
        },
    decreases sensors.len(),
{
    if sensors.len() > 0 {
        let rest = sensors.skip(1);
        lemma_lookup_is_first(rest, label);
        assert forall|i: int| 0 <= i < rest.len() implies rest[i] == sensors[i + 1] by {}
        if sensors[0].label@ != label {
            match lookup_temperature(rest, label) {
                Some(t) => {
                    let k = choose|k: int|
                        0 <= k < rest.len() && (#[trigger] rest[k]).label@ == label
                            && rest[k].temperature_millic == t && forall|j: int|
                            0 <= j < k ==> rest[j].label@ != label;
                    assert(sensors[k + 1] == rest[k]);
                    assert forall|j: int| 0 <= j < k + 1 implies sensors[j].label@ != label by {
                        if j > 0 {
                            assert(sensors[j] == rest[j - 1]);
                        }
                    }
                },
                None => {
                    assert forall|i: int| 0 <= i < sensors.len() implies (#[trigger] sensors[i]).label@ != label by {
                        if i > 0 {
                            assert(sensors[i] == rest[i - 1]);
                        }
                    }
                },
            }
        }
    }
}

/// A machine that neither names nor shows the sensors of a known board is
/// handled as a generic Linux machine, which shows no per-CPU temperature.
pub proof fn lemma_unknown_board_is_generic(machine_name: Seq<char>, sensors: Seq<SensorReading>, cpu_id: usize)
    requires
        !contains_seq(lower_seq(machine_name), "radxa orion o6"@),
        !contains_seq(lower_seq(machine_name), "cix"@),
        !contains_seq(lower_seq(machine_name), "rk3588"@),
        forall|i: int|
            0 <= i < sensors.len() ==> !is_cix_sensor_label(#[trigger] sensors[i].label@)
                && !is_rk3588_sensor_label(sensors[i].label@),
    ensures
        detected_profile(machine_name, sensors) == BoardProfile::GenericLinux,
        cpu_temperature(detected_profile(machine_name, sensors), cpu_id, sensors) is None,
{
}

/// An RK3588 whose thermal zones carry none of the RK3588 labels falls
/// back to the generic Linux behaviour: the same summary line, and no
/// per-CPU temperature.
pub proof fn lemma_rk3588_without_labels_is_generic(sensors: Seq<SensorReading>, cpu_id: usize)
    requires
        forall|i: int| 0 <= i < sensors.len() ==> !is_rk3588_sensor_label(#[trigger] sensors[i].label@),
    ensures
        summary_of(BoardProfile::RockchipRk3588, sensors) == summary_of(BoardProfile::GenericLinux, sensors),
        cpu_temperature(BoardProfile::RockchipRk3588, cpu_id, sensors) == cpu_temperature(
            BoardProfile::GenericLinux,
            cpu_id,
            sensors,
        ),
{
    reveal_strlit("littlecore-thermal");
    reveal_strlit("bigcore0-thermal");
    reveal_strlit("bigcore1-thermal");
    reveal_strlit("soc-thermal");
    lemma_lookup_is_first(sensors, "littlecore-thermal"@);
    lemma_lookup_is_first(sensors, "bigcore0-thermal"@);
    lemma_lookup_is_first(sensors, "bigcore1-thermal"@);
    lemma_lookup_is_first(sensors, "soc-thermal"@);
    if lookup_temperature(sensors, "littlecore-thermal"@) is Some {
        let t = lookup_temperature(sensors, "littlecore-thermal"@)->0;
        let i = choose|i: int| 0 <= i < sensors.len() && (#[trigger] sensors[i]).label@ == "littlecore-thermal"@
            && sensors[i].temperature_millic == t && forall|j: int| 0 <= j < i ==> sensors[j].label@ != "littlecore-thermal"@;
        assert(is_rk3588_sensor_label(sensors[i].label@));
    }
    if lookup_temperature(sensors, "bigcore0-thermal"@) is Some {
        let t = lookup_temperature(sensors, "bigcore0-thermal"@)->0;
        let i = choose|i: int| 0 <= i < sensors.len() && (#[trigger] sensors[i]).label@ == "bigcore0-thermal"@
            && sensors[i].temperature_millic == t && forall|j: int| 0 <= j < i ==> sensors[j].label@ != "bigcore0-thermal"@;
        assert(is_rk3588_sensor_label(sensors[i].label@));
    }
    if lookup_temperature(sensors, "bigcore1-thermal"@) is Some {
        let t = lookup_temperature(sensors, "bigcore1-thermal"@)->0;
        let i = choose|i: int| 0 <= i < sensors.len() && (#[trigger] sensors[i]).label@ == "bigcore1-thermal"@
            && sensors[i].temperature_millic == t && forall|j: int| 0 <= j < i ==> sensors[j].label@ != "bigcore1-thermal"@;
        assert(is_rk3588_sensor_label(sensors[i].label@));
    }
    if lookup_temperature(sensors, "soc-thermal"@) is Some {
        let t = lookup_temperature(sensors, "soc-thermal"@)->0;
        let i = choose|i: int| 0 <= i < sensors.len() && (#[trigger] sensors[i]).label@ == "soc-thermal"@
            && sensors[i].temperature_millic == t && forall|j: int| 0 <= j < i ==> sensors[j].label@ != "soc-thermal"@;
        assert(is_rk3588_sensor_label(sensors[i].label@));
    }
}

/// `t` is the temperature of the first sensor labelled `label`; none when
/// no sensor is.
pub open spec fn first_labelled(s: Seq<SensorReading>, label: Seq<char>, t: Option<u64>) -> bool {
    match t {
        None => forall|i: int| 0 <= i < s.len() ==> (#[trigger] s[i]).label@ != label,
        Some(x) => exists|i: int|
            0 <= i < s.len() && (#[trigger] s[i]).label@ == label && s[i].temperature_millic == x
                && forall|j: int| 0 <= j < i ==> s[j].label@ != label,
    }
}

/// Some sensor is labelled `label`.
pub open spec fn has_label(s: Seq<SensorReading>, label: Seq<char>) -> bool {
    exists|i: int| 0 <= i < s.len() && (#[trigger] s[i]).label@ == label
}

/// No earlier sensor has the label of sensor `i`.
pub open spec fn first_of_its_label(s: Seq<SensorReading>, i: int) -> bool {
    forall|j: int| 0 <= j < i ==> s[j].label@ != s[i].label@
}

proof fn lemma_first_labelled(s: Seq<SensorReading>, label: Seq<char>)
    ensures
        first_labelled(s, label, lookup_temperature(s, label)),
        has_label(s, label) <==> lookup_temperature(s, label) is Some,
{
    lemma_lookup_is_first(s, label);
    if lookup_temperature(s, label) is Some {
        let i = choose|i: int|
            0 <= i < s.len() && (#[trigger] s[i]).label@ == label && s[i].temperature_millic
                == lookup_temperature(s, label)->0 && forall|j: int| 0 <= j < i ==> s[j].label@ != label;
        assert(s[i].label@ == label);
    }
}

/// On a CIX Sky1 each CPU shows the zone of its cluster: CPUs 0 and 1
/// `cpu-b1`, 2 to 5 `cpu-l0` (the `soc` zone when there is no `cpu-l0`),
/// 6 and 7 `cpu-m0`, 8 and 9 `cpu-m1`, 10 and 11 `cpu-b0`, from the first
/// sensor with that label; the CPUs after them none.
pub proof fn lemma_cix_cpu_zones(s: Seq<SensorReading>, cpu_id: usize)
    ensures
        ({
            let t = cpu_temperature(BoardProfile::CixSky1, cpu_id, s);
            &&& cpu_id <= 1 ==> first_labelled(s, "cpu-b1"@, t)
            &&& 2 <= cpu_id <= 5 && has_label(s, "cpu-l0"@) ==> first_labelled(s, "cpu-l0"@, t)
            &&& 2 <= cpu_id <= 5 && !has_label(s, "cpu-l0"@) ==> first_labelled(s, "soc"@, t)
            &&& 6 <= cpu_id <= 7 ==> first_labelled(s, "cpu-m0"@, t)
            &&& 8 <= cpu_id <= 9 ==> first_labelled(s, "cpu-m1"@, t)
            &&& 10 <= cpu_id <= 11 ==> first_labelled(s, "cpu-b0"@, t)
            &&& cpu_id >= 12 ==> t is None
        }),
{
    lemma_first_labelled(s, "cpu-b1"@);
    lemma_first_labelled(s, "cpu-l0"@);
    lemma_first_labelled(s, "soc"@);
    lemma_first_labelled(s, "cpu-m0"@);
    lemma_first_labelled(s, "cpu-m1"@);
    lemma_first_labelled(s, "cpu-b0"@);
}

/// On an RK3588 each CPU shows the zone of its cluster: CPUs 0 to 3
/// `littlecore-thermal`, 4 and 5 `bigcore0-thermal`, the others
/// `bigcore1-thermal`, from the first sensor with that label; the
/// `soc-thermal` zone when there is no such sensor.
pub proof fn lemma_rk3588_cpu_zones(s: Seq<SensorReading>, cpu_id: usize)
    ensures
        ({
            let t = cpu_temperature(BoardProfile::RockchipRk3588, cpu_id, s);
            let zone = if cpu_id < 4 {
                "littlecore-thermal"@
            } else if cpu_id < 6 {
                "bigcore0-thermal"@
            } else {
                "bigcore1-thermal"@
            };
            &&& has_label(s, zone) ==> first_labelled(s, zone, t)
            &&& !has_label(s, zone) ==> first_labelled(s, "soc-thermal"@, t)
        }),
{
    lemma_first_labelled(s, "littlecore-thermal"@);
    lemma_first_labelled(s, "bigcore0-thermal"@);
    lemma_first_labelled(s, "bigcore1-thermal"@);
    lemma_first_labelled(s, "soc-thermal"@);
}

/// The label of an RK3588 CPU cluster zone.
pub open spec fn is_rk3588_cpu_zone(l: Seq<char>) -> bool {
    ||| l == "littlecore-thermal"@
    ||| l == "bigcore0-thermal"@
    ||| l == "bigcore1-thermal"@
}

/// The label of a CIX Sky1 CPU cluster zone.
pub open spec fn is_cix_cpu_zone(l: Seq<char>) -> bool {
    ||| l == "cpu-b0"@
    ||| l == "cpu-b1"@
    ||| l == "cpu-l0"@
    ||| l == "cpu-m0"@
    ||| l == "cpu-m1"@
}

/// The summary's first row is `cpu` with the hottest of the zones that
/// `zone` accepts (each read from the first sensor with its label) when
/// there is one.
pub open spec fn hottest_zone_row(
    r: Seq<(Seq<char>, u64)>,
    s: Seq<SensorReading>,
    zone: spec_fn(Seq<char>) -> bool,
) -> bool {
    (exists|i: int| 0 <= i < s.len() && zone((#[trigger] s[i]).label@)) ==> {
        &&& r.len() >= 1
        &&& r[0].0 == "cpu"@
        &&& forall|i: int|
            0 <= i < s.len() && zone((#[trigger] s[i]).label@) && first_of_its_label(s, i)
                ==> s[i].temperature_millic <= r[0].1
        &&& exists|i: int|
            0 <= i < s.len() && zone((#[trigger] s[i]).label@) && first_of_its_label(s, i)
                && s[i].temperature_millic == r[0].1
    }
}

/// A sensor that is the first with its label gives the temperature looked
/// up for that label.
proof fn lemma_first_sensor_is_looked_up(s: Seq<SensorReading>, i: int)
    requires
        0 <= i < s.len(),
        first_of_its_label(s, i),
    ensures
        lookup_temperature(s, s[i].label@) == Some(s[i].temperature_millic),
{
    let label = s[i].label@;
    lemma_lookup_is_first(s, label);
    let k = choose|k: int|
        0 <= k < s.len() && (#[trigger] s[k]).label@ == label && s[k].temperature_millic
            == lookup_temperature(s, label)->0 && forall|j: int| 0 <= j < k ==> s[j].label@ != label;
    if k < i {
        assert(s[k].label@ == s[i].label@);
    } else if i < k {
        assert(s[i].label@ == label);
    }
}

/// The first sensor with a label that is there.
proof fn lemma_first_sensor_of(s: Seq<SensorReading>, label: Seq<char>) -> (i: int)
    requires
        has_label(s, label),
    ensures
        0 <= i < s.len(),
        s[i].label@ == label,
        first_of_its_label(s, i),
        lookup_temperature(s, label) == Some(s[i].temperature_millic),
{
    lemma_first_labelled(s, label);
    let i = choose|i: int|
        0 <= i < s.len() && (#[trigger] s[i]).label@ == label && s[i].temperature_millic
            == lookup_temperature(s, label)->0 && forall|j: int| 0 <= j < i ==> s[j].label@ != label;
    i
}

/// On an RK3588 that shows its zones, the summary's `cpu` row is the
/// hottest of the `littlecore-thermal`, `bigcore0-thermal` and
/// `bigcore1-thermal` zones.
pub proof fn lemma_rk3588_cpu_row_is_hottest_cluster(s: Seq<SensorReading>)
    requires
        has_rk3588_sensor(s),
    ensures
        hottest_zone_row(summary_of(BoardProfile::RockchipRk3588, s), s, |l: Seq<char>| is_rk3588_cpu_zone(l)),
{
    let zone = |l: Seq<char>| is_rk3588_cpu_zone(l);
    let r = summary_of(BoardProfile::RockchipRk3588, s);
    let a = lookup_temperature(s, "littlecore-thermal"@);
    let b = lookup_temperature(s, "bigcore0-thermal"@);
    let c = lookup_temperature(s, "bigcore1-thermal"@);
    lemma_first_labelled(s, "littlecore-thermal"@);
    lemma_first_labelled(s, "bigcore0-thermal"@);
    lemma_first_labelled(s, "bigcore1-thermal"@);
    if exists|i: int| 0 <= i < s.len() && zone((#[trigger] s[i]).label@) {
        let w = choose|i: int| 0 <= i < s.len() && zone((#[trigger] s[i]).label@);
        assert(has_label(s, s[w].label@));
        let cpu = opt_max(opt_max(a, b), c);
        assert(cpu is Some);
        assert(r[0] == ("cpu"@, cpu->0));
        assert forall|i: int|
            0 <= i < s.len() && zone((#[trigger] s[i]).label@) && first_of_its_label(s, i)
                implies s[i].temperature_millic <= r[0].1 by {
            lemma_first_sensor_is_looked_up(s, i);
        }
        let t = cpu->0;
        if a == Some(t) {
            let i = lemma_first_sensor_of(s, "littlecore-thermal"@);
            assert(zone(s[i].label@));
        } else if b == Some(t) {
            let i = lemma_first_sensor_of(s, "bigcore0-thermal"@);
            assert(zone(s[i].label@));
        } else {
            let i = lemma_first_sensor_of(s, "bigcore1-thermal"@);
            assert(zone(s[i].label@));
        }
    }
}

/// On a CIX Sky1 the summary's `cpu` row is the hottest of the `cpu-b0`,
/// `cpu-b1`, `cpu-l0`, `cpu-m0` and `cpu-m1` zones.
pub proof fn lemma_cix_cpu_row_is_hottest_cluster(s: Seq<SensorReading>)
    ensures
        hottest_zone_row(summary_of(BoardProfile::CixSky1, s), s, |l: Seq<char>| is_cix_cpu_zone(l)),
{
    let zone = |l: Seq<char>| is_cix_cpu_zone(l);
    let r = summary_of(BoardProfile::CixSky1, s);
    lemma_first_labelled(s, "cpu-b0"@);
    lemma_first_labelled(s, "cpu-b1"@);
    lemma_first_labelled(s, "cpu-l0"@);
    lemma_first_labelled(s, "cpu-m0"@);
    lemma_first_labelled(s, "cpu-m1"@);
    let b0 = lookup_temperature(s, "cpu-b0"@);
    let b1 = lookup_temperature(s, "cpu-b1"@);
    let l0 = lookup_temperature(s, "cpu-l0"@);
    let m0 = lookup_temperature(s, "cpu-m0"@);
    let m1 = lookup_temperature(s, "cpu-m1"@);
    if exists|i: int| 0 <= i < s.len() && zone((#[trigger] s[i]).label@) {
        let w = choose|i: int| 0 <= i < s.len() && zone((#[trigger] s[i]).label@);
        assert(has_label(s, s[w].label@));
        let cpu = opt_max(opt_max(opt_max(opt_max(b0, b1), l0), m0), m1);
        assert(cpu is Some);
        assert(r[0] == ("cpu"@, cpu->0));
        assert forall|i: int|
            0 <= i < s.len() && zone((#[trigger] s[i]).label@) && first_of_its_label(s, i)
                implies s[i].temperature_millic <= r[0].1 by {
            lemma_first_sensor_is_looked_up(s, i);
        }
        let t = cpu->0;
        if b0 == Some(t) {
            let i = lemma_first_sensor_of(s, "cpu-b0"@);
            assert(zone(s[i].label@));
        } else if b1 == Some(t) {
            let i = lemma_first_sensor_of(s, "cpu-b1"@);
            assert(zone(s[i].label@));
        } else if l0 == Some(t) {
            let i = lemma_first_sensor_of(s, "cpu-l0"@);
            assert(zone(s[i].label@));
        } else if m0 == Some(t) {
            let i = lemma_first_sensor_of(s, "cpu-m0"@);
            assert(zone(s[i].label@));
        } else {
            let i = lemma_first_sensor_of(s, "cpu-m1"@);
            assert(zone(s[i].label@));
        }
    }
}

/// On a generic machine the summary's `cpu` row is the hottest sensor of
/// CPU kind, when there is one.
pub proof fn lemma_generic_cpu_row_is_hottest(s: Seq<SensorReading>)
    ensures
        (exists|i: int| 0 <= i < s.len() && (#[trigger] s[i]).kind == SensorKind::Cpu) ==> {
            let r = summary_of(BoardProfile::GenericLinux, s);
            &&& r.len() >= 1
            &&& r[0].0 == "cpu"@
            &&& forall|i: int|
                0 <= i < s.len() && (#[trigger] s[i]).kind == SensorKind::Cpu ==> s[i].temperature_millic
                    <= r[0].1
            &&& exists|i: int|
                0 <= i < s.len() && (#[trigger] s[i]).kind == SensorKind::Cpu && s[i].temperature_millic
                    == r[0].1
        },
{
    lemma_max_of_kind_is_hottest(s, SensorKind::Cpu);
}

/// The summary `r` has one row labelled `label`, holding `t`, when `t` is
/// known, and none when it is not.
pub open spec fn row_of(r: Seq<(Seq<char>, u64)>, label: Seq<char>, t: Option<u64>) -> bool {
    match t {
        None => forall|k: int| 0 <= k < r.len() ==> (#[trigger] r[k]).0 != label,
        Some(x) => {
            &&& exists|k: int| 0 <= k < r.len() && #[trigger] r[k] == (label, x)
            &&& forall|k: int| 0 <= k < r.len() && (#[trigger] r[k]).0 == label ==> r[k].1 == x
        },
    }
}

/// `t` is the highest temperature of the sensors of a kind; none when no
/// sensor is of that kind.
pub open spec fn hottest_of_kind(s: Seq<SensorReading>, kind: SensorKind, t: Option<u64>) -> bool {
    match t {
        None => forall|i: int| 0 <= i < s.len() ==> (#[trigger] s[i]).kind != kind,
        Some(x) => {
            &&& forall|i: int| 0 <= i < s.len() && (#[trigger] s[i]).kind == kind ==> s[i].temperature_millic <= x
            &&& exists|i: int| 0 <= i < s.len() && (#[trigger] s[i]).kind == kind && s[i].temperature_millic == x
        },
    }
}

proof fn lemma_first_labelled_unique(s: Seq<SensorReading>, label: Seq<char>, a: Option<u64>, b: Option<u64>)
    requires
        first_labelled(s, label, a),
        first_labelled(s, label, b),
    ensures
        a == b,
{
    match (a, b) {
        (Some(x), Some(y)) => {
            let i = choose|i: int|
                0 <= i < s.len() && (#[trigger] s[i]).label@ == label && s[i].temperature_millic == x
                    && forall|j: int| 0 <= j < i ==> s[j].label@ != label;
            let k = choose|k: int|
                0 <= k < s.len() && (#[trigger] s[k]).label@ == label && s[k].temperature_millic == y
                    && forall|j: int| 0 <= j < k ==> s[j].label@ != label;
            if i < k {
                assert(s[i].label@ == label);
            } else if k < i {
                assert(s[k].label@ == label);
            }
        },
        (Some(x), None) => {
            let i = choose|i: int|
                0 <= i < s.len() && (#[trigger] s[i]).label@ == label && s[i].temperature_millic == x
                    && forall|j: int| 0 <= j < i ==> s[j].label@ != label;
            assert(s[i].label@ != label);
        },
        (None, Some(y)) => {
            let k = choose|k: int|
                0 <= k < s.len() && (#[trigger] s[k]).label@ == label && s[k].temperature_millic == y
                    && forall|j: int| 0 <= j < k ==> s[j].label@ != label;
            assert(s[k].label@ != label);
        },
        (None, None) => {},
    }
}

proof fn lemma_hottest_unique(s: Seq<SensorReading>, kind: SensorKind, a: Option<u64>, b: Option<u64>)
    requires
        hottest_of_kind(s, kind, a),
        hottest_of_kind(s, kind, b),
    ensures
        a == b,
{
    match (a, b) {
        (Some(x), Some(y)) => {
            let i = choose|i: int| 0 <= i < s.len() && (#[trigger] s[i]).kind == kind && s[i].temperature_millic == x;
            let k = choose|k: int| 0 <= k < s.len() && (#[trigger] s[k]).kind == kind && s[k].temperature_millic == y;
            assert(s[i].temperature_millic <= y);
            assert(s[k].temperature_millic <= x);
        },
        (Some(x), None) => {
            let i = choose|i: int| 0 <= i < s.len() && (#[trigger] s[i]).kind == kind && s[i].temperature_millic == x;
            assert(s[i].kind != kind);
        },
        (None, Some(y)) => {
            let k = choose|k: int| 0 <= k < s.len() && (#[trigger] s[k]).kind == kind && s[k].temperature_millic == y;
            assert(s[k].kind != kind);
        },
        (None, None) => {},
    }
}

/// A row added under a new label is that label's row.
proof fn lemma_row_added(rows: Seq<(Seq<char>, u64)>, label: Seq<char>, t: Option<u64>)
    requires
        forall|k: int| 0 <= k < rows.len() ==> (#[trigger] rows[k]).0 != label,
    ensures
        row_of(with_row(rows, label, t), label, t),
{
    if let Some(x) = t {
        let r = with_row(rows, label, t);
        assert(r[rows.len() as int] == (label, x));
        assert forall|k: int| 0 <= k < r.len() && (#[trigger] r[k]).0 == label implies r[k].1 == x by {
            if k < rows.len() {
                assert(r[k] == rows[k]);
            }
        }
    }
}

/// A row added under another label leaves a label's row as it was.
proof fn lemma_row_kept(rows: Seq<(Seq<char>, u64)>, label: Seq<char>, t: Option<u64>, other: Seq<char>, u: Option<u64>)
    requires
        row_of(rows, label, t),
        other != label,
    ensures
        row_of(with_row(rows, other, u), label, t),
{
    let r = with_row(rows, other, u);
    assert forall|k: int| 0 <= k < rows.len() implies r[k] == rows[k] by {}
    match t {
        Some(x) => {
            let k = choose|k: int| 0 <= k < rows.len() && #[trigger] rows[k] == (label, x);
            assert(r[k] == rows[k]);
        },
        None => {},
    }
}

/// The labels of the summary rows differ.
proof fn lemma_row_labels_differ()
    ensures
        "cpu"@ != "gpu"@,
        "cpu"@ != "npu"@,
        "cpu"@ != "soc"@,
        "cpu"@ != "nvme"@,
        "gpu"@ != "npu"@,
        "gpu"@ != "soc"@,
        "gpu"@ != "nvme"@,
        "npu"@ != "soc"@,
        "npu"@ != "nvme"@,
        "soc"@ != "nvme"@,
{
    reveal_strlit("cpu");
    reveal_strlit("gpu");
    reveal_strlit("npu");
    reveal_strlit("soc");
    reveal_strlit("nvme");
    assert("cpu"@[0] != "gpu"@[0]);
    assert("cpu"@[0] != "npu"@[0]);
    assert("cpu"@[0] != "soc"@[0]);
    assert("cpu"@[0] != "nvme"@[0]);
    assert("gpu"@[0] != "npu"@[0]);
    assert("gpu"@[0] != "soc"@[0]);
    assert("gpu"@[0] != "nvme"@[0]);
    assert("npu"@[0] != "soc"@[0]);
    assert("npu"@.len() != "nvme"@.len());
    assert("soc"@[0] != "nvme"@[0]);
}

/// On an RK3588 that shows its zones, the summary's `gpu`, `npu` and `soc`
/// rows hold the first `gpu-thermal`, `npu-thermal` and `soc-thermal`
/// readings, and are left out when there is none.
pub proof fn lemma_rk3588_zone_rows(s: Seq<SensorReading>, gpu: Option<u64>, npu: Option<u64>, soc: Option<u64>)
    requires
        has_rk3588_sensor(s),
        first_labelled(s, "gpu-thermal"@, gpu),
        first_labelled(s, "npu-thermal"@, npu),
        first_labelled(s, "soc-thermal"@, soc),
    ensures
        row_of(summary_of(BoardProfile::RockchipRk3588, s), "gpu"@, gpu),
        row_of(summary_of(BoardProfile::RockchipRk3588, s), "npu"@, npu),
        row_of(summary_of(BoardProfile::RockchipRk3588, s), "soc"@, soc),
{
    lemma_row_labels_differ();
    lemma_first_labelled(s, "gpu-thermal"@);
    lemma_first_labelled(s, "npu-thermal"@);
    lemma_first_labelled(s, "soc-thermal"@);
    lemma_first_labelled_unique(s, "gpu-thermal"@, gpu, lookup_temperature(s, "gpu-thermal"@));
    lemma_first_labelled_unique(s, "npu-thermal"@, npu, lookup_temperature(s, "npu-thermal"@));
    lemma_first_labelled_unique(s, "soc-thermal"@, soc, lookup_temperature(s, "soc-thermal"@));
    let cpu = opt_max(
        opt_max(lookup_temperature(s, "littlecore-thermal"@), lookup_temperature(s, "bigcore0-thermal"@)),
        lookup_temperature(s, "bigcore1-thermal"@),
    );
    let r1 = with_row(Seq::empty(), "cpu"@, cpu);
    let r2 = with_row(r1, "gpu"@, gpu);
    let r3 = with_row(r2, "npu"@, npu);
    lemma_row_added(r1, "gpu"@, gpu);
    lemma_row_kept(r2, "gpu"@, gpu, "npu"@, npu);
    lemma_row_kept(r3, "gpu"@, gpu, "soc"@, soc);
    lemma_row_added(r2, "npu"@, npu);
    lemma_row_kept(r3, "npu"@, npu, "soc"@, soc);
    lemma_row_added(r3, "soc"@, soc);
}

/// On a CIX Sky1 the summary's `gpu` and `soc` rows hold the first `gpu`
/// and `soc` zone readings, and its `nvme` row the hottest storage
/// sensor; each left out when there is none.
pub proof fn lemma_cix_zone_rows(s: Seq<SensorReading>, gpu: Option<u64>, soc: Option<u64>, nvme: Option<u64>)
    requires
        first_labelled(s, "gpu"@, gpu),
        first_labelled(s, "soc"@, soc),
        hottest_of_kind(s, SensorKind::Storage, nvme),
    ensures
        row_of(summary_of(BoardProfile::CixSky1, s), "gpu"@, gpu),
        row_of(summary_of(BoardProfile::CixSky1, s), "soc"@, soc),
        row_of(summary_of(BoardProfile::CixSky1, s), "nvme"@, nvme),
{
    lemma_row_labels_differ();
    lemma_first_labelled(s, "gpu"@);
    lemma_first_labelled(s, "soc"@);
    lemma_max_of_kind_is_hottest(s, SensorKind::Storage);
    lemma_first_labelled_unique(s, "gpu"@, gpu, lookup_temperature(s, "gpu"@));
    lemma_first_labelled_unique(s, "soc"@, soc, lookup_temperature(s, "soc"@));
    lemma_hottest_unique(s, SensorKind::Storage, nvme, max_of_kind(s, SensorKind::Storage));
    let cpu = opt_max(
        opt_max(
            opt_max(
                opt_max(lookup_temperature(s, "cpu-b0"@), lookup_temperature(s, "cpu-b1"@)),
                lookup_temperature(s, "cpu-l0"@),
            ),
            lookup_temperature(s, "cpu-m0"@),
        ),
        lookup_temperature(s, "cpu-m1"@),
    );
    let r1 = with_row(Seq::empty(), "cpu"@, cpu);
    let r2 = with_row(r1, "gpu"@, gpu);
    let r3 = with_row(r2, "soc"@, soc);
    lemma_row_added(r1, "gpu"@, gpu);
    lemma_row_kept(r2, "gpu"@, gpu, "soc"@, soc);
    lemma_row_kept(r3, "gpu"@, gpu, "nvme"@, nvme);
    lemma_row_added(r2, "soc"@, soc);
    lemma_row_kept(r3, "soc"@, soc, "nvme"@, nvme);
    lemma_row_added(r3, "nvme"@, nvme);
}

/// On a generic machine the summary's rows `cpu`, `gpu`, `npu`, `soc` and
/// `nvme` hold the hottest sensor of CPU, GPU, NPU, SoC and storage kind,
/// in that order; each left out when no sensor is of its kind.
pub proof fn lemma_generic_rows(
    s: Seq<SensorReading>,
    cpu: Option<u64>,
    gpu: Option<u64>,
    npu: Option<u64>,
    soc: Option<u64>,
    nvme: Option<u64>,
)
    requires
        hottest_of_kind(s, SensorKind::Cpu, cpu),
        hottest_of_kind(s, SensorKind::Gpu, gpu),
        hottest_of_kind(s, SensorKind::Npu, npu),
        hottest_of_kind(s, SensorKind::Soc, soc),
        hottest_of_kind(s, SensorKind::Storage, nvme),
    ensures
        row_of(summary_of(BoardProfile::GenericLinux, s), "cpu"@, cpu),
        row_of(summary_of(BoardProfile::GenericLinux, s), "gpu"@, gpu),
        row_of(summary_of(BoardProfile::GenericLinux, s), "npu"@, npu),
        row_of(summary_of(BoardProfile::GenericLinux, s), "soc"@, soc),
        row_of(summary_of(BoardProfile::GenericLinux, s), "nvme"@, nvme),
        summary_of(BoardProfile::GenericLinux, s).len() == (if cpu is Some { 1int } else { 0 }) + (if gpu
            is Some { 1int } else { 0 }) + (if npu is Some { 1int } else { 0 }) + (if soc is Some {
            1int
        } else {
            0
        }) + (if nvme is Some { 1int } else { 0 }),
{
    lemma_row_labels_differ();
    lemma_max_of_kind_is_hottest(s, SensorKind::Cpu);
    lemma_max_of_kind_is_hottest(s, SensorKind::Gpu);
    lemma_max_of_kind_is_hottest(s, SensorKind::Npu);
    lemma_max_of_kind_is_hottest(s, SensorKind::Soc);
    lemma_max_of_kind_is_hottest(s, SensorKind::Storage);
    lemma_hottest_unique(s, SensorKind::Cpu, cpu, max_of_kind(s, SensorKind::Cpu));
    lemma_hottest_unique(s, SensorKind::Gpu, gpu, max_of_kind(s, SensorKind::Gpu));
    lemma_hottest_unique(s, SensorKind::Npu, npu, max_of_kind(s, SensorKind::Npu));
    lemma_hottest_unique(s, SensorKind::Soc, soc, max_of_kind(s, SensorKind::Soc));
    lemma_hottest_unique(s, SensorKind::Storage, nvme, max_of_kind(s, SensorKind::Storage));
    let r0: Seq<(Seq<char>, u64)> = Seq::empty();
    let r1 = with_row(r0, "cpu"@, cpu);
    let r2 = with_row(r1, "gpu"@, gpu);
    let r3 = with_row(r2, "npu"@, npu);
    let r4 = with_row(r3, "soc"@, soc);
    lemma_row_added(r0, "cpu"@, cpu);
    lemma_row_kept(r1, "cpu"@, cpu, "gpu"@, gpu);
    lemma_row_kept(r2, "cpu"@, cpu, "npu"@, npu);
    lemma_row_kept(r3, "cpu"@, cpu, "soc"@, soc);
    lemma_row_kept(r4, "cpu"@, cpu, "nvme"@, nvme);
    lemma_row_added(r1, "gpu"@, gpu);
    lemma_row_kept(r2, "gpu"@, gpu, "npu"@, npu);
    lemma_row_kept(r3, "gpu"@, gpu, "soc"@, soc);
    lemma_row_kept(r4, "gpu"@, gpu, "nvme"@, nvme);
    lemma_row_added(r2, "npu"@, npu);
    lemma_row_kept(r3, "npu"@, npu, "soc"@, soc);
    lemma_row_kept(r4, "npu"@, npu, "nvme"@, nvme);
    lemma_row_added(r3, "soc"@, soc);
    lemma_row_kept(r4, "soc"@, soc, "nvme"@, nvme);
    lemma_row_added(r4, "nvme"@, nvme);
}

/// The place of a summary row: `cpu`, `gpu`, `npu`, `soc`, `nvme`.
pub open spec fn row_place(label: Seq<char>) -> int {
    if label == "cpu"@ {
        0
    } else if label == "gpu"@ {
        1
    } else if label == "npu"@ {
        2
    } else if label == "soc"@ {
        3
    } else if label == "nvme"@ {
        4
    } else {
        5
    }
}

/// The rows come in their places' order.
pub open spec fn rows_in_order(r: Seq<(Seq<char>, u64)>) -> bool {
    forall|a: int, b: int| 0 <= a < b < r.len() ==> row_place((#[trigger] r[a]).0) < row_place((#[trigger] r[b]).0)
}

proof fn lemma_row_appended_in_order(rows: Seq<(Seq<char>, u64)>, label: Seq<char>, t: Option<u64>)
    requires
        rows_in_order(rows),
        forall|k: int| 0 <= k < rows.len() ==> row_place((#[trigger] rows[k]).0) < row_place(label),
    ensures
        rows_in_order(with_row(rows, label, t)),
        forall|k: int| 0 <= k < with_row(rows, label, t).len() ==> row_place(
            (#[trigger] with_row(rows, label, t)[k]).0,
        ) <= row_place(label),
{
    let r = with_row(rows, label, t);
    assert forall|k: int| 0 <= k < rows.len() implies r[k] == rows[k] by {}
}

proof fn lemma_generic_rows_in_order(s: Seq<SensorReading>)
    ensures
        rows_in_order(generic_summary(s)),
{
    reveal_strlit("cpu");
    reveal_strlit("gpu");
    reveal_strlit("npu");
    reveal_strlit("soc");
    reveal_strlit("nvme");
    lemma_row_labels_differ();
    assert(row_place("cpu"@) == 0 && row_place("gpu"@) == 1 && row_place("npu"@) == 2 && row_place("soc"@) == 3
        && row_place("nvme"@) == 4);
    let r0: Seq<(Seq<char>, u64)> = Seq::empty();
    let r1 = with_row(r0, "cpu"@, max_of_kind(s, SensorKind::Cpu));
    let r2 = with_row(r1, "gpu"@, max_of_kind(s, SensorKind::Gpu));
    let r3 = with_row(r2, "npu"@, max_of_kind(s, SensorKind::Npu));
    let r4 = with_row(r3, "soc"@, max_of_kind(s, SensorKind::Soc));
    lemma_row_appended_in_order(r0, "cpu"@, max_of_kind(s, SensorKind::Cpu));
    lemma_row_appended_in_order(r1, "gpu"@, max_of_kind(s, SensorKind::Gpu));
    lemma_row_appended_in_order(r2, "npu"@, max_of_kind(s, SensorKind::Npu));
    lemma_row_appended_in_order(r3, "soc"@, max_of_kind(s, SensorKind::Soc));
    lemma_row_appended_in_order(r4, "nvme"@, max_of_kind(s, SensorKind::Storage));
}

/// Every summary lists its rows in the order `cpu`, `gpu`, `npu`, `soc`,
/// `nvme`, each at most once.
pub proof fn lemma_summary_rows_in_order(profile: BoardProfile, s: Seq<SensorReading>)
    ensures
        rows_in_order(summary_of(profile, s)),
{
    reveal_strlit("cpu");
    reveal_strlit("gpu");
    reveal_strlit("npu");
    reveal_strlit("soc");
    reveal_strlit("nvme");
    lemma_row_labels_differ();
    assert(row_place("cpu"@) == 0 && row_place("gpu"@) == 1 && row_place("npu"@) == 2 && row_place("soc"@) == 3
        && row_place("nvme"@) == 4);
    let r0: Seq<(Seq<char>, u64)> = Seq::empty();
    match profile {
        BoardProfile::GenericLinux => {
            lemma_generic_rows_in_order(s);
        },
        BoardProfile::CixSky1 => {
            let cpu = opt_max(
                opt_max(
                    opt_max(
                        opt_max(lookup_temperature(s, "cpu-b0"@), lookup_temperature(s, "cpu-b1"@)),
                        lookup_temperature(s, "cpu-l0"@),
                    ),
                    lookup_temperature(s, "cpu-m0"@),
                ),
                lookup_temperature(s, "cpu-m1"@),
            );
            let r1 = with_row(r0, "cpu"@, cpu);
            let r2 = with_row(r1, "gpu"@, lookup_temperature(s, "gpu"@));
            let r3 = with_row(r2, "soc"@, lookup_temperature(s, "soc"@));
            lemma_row_appended_in_order(r0, "cpu"@, cpu);
            lemma_row_appended_in_order(r1, "gpu"@, lookup_temperature(s, "gpu"@));
            lemma_row_appended_in_order(r2, "soc"@, lookup_temperature(s, "soc"@));
            lemma_row_appended_in_order(r3, "nvme"@, max_of_kind(s, SensorKind::Storage));
        },
        BoardProfile::RockchipRk3588 => {
            if has_rk3588_sensor(s) {
                let cpu = opt_max(
                    opt_max(
                        lookup_temperature(s, "littlecore-thermal"@),
                        lookup_temperature(s, "bigcore0-thermal"@),
                    ),
                    lookup_temperature(s, "bigcore1-thermal"@),
                );
                let r1 = with_row(r0, "cpu"@, cpu);
                let r2 = with_row(r1, "gpu"@, lookup_temperature(s, "gpu-thermal"@));
                let r3 = with_row(r2, "npu"@, lookup_temperature(s, "npu-thermal"@));
                lemma_row_appended_in_order(r0, "cpu"@, cpu);
                lemma_row_appended_in_order(r1, "gpu"@, lookup_temperature(s, "gpu-thermal"@));
                lemma_row_appended_in_order(r2, "npu"@, lookup_temperature(s, "npu-thermal"@));
                lemma_row_appended_in_order(r3, "soc"@, lookup_temperature(s, "soc-thermal"@));
            } else {
                lemma_generic_rows_in_order(s);
            }
        },
    }
}

} // verus!



