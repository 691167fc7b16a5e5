//! Numbers as the dashboard prints them.
use vstd::prelude::*;
use crate::text::{
    chars_of, copy_range, decimal, digit_char, join, join_chars, push_all, push_decimal, push_digit,
    push_two_digits, seqs, string_from, string_views, strings_chars, two_digits, lemma_u64_decimal_len,
};
use crate::metrics::model::SensorSummary;

verus! {

/// `86 400` seconds.
pub const SECONDS_PER_DAY: u64 = 86400;

/// The time since boot as days, hours and minutes (`3d 04h 05m`), the days
/// left out while there are none.
pub open spec fn uptime_text(total_seconds: u64) -> Seq<char> {
    let days = total_seconds / 86400;
    let hours = (total_seconds % 86400) / 3600;
    let minutes = (total_seconds % 3600) / 60;
    let clock = two_digits(hours as nat) + "h "@ + two_digits(minutes as nat) + "m"@;
    if days > 0 {
        decimal(days as nat) + "d "@ + clock
    } else {
        clock
    }
}

/// The time since boot as the summary panel prints it.
pub fn format_uptime(total_seconds: u64) -> (r: String)
    ensures
        r@ == uptime_text(total_seconds),
{
    proof {
        reveal_strlit("h ");
        reveal_strlit("m");
        reveal_strlit("d ");
    }
    let days = total_seconds / SECONDS_PER_DAY;
    let hours = (total_seconds % SECONDS_PER_DAY) / 3600;
    let minutes = (total_seconds % 3600) / 60;
    let mut out: Vec<char> = Vec::new();
    if days > 0 {
        push_decimal(&mut out, days);
        out.push('d');
        out.push(' ');
    }
    let ghost before = out@;
    push_two_digits(&mut out, hours);
    out.push('h');
    out.push(' ');
    push_two_digits(&mut out, minutes);
    out.push('m');
    assert(out@ =~= before + (two_digits(hours as nat) + "h "@ + two_digits(minutes as nat) + "m"@));
    assert(out@ =~= uptime_text(total_seconds));
    string_from(&out)
}

/// `2^53`: below it every integer is a `f64` as it is.
pub open spec fn exact_f64_limit() -> nat {
    0x20_0000_0000_0000
}

/// The spacing of `f64` values around `b`: the least power of two `u`,
/// from `u` on, with `b / u` below `2^53`.
pub open spec fn f64_unit(b: nat, u: nat) -> nat
    decreases b - u when u > 0
{
    if b / u < exact_f64_limit() {
        u
    } else {
        proof {
            assert(b >= 2 * u) by (nonlinear_arith)
                requires
                    b / u >= 0x20_0000_0000_0000,
                    u > 0,
            ;
        }
        f64_unit(b, 2 * u)
    }
}

/// `n / d` rounded to the nearest integer, ties to the even one.
pub open spec fn round_half_even(n: nat, d: nat) -> nat {
    let q = n / d;
    let r = n % d;
    if 2 * r > d || (2 * r == d && q % 2 == 1) {
        q + 1
    } else {
        q
    }
}

/// The `f64` nearest to `b` (`b as f64`), ties to the even significand.
pub open spec fn f64_nearest(b: nat) -> nat {
    let u = f64_unit(b, 1);
    round_half_even(b, u) * u
}

/// The least power of two `v`, from `v` on, with `n / (d * v)` below
/// `2^53`: the spacing of `f64` values around `n / d` when that is at
/// least `2^53`.
pub open spec fn f64_coarse_unit(n: nat, d: nat, v: nat) -> nat
    decreases n - v when v > 0 && d > 0
{
    if n / (d * v) < exact_f64_limit() {
        v
    } else {
        proof {
            assert(n >= 2 * v) by (nonlinear_arith)
                requires
                    n / (d * v) >= 0x20_0000_0000_0000,
                    v > 0,
                    d > 0,
            ;
        }
        f64_coarse_unit(n, d, 2 * v)
    }
}

/// `n / d` doubled until it is at least `2^52`: the doubled numerator and
/// the power of two it was doubled by, counting from `u`.
pub open spec fn binade_of(n: nat, d: nat, u: nat) -> (nat, nat)
    decreases 0x20_0000_0000_0000 * d - n when n > 0 && d > 0
{
    if n / d >= 0x10_0000_0000_0000 {
        (n, u)
    } else {
        proof {
            assert(n < 0x10_0000_0000_0000 * d) by (nonlinear_arith)
                requires
                    n / d < 0x10_0000_0000_0000,
                    d > 0,
            ;
        }
        binade_of(2 * n, d, 2 * u)
    }
}

/// The `f64` nearest to `n / d`, ties to the even significand, as a pair
/// `(m, u)` that stands for `m / u`.
pub open spec fn f64_quotient(n: nat, d: nat) -> (nat, nat) {
    if n == 0 {
        (0, 1)
    } else if n / d >= exact_f64_limit() {
        let v = f64_coarse_unit(n, d, 1);
        (round_half_even(n, d * v) * v, 1)
    } else {
        let b = binade_of(n, d, 1);
        (round_half_even(b.0, d), b.1)
    }
}

/// `m / u` with one decimal (`{:.1}`): rounded to tenths, ties to even.
pub open spec fn one_decimal(m: nat, u: nat) -> Seq<char> {
    let t = round_half_even(10 * m, u);
    decimal(t / 10) + seq!['.', digit_char(t % 10)]
}

/// `m / u` without decimals (`{:.0}`): rounded, ties to even.
pub open spec fn no_decimals(m: nat, u: nat) -> Seq<char> {
    decimal(round_half_even(m, u))
}

/// The `f64` quotient `n / d` as a pair `(m, u)` that stands for `m / u`.
fn f64_quotient_value(n: u128, d: u128) -> (r: (u128, u128))
    requires
        1000 <= d <= 1_000_000_000,
        n <= 0x2_0000_0000_0000_0000,
    ensures
        r.0 == f64_quotient(n as nat, d as nat).0,
        r.1 == f64_quotient(n as nat, d as nat).1,
        r.0 <= 0x1000_0000_0000_0000,
        0 < r.1 < 0x1_0000_0000_0000_0000_0000_0000,
{
    if n == 0 {
        return (0, 1);
    }
    if n / d >= 0x20_0000_0000_0000 {
        let mut v: u128 = 1;
        let mut w: u128 = d;
        while n / w >= 0x20_0000_0000_0000
            invariant
                0 < v <= n,
                v < 0x1_0000_0000,
                w == d * v,
                0 < w <= n,
                1000 <= d <= 1_000_000_000,
                n <= 0x2_0000_0000_0000_0000,
                f64_coarse_unit(n as nat, d as nat, 1) == f64_coarse_unit(n as nat, d as nat, v as nat),
            decreases n - v,
        {
            assert(n >= 2 * w && w >= 1000 * v && 2 * v < 0x1_0000_0000) by (nonlinear_arith)
                requires
                    (n as int) / (w as int) >= 0x20_0000_0000_0000,
                    w == d * v,
                    v > 0,
                    d >= 1000,
                    n <= 0x2_0000_0000_0000_0000,
            ;
            assert(2 * w == d * (2 * v)) by (nonlinear_arith)
                requires
                    w == d * v,
            ;
            v = v * 2;
            w = w * 2;
        }
        let m = round_half_even_exec(n, w);
        let ghost k = (n as int) / (w as int);
        assert(k * w <= n) by (nonlinear_arith)
            requires
                k == (n as int) / (w as int),
                w > 0,
        ;
        assert(k * v * 1000 <= n) by (nonlinear_arith)
            requires
                k * w <= n,
                w == d * v,
                d >= 1000,
                k >= 0,
                v > 0,
        ;
        assert(m * v <= 0x1000_0000_0000_0000) by (nonlinear_arith)
            requires
                m <= k + 1,
                k * v * 1000 <= n,
                n <= 0x2_0000_0000_0000_0000,
                0 < v < 0x1_0000_0000,
                k >= 0,
        ;
        return (m * v, 1);
    }
    assert(n < 0x20_0000_0000_0000 * d) by (nonlinear_arith)
        requires
            (n as int) / (d as int) < 0x20_0000_0000_0000,
            d > 0,
    ;
    let mut x: u128 = n;
    let mut u: u128 = 1;
    while x / d < 0x10_0000_0000_0000
        invariant
            0 < u <= x,
            x < 0x20_0000_0000_0000 * d,
            1000 <= d <= 1_000_000_000,
            n > 0,
            binade_of(n as nat, d as nat, 1) == binade_of(x as nat, d as nat, u as nat),
        decreases 0x20_0000_0000_0000 * d - x,
    {
        assert(x < 0x10_0000_0000_0000 * d) by (nonlinear_arith)
            requires
                x / d < 0x10_0000_0000_0000,
                d > 0,
        ;
        x = 2 * x;
        u = 2 * u;
    }
    let m = round_half_even_exec(x, d);
    assert(m <= 0x20_0000_0000_0000) by (nonlinear_arith)
        requires
            m == round_half_even(x as nat, d as nat),
            x < 0x20_0000_0000_0000 * d,
            d > 0,
    ;
    (m, u)
}

/// Appends `m / u` with one decimal.
fn push_one_decimal(out: &mut Vec<char>, m: u128, u: u128)
    requires
        m <= 0x1000_0000_0000_0000,
        u > 0,
    ensures
        final(out)@ == old(out)@ + one_decimal(m as nat, u as nat),
        one_decimal(m as nat, u as nat).len() <= 22,
{
    let t = round_half_even_exec(10 * m, u);
    assert(t <= 10 * m + 1) by (nonlinear_arith)
        requires
            t == round_half_even((10 * m) as nat, u as nat),
            u > 0,
    {
        assert((10 * m) as int / (u as int) <= 10 * m) by {
            vstd::arithmetic::div_mod::lemma_div_is_ordered_by_denominator((10 * m) as int, 1, u as int);
        }
    }
    let ghost start = out@;
    proof {
        lemma_u64_decimal_len((t / 10) as u64);
    }
    push_decimal(out, (t / 10) as u64);
    out.push('.');
    push_digit(out, (t % 10) as u64);
    assert(out@ =~= start + one_decimal(m as nat, u as nat));
}

/// Appends `m / u` without decimals.
fn push_no_decimals(out: &mut Vec<char>, m: u128, u: u128)
    requires
        m <= 0x1000_0000_0000_0000,
        u > 0,
    ensures
        final(out)@ == old(out)@ + no_decimals(m as nat, u as nat),
{
    let q = round_half_even_exec(m, u);
    assert(q <= m + 1) by (nonlinear_arith)
        requires
            q == round_half_even(m as nat, u as nat),
            u > 0,
    {
        assert((m as int) / (u as int) <= m) by {
            vstd::arithmetic::div_mod::lemma_div_is_ordered_by_denominator(m as int, 1, u as int);
        }
    }
    push_decimal(out, q as u64);
}

/// A CPU clock as the CPU panel prints it: gigahertz with one decimal, in
/// brackets (`[3.6G]`), from the `f64` quotient of the kilohertz by a
/// million; `[ n/a]` when it is unknown.
pub open spec fn frequency_text(frequency_khz: Option<u64>) -> Seq<char> {
    match frequency_khz {
        Some(khz) => {
            let q = f64_quotient(f64_nearest(khz as nat), 1_000_000);
            seq!['['] + one_decimal(q.0, q.1) + seq!['G', ']']
        },
        None => seq!['[', ' ', 'n', '/', 'a', ']'],
    }
}

/// A CPU clock as the CPU panel prints it.
pub fn format_frequency(frequency_khz: Option<u64>) -> (r: String)
    ensures
        r@ == frequency_text(frequency_khz),
        r@.len() <= 25,
{
    let mut out: Vec<char> = Vec::new();
    match frequency_khz {
        Some(khz) => {
            let f = f64_value(khz);
            let q = f64_quotient_value(f, 1_000_000);
            out.push('[');
            push_one_decimal(&mut out, q.0, q.1);
            out.push('G');
            out.push(']');
        },
        None => {
            out.push('[');
            out.push(' ');
            out.push('n');
            out.push('/');
            out.push('a');
            out.push(']');
        },
    }
    assert(out@ =~= frequency_text(frequency_khz));
    string_from(&out)
}

/// `text` right-aligned in `width` characters: spaces in front while it is
/// shorter.
pub open spec fn right_aligned(text: Seq<char>, width: nat) -> Seq<char> {
    if text.len() < width {
        Seq::new((width - text.len()) as nat, |_i: int| ' ') + text
    } else {
        text
    }
}

/// A temperature as the dashboard prints it: degrees Celsius with one
/// decimal, right-aligned in four characters, in brackets (`[52.3C]`),
/// from the `f64` quotient of the millidegrees by a thousand.
pub open spec fn temperature_text(millic: u64) -> Seq<char> {
    let q = f64_quotient(f64_nearest(millic as nat), 1000);
    seq!['['] + right_aligned(one_decimal(q.0, q.1), 4) + seq!['C', ']']
}

/// A temperature as the dashboard prints it.
pub fn format_temperature(millic: u64) -> (r: String)
    ensures
        r@ == temperature_text(millic),
        r@.len() <= 25,
{
    let f = f64_value(millic);
    let q = f64_quotient_value(f, 1000);
    let mut number: Vec<char> = Vec::new();
    push_one_decimal(&mut number, q.0, q.1);
    let mut out: Vec<char> = Vec::new();
    out.push('[');
    let mut pad: usize = number.len();
    while pad < 4
        invariant
            number.len() <= pad <= 4 || (pad == number.len() && pad > 4),
            out@ == seq!['['] + Seq::new((pad - number.len()) as nat, |_i: int| ' '),
        decreases 4 - pad,
    {
        out.push(' ');
        assert(out@ =~= seq!['['] + Seq::new((pad + 1 - number.len()) as nat, |_i: int| ' '));
        pad = pad + 1;
    }
    let ghost padded = out@;
    push_all(&mut out, number.as_slice());
    out.push('C');
    out.push(']');
    proof {
        let text = one_decimal(q.0 as nat, q.1 as nat);
        assert(number@ == text);
        if text.len() < 4 {
            assert(pad == 4);
            assert(out@ =~= seq!['['] + right_aligned(text, 4) + seq!['C', ']']);
        } else {
            assert(pad == number.len());
            assert(Seq::new((pad - number.len()) as nat, |_i: int| ' ') =~= Seq::<char>::empty());
            assert(out@ =~= seq!['['] + right_aligned(text, 4) + seq!['C', ']']);
        }
    }
    string_from(&out)
}

/// The clock of an accelerator as the summary panel prints it: gigahertz
/// with one decimal from 1 GHz on (`1.0G`), else whole megahertz (`300M`);
/// from the `f64` value of the hertz.
pub open spec fn engine_frequency_text(frequency_hz: u64) -> Seq<char> {
    let f = f64_nearest(frequency_hz as nat);
    if f >= 1_000_000_000 {
        let q = f64_quotient(f, 1_000_000_000);
        one_decimal(q.0, q.1) + seq!['G']
    } else {
        let q = f64_quotient(f, 1_000_000);
        no_decimals(q.0, q.1) + seq!['M']
    }
}

/// The clock of an accelerator as the summary panel prints it.
pub fn format_engine_frequency(frequency_hz: u64) -> (r: String)
    ensures
        r@ == engine_frequency_text(frequency_hz),
{
    let f = f64_value(frequency_hz);
    let mut out: Vec<char> = Vec::new();
    if f >= 1_000_000_000 {
        let q = f64_quotient_value(f, 1_000_000_000);
        push_one_decimal(&mut out, q.0, q.1);
        out.push('G');
    } else {
        let q = f64_quotient_value(f, 1_000_000);
        push_no_decimals(&mut out, q.0, q.1);
        out.push('M');
    }
    assert(out@ =~= engine_frequency_text(frequency_hz));
    string_from(&out)
}

/// The text in an optional string.
pub open spec fn optional_text(text: Option<String>) -> Option<Seq<char>> {
    match text {
        Some(t) => Some(t@),
        None => None,
    }
}

/// The parts of an accelerator's section: its label; then its per-core
/// loads joined with `/` and a `%` when there are any, else its load and a
/// `%` when it is known; then its clock in brackets when it is known.
pub open spec fn accelerator_parts(
    label: Seq<char>,
    load: Option<Seq<char>>,
    core_loads: Seq<Seq<char>>,
    frequency_hz: Option<u64>,
) -> Seq<Seq<char>> {
    let head = if core_loads.len() > 0 {
        seq![label, join(core_loads, seq!['/']) + seq!['%']]
    } else {
        match load {
            Some(l) => seq![label, l + seq!['%']],
            None => seq![label],
        }
    };
    match frequency_hz {
        Some(hz) => head.push(seq!['['] + engine_frequency_text(hz) + seq![']']),
        None => head,
    }
}

/// An accelerator in the summary panel (`npu 12/8/0% [1.0G]`): its parts,
/// one space apart.
pub open spec fn accelerator_section_text(
    label: Seq<char>,
    load: Option<Seq<char>>,
    core_loads: Seq<Seq<char>>,
    frequency_hz: Option<u64>,
) -> Seq<char> {
    join(accelerator_parts(label, load, core_loads, frequency_hz), seq![' '])
}

/// An accelerator in the summary panel. Its loads come as printed, in
/// whole percents (`7`, `12`).
pub fn format_accelerator_section(
    label: &str,
    load: Option<String>,
    core_loads: &Vec<String>,
    frequency_hz: Option<u64>,
) -> (r: String)
    ensures
        r@ == accelerator_section_text(label@, optional_text(load), string_views(core_loads@), frequency_hz),
{
    let ghost head = accelerator_parts(label@, optional_text(load), string_views(core_loads@), None);
    let mut parts: Vec<Vec<char>> = Vec::new();
    parts.push(chars_of(label));
    if core_loads.len() > 0 {
        let cores = strings_chars(core_loads);
        let mut slash: Vec<char> = Vec::new();
        slash.push('/');
        assert(slash@ =~= seq!['/']);
        let mut piece = join_chars(&cores, slash.as_slice());
        piece.push('%');
        assert(piece@ =~= join(string_views(core_loads@), seq!['/']) + seq!['%']);
        parts.push(piece);
        assert(seqs(parts@) =~= head);
    } else {
        match &load {
            Some(l) => {
                let mut piece = chars_of(l.as_str());
                piece.push('%');
                assert(piece@ =~= l@ + seq!['%']);
                parts.push(piece);
                assert(seqs(parts@) =~= head);
            },
            None => {
                assert(seqs(parts@) =~= head);
            },
        }
    }
    match frequency_hz {
        Some(hz) => {
            let mut piece: Vec<char> = Vec::new();
            piece.push('[');
            let clock = format_engine_frequency(hz);
            push_all(&mut piece, chars_of(clock.as_str()).as_slice());
            piece.push(']');
            assert(piece@ =~= seq!['['] + engine_frequency_text(hz) + seq![']']);
            let ghost before = seqs(parts@);
            parts.push(piece);
            assert(seqs(parts@) =~= before.push(piece@));
        },
        None => {},
    }
    assert(seqs(parts@) =~= accelerator_parts(label@, optional_text(load), string_views(core_loads@), frequency_hz));
    let mut space: Vec<char> = Vec::new();
    space.push(' ');
    assert(space@ =~= seq![' ']);
    let text = join_chars(&parts, space.as_slice());
    string_from(&text)
}

/// An accelerator's load is shown when it was readable; otherwise its
/// section holds its label and its clock only.
pub proof fn lemma_section_shows_load_when_readable(label: Seq<char>, load: Seq<char>, frequency_hz: u64)
    ensures
        accelerator_section_text(label, None, Seq::empty(), Some(frequency_hz)) == label + seq![' ', '[']
            + engine_frequency_text(frequency_hz) + seq![']'],
        accelerator_section_text(label, Some(load), Seq::empty(), Some(frequency_hz)) == label + seq![' ']
            + load + seq!['%', ' ', '['] + engine_frequency_text(frequency_hz) + seq![']'],
{
    let clock = seq!['['] + engine_frequency_text(frequency_hz) + seq![']'];
    let without = seq![label].push(clock);
    assert(accelerator_parts(label, None, Seq::empty(), Some(frequency_hz)) =~= without);
    assert(without.drop_last() =~= seq![label]);
    assert(join(seq![label], seq![' ']) == label);
    assert(join(without, seq![' ']) == join(without.drop_last(), seq![' ']) + seq![' '] + clock);
    assert(join(without, seq![' ']) =~= label + seq![' ', '['] + engine_frequency_text(frequency_hz) + seq![']']);
    let with = seq![label, load + seq!['%']].push(clock);
    assert(accelerator_parts(label, Some(load), Seq::empty(), Some(frequency_hz)) =~= with);
    assert(with.drop_last() =~= seq![label, load + seq!['%']]);
    assert(with.drop_last().drop_last() =~= seq![label]);
    assert(join(with.drop_last(), seq![' ']) == join(with.drop_last().drop_last(), seq![' ']) + seq![' ']
        + (load + seq!['%']));
    assert(join(with, seq![' ']) == join(with.drop_last(), seq![' ']) + seq![' '] + clock);
    assert(join(with.drop_last(), seq![' ']) =~= label + seq![' '] + load + seq!['%']);
    assert(join(with, seq![' ']) =~= label + seq![' '] + load + seq!['%', ' ', '['] + engine_frequency_text(
        frequency_hz,
    ) + seq![']']);
}

/// A summary line: its sections two spaces apart; none when there is no
/// section.
pub open spec fn summary_line_text(sections: Seq<Seq<char>>) -> Option<Seq<char>> {
    if sections.len() == 0 {
        None
    } else {
        Some(join(sections, seq![' ', ' ']))
    }
}

/// A summary line of the given sections.
pub fn summary_line(sections: &Vec<String>) -> (r: Option<String>)
    ensures
        optional_text(r) == summary_line_text(string_views(sections@)),
{
    if sections.len() == 0 {
        return None;
    }
    let parts = strings_chars(sections);
    let mut gap: Vec<char> = Vec::new();
    gap.push(' ');
    gap.push(' ');
    assert(gap@ =~= seq![' ', ' ']);
    let text = join_chars(&parts, gap.as_slice());
    Some(string_from(&text))
}

/// The section of one sensor in the summary line (`cpu [52.3C]`).
pub open spec fn sensor_section_text(sensor: SensorSummary) -> Seq<char> {
    sensor.label@ + seq![' '] + temperature_text(sensor.temperature_millic)
}

/// The sensor summary line: each sensor's label and temperature, two
/// spaces apart; none when there is no sensor.
pub open spec fn sensor_summary_text(summary: Seq<SensorSummary>) -> Option<Seq<char>> {
    summary_line_text(summary.map_values(|sensor: SensorSummary| sensor_section_text(sensor)))
}

/// The sensor summary line.
pub fn format_sensor_summary(summary: &Vec<SensorSummary>) -> (r: Option<String>)
    ensures
        optional_text(r) == sensor_summary_text(summary@),
{
    let mut sections: Vec<String> = Vec::new();
    let mut i: usize = 0;
    while i < summary.len()
        invariant
            i <= summary@.len(),
            string_views(sections@) =~= summary@.take(i as int).map_values(
                |sensor: SensorSummary| sensor_section_text(sensor),
            ),
        decreases summary@.len() - i,
    {
        let ghost before = string_views(sections@);
        let mut section = chars_of(summary[i].label.as_str());
        section.push(' ');
        let temperature = format_temperature(summary[i].temperature_millic);
        push_all(&mut section, chars_of(temperature.as_str()).as_slice());
        let text = string_from(&section);
        assert(text@ == sensor_section_text(summary@[i as int]));
        sections.push(text);
        proof {
            assert(string_views(sections@) =~= before.push(sensor_section_text(summary@[i as int])));
            assert(summary@.take(i + 1).map_values(|sensor: SensorSummary| sensor_section_text(sensor))
                =~= summary@.take(i as int).map_values(|sensor: SensorSummary| sensor_section_text(sensor)).push(
                sensor_section_text(summary@[i as int])));
        }
        i = i + 1;
    }
    assert(summary@.take(i as int) =~= summary@);
    summary_line(&sections)
}

/// A size as the dashboard prints it: tenths of a GiB from 1 GiB on, else
/// whole MiB from 1 MiB on, else whole KiB; each rounded to nearest, ties
/// to even, from the `f64` value of the byte count.
pub open spec fn bytes_text(bytes: u64) -> Seq<char> {
    let f = f64_nearest(bytes as nat);
    if f >= 0x4000_0000 {
        let q = round_half_even(10 * f, 0x4000_0000);
        decimal(q / 10) + seq!['.', digit_char(q % 10), 'G']
    } else if f >= 0x10_0000 {
        decimal(round_half_even(f, 0x10_0000)) + seq!['M']
    } else {
        decimal(round_half_even(f, 0x400)) + seq!['K']
    }
}

fn round_half_even_exec(n: u128, d: u128) -> (r: u128)
    requires
        d > 0,
        n < 0x1_0000_0000_0000_0000_0000_0000,
    ensures
        r == round_half_even(n as nat, d as nat),
{
    let q = n / d;
    let r = n % d;
    assert(q <= n) by (nonlinear_arith)
        requires
            q == n / d,
            d > 0,
    ;
    if r > d - r || (r == d - r && q % 2 == 1) {
        q + 1
    } else {
        q
    }
}

/// `b as f64`, as an integer.
fn f64_value(b: u64) -> (r: u128)
    ensures
        r == f64_nearest(b as nat),
        r <= 0x2_0000_0000_0000_0000,
{
    let mut u: u64 = 1;
    while b / u >= 0x20_0000_0000_0000
        invariant
            0 < u < 0x1000,
            f64_unit(b as nat, 1) == f64_unit(b as nat, u as nat),
        decreases b - u,
    {
        assert(b >= 2 * u && u < 0x800) by (nonlinear_arith)
            requires
                b / u >= 0x20_0000_0000_0000,
                u > 0,
                b < 0x1_0000_0000_0000_0000,
        ;
        u = u * 2;
    }
    let m = round_half_even_exec(b as u128, u as u128);
    assert(m <= 0x20_0000_0000_0000);
    assert(m * u <= 0x2_0000_0000_0000_0000) by (nonlinear_arith)
        requires
            m <= 0x20_0000_0000_0000,
            u < 0x1000,
    ;
    m * (u as u128)
}

/// A byte count as the dashboard prints it (`512K`, `128M`, `3.0G`).
pub fn format_bytes(bytes: u64) -> (r: String)
    ensures
        r@ == bytes_text(bytes),
{
    let f = f64_value(bytes);
    let mut out: Vec<char> = Vec::new();
    if f >= 0x4000_0000 {
        let q = round_half_even_exec(10 * f, 0x4000_0000);
        assert(q / 10 <= u64::MAX) by (nonlinear_arith)
            requires
                q == round_half_even((10 * f) as nat, 0x4000_0000),
                f <= 0x2_0000_0000_0000_0000,
        ;
        push_decimal(&mut out, (q / 10) as u64);
        out.push('.');
        push_digit(&mut out, (q % 10) as u64);
        out.push('G');
    } else if f >= 0x10_0000 {
        let q = round_half_even_exec(f, 0x10_0000);
        push_decimal(&mut out, q as u64);
        out.push('M');
    } else {
        let q = round_half_even_exec(f, 0x400);
        push_decimal(&mut out, q as u64);
        out.push('K');
    }
    assert(out@ =~= bytes_text(bytes));
    string_from(&out)
}

/// A text cut to `max_width` characters: as it is when it fits, else its
/// first characters followed by `...` (only its first characters when
/// there is no room for the dots).
pub open spec fn truncated(text: Seq<char>, max_width: nat) -> Seq<char> {
    if max_width == 0 {
        Seq::empty()
    } else if text.len() <= max_width {
        text
    } else if max_width <= 3 {
        text.take(max_width as int)
    } else {
        text.take(max_width - 3) + "..."@
    }
}

/// The text cut to `max_width` characters.
pub fn truncate_text(text: &str, max_width: usize) -> (r: String)
    ensures
        r@ == truncated(text@, max_width as nat),
{
    proof {
        reveal_strlit("...");
    }
    let chars = chars_of(text);
    if max_width == 0 {
        return string_from(&Vec::new());
    }
    if chars.len() <= max_width {
        return string_from(&chars);
    }
    if max_width <= 3 {
        let head = copy_range(&chars, 0, max_width);
        assert(head@ =~= text@.take(max_width as int));
        return string_from(&head);
    }
    let mut head = copy_range(&chars, 0, max_width - 3);
    head.push('.');
    head.push('.');
    head.push('.');
    assert(head@ =~= text@.take(max_width - 3) + "..."@);
    string_from(&head)
}

/// A cut text is never wider than the room it was cut to, and fills it
/// when it was cut.
pub proof fn lemma_truncated_fits(text: Seq<char>, max_width: nat)
    ensures
        truncated(text, max_width).len() <= max_width,
        text.len() > max_width ==> truncated(text, max_width).len() == max_width,
        text.len() <= max_width ==> truncated(text, max_width) == text,
{
    reveal_strlit("...");
}

} // verus!
