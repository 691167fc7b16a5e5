//! The arrangement of the CPU and memory panels.
use vstd::prelude::*;
use crate::text::{chars_of, decimal, lemma_u64_decimal_len, push_decimal, string_from};
use crate::metrics::model::{CpuMetrics, MemoryMetrics, UsageMetric};
use super::format::{
    bytes_text, format_bytes, format_frequency, format_temperature, frequency_text, temperature_text,
};

verus! {

/// The columns of the CPU panel and the widths inside one.
#[derive(Clone, Copy, Debug, PartialEq, Eq, Structural)]
pub struct CpuLayoutSpec {
    pub columns: usize,
    pub id_width: usize,
    pub fixed_width: usize,
    pub min_bar_width: usize,
    pub max_bar_width: usize,
    pub bar_width: usize,
    pub column_gap: u16,
}

/// The width of the widest CPU number, at least two.
pub open spec fn id_width_of(ids: Seq<usize>) -> nat
    decreases ids.len(),
{
    if ids.len() == 0 {
        2
    } else {
        let rest = id_width_of(ids.drop_last());
        let here = decimal(ids.last() as nat).len();
        if here > rest {
            here
        } else {
            rest
        }
    }
}

/// The width of the CPU number column.
pub fn cpu_id_width(ids: &Vec<usize>) -> (r: usize)
    ensures
        r == id_width_of(ids@),
{
    let mut width: usize = 2;
    let mut i: usize = 0;
    while i < ids.len()
        invariant
            i <= ids@.len(),
            width == id_width_of(ids@.take(i as int)),
        decreases ids@.len() - i,
    {
        assert(ids@.take(i + 1).drop_last() =~= ids@.take(i as int));
        let mut digits: Vec<char> = Vec::new();
        push_decimal(&mut digits, ids[i] as u64);
        assert(digits@ =~= decimal(ids@[i as int] as nat));
        if digits.len() > width {
            width = digits.len();
        }
        i = i + 1;
    }
    assert(ids@.take(i as int) =~= ids@);
    width
}

/// A CPU number is at most twenty digits wide.
proof fn lemma_id_width_bound(ids: Seq<usize>)
    ensures
        id_width_of(ids) <= 20,
    decreases ids.len(),
{
    if ids.len() > 0 {
        lemma_id_width_bound(ids.drop_last());
        lemma_u64_decimal_len(ids.last() as u64);
    }
}

/// The width of a CPU row without its bar: the number, the brackets and
/// spaces, the usage (`100.0%`), the frequency and, when shown, the
/// temperature.
pub open spec fn fixed_width_of(id_width: nat, frequency_width: nat, temperature_width: nat) -> nat {
    id_width + 1 + 1 + 1 + 1 + 6 + 2 + frequency_width + if temperature_width > 0 {
        1 + temperature_width
    } else {
        0
    }
}

/// The width of a CPU row without its bar, from the widths of its parts.
pub fn row_fixed_width(id_width: usize, frequency_width: usize, temperature_width: usize) -> (r: usize)
    requires
        fixed_width_of(id_width as nat, frequency_width as nat, temperature_width as nat) <= usize::MAX,
    ensures
        r == fixed_width_of(id_width as nat, frequency_width as nat, temperature_width as nat),
{
    let extra = if temperature_width > 0 {
        1 + temperature_width
    } else {
        0
    };
    id_width + 1 + 1 + 1 + 1 + 6 + 2 + frequency_width + extra
}

/// Whether `columns` columns of CPU rows fit in `width`, with gaps of four
/// between them, each holding the fixed part, the shortest bar and some
/// padding.
pub open spec fn columns_fit(width: nat, fixed_width: nat, columns: nat) -> bool {
    let gaps: int = 4 * (columns - 1);
    let available: int = if width >= gaps {
        width - gaps
    } else {
        0
    };
    available / (columns as int) >= fixed_width + 12 + 3
}

/// The number of columns: the most, up to three and up to the number of
/// CPUs, such that each smaller number fits too; one when none fits.
pub open spec fn column_count(width: nat, cpu_count: nat, fixed_width: nat) -> nat {
    let max_columns = if cpu_count < 1 {
        1
    } else if cpu_count > 3 {
        3
    } else {
        cpu_count
    };
    if columns_fit(width, fixed_width, 1) && max_columns >= 2 && columns_fit(width, fixed_width, 2) {
        if max_columns >= 3 && columns_fit(width, fixed_width, 3) {
            3
        } else {
            2
        }
    } else {
        1
    }
}

fn fits(width: u16, fixed_width: usize, columns: usize) -> (r: bool)
    requires
        1 <= columns <= 3,
        fixed_width + 15 <= usize::MAX,
    ensures
        r == columns_fit(width as nat, fixed_width as nat, columns as nat),
{
    let gaps = 4 * (columns - 1);
    let w = width as usize;
    let available = if w >= gaps {
        w - gaps
    } else {
        0
    };
    available / columns >= fixed_width + 12 + 3
}

/// The layout of the CPU panel for a width, a number of CPUs and the
/// widths of a row's parts.
pub fn arrange_cpu_columns(width: u16, cpu_count: usize, id_width: usize, fixed_width: usize, has_temperature: bool) -> (r: CpuLayoutSpec)
    requires
        fixed_width + 15 <= usize::MAX,
    ensures
        r.columns == column_count(width as nat, cpu_count as nat, fixed_width as nat),
        r.id_width == id_width,
        r.fixed_width == fixed_width,
        r.min_bar_width == 12,
        r.max_bar_width == if has_temperature {
            18usize
        } else {
            22usize
        },
        r.bar_width == 12,
        r.column_gap == 4,
{
    let max_columns: usize = if cpu_count < 1 {
        1
    } else if cpu_count > 3 {
        3
    } else {
        cpu_count
    };
    let columns: usize = if fits(width, fixed_width, 1) && max_columns >= 2 && fits(width, fixed_width, 2) {
        if max_columns >= 3 && fits(width, fixed_width, 3) {
            3
        } else {
            2
        }
    } else {
        1
    };
    CpuLayoutSpec {
        columns,
        id_width,
        fixed_width,
        min_bar_width: 12,
        max_bar_width: if has_temperature {
            18
        } else {
            22
        },
        bar_width: 12,
        column_gap: 4,
    }
}

/// The numbers of the CPUs.
pub open spec fn cpu_ids(cpus: Seq<CpuMetrics>) -> Seq<usize> {
    cpus.map_values(|cpu: CpuMetrics| cpu.id)
}

/// The width of the widest printed clock of the CPUs (none: zero).
pub open spec fn widest_frequency(cpus: Seq<CpuMetrics>) -> nat
    decreases cpus.len(),
{
    if cpus.len() == 0 {
        0
    } else {
        let rest = widest_frequency(cpus.drop_last());
        let here = frequency_text(cpus.last().frequency_khz).len();
        if here > rest {
            here
        } else {
            rest
        }
    }
}

/// The width of the clock column: the widest printed clock, or that of an
/// unknown clock when there is no CPU.
pub open spec fn frequency_width_of(cpus: Seq<CpuMetrics>) -> nat {
    if cpus.len() == 0 {
        frequency_text(None).len()
    } else {
        widest_frequency(cpus)
    }
}

/// The width of the widest printed temperature of the CPUs that have one
/// (none: zero).
pub open spec fn temperature_width_of(cpus: Seq<CpuMetrics>) -> nat
    decreases cpus.len(),
{
    if cpus.len() == 0 {
        0
    } else {
        let rest = temperature_width_of(cpus.drop_last());
        match cpus.last().temperature_millic {
            Some(t) => {
                let here = temperature_text(t).len();
                if here > rest {
                    here
                } else {
                    rest
                }
            },
            None => rest,
        }
    }
}

/// Whether some CPU has a temperature.
pub open spec fn any_temperature(cpus: Seq<CpuMetrics>) -> bool {
    exists|i: int| 0 <= i < cpus.len() && (#[trigger] cpus[i]).temperature_millic is Some
}

/// The width of a CPU row without its bar, for the given CPUs.
pub fn cpu_fixed_width(id_width: usize, cpus: &Vec<CpuMetrics>) -> (r: usize)
    requires
        id_width + 63 <= usize::MAX,
    ensures
        r == fixed_width_of(id_width as nat, frequency_width_of(cpus@), temperature_width_of(cpus@)),
        r <= id_width + 63,
{
    let mut frequency_width: usize = 0;
    let mut temperature_width: usize = 0;
    let mut i: usize = 0;
    while i < cpus.len()
        invariant
            i <= cpus@.len(),
            frequency_width == widest_frequency(cpus@.take(i as int)),
            temperature_width == temperature_width_of(cpus@.take(i as int)),
            frequency_width <= 25,
            temperature_width <= 25,
        decreases cpus@.len() - i,
    {
        assert(cpus@.take(i + 1).drop_last() =~= cpus@.take(i as int));
        let clock = format_frequency(cpus[i].frequency_khz);
        let clock_width = clock.as_str().unicode_len();
        if clock_width > frequency_width {
            frequency_width = clock_width;
        }
        match cpus[i].temperature_millic {
            Some(t) => {
                let text = format_temperature(t);
                let text_width = text.as_str().unicode_len();
                if text_width > temperature_width {
                    temperature_width = text_width;
                }
            },
            None => {},
        }
        i = i + 1;
    }
    assert(cpus@.take(i as int) =~= cpus@);
    if cpus.len() == 0 {
        let unknown = format_frequency(None);
        frequency_width = unknown.as_str().unicode_len();
    }
    row_fixed_width(id_width, frequency_width, temperature_width)
}

/// The layout of the CPU panel for a width and the CPUs it shows.
pub open spec fn cpu_layout_of(width: nat, cpus: Seq<CpuMetrics>) -> CpuLayoutSpec {
    let fixed = fixed_width_of(id_width_of(cpu_ids(cpus)), frequency_width_of(cpus), temperature_width_of(cpus));
    CpuLayoutSpec {
        columns: column_count(width, cpus.len(), fixed) as usize,
        id_width: id_width_of(cpu_ids(cpus)) as usize,
        fixed_width: fixed as usize,
        min_bar_width: 12,
        max_bar_width: if any_temperature(cpus) {
            18
        } else {
            22
        },
        bar_width: 12,
        column_gap: 4,
    }
}

/// The layout of the CPU panel for a width and the CPUs it shows.
pub fn cpu_layout(width: u16, cpus: &Vec<CpuMetrics>) -> (r: CpuLayoutSpec)
    ensures
        r == cpu_layout_of(width as nat, cpus@),
{
    let mut ids: Vec<usize> = Vec::new();
    let mut has_temperature = false;
    let mut i: usize = 0;
    while i < cpus.len()
        invariant
            i <= cpus@.len(),
            ids@ == cpu_ids(cpus@.take(i as int)),
            has_temperature == any_temperature(cpus@.take(i as int)),
        decreases cpus@.len() - i,
    {
        ids.push(cpus[i].id);
        if cpus[i].temperature_millic.is_some() {
            has_temperature = true;
        }
        proof {
            assert(cpu_ids(cpus@.take(i + 1)) =~= cpu_ids(cpus@.take(i as int)).push(cpus@[i as int].id));
            if has_temperature {
                if cpus@[i as int].temperature_millic is Some {
                    assert(cpus@.take(i + 1)[i as int] == cpus@[i as int]);
                } else {
                    let j = choose|j: int| 0 <= j < i && (#[trigger] cpus@.take(i as int)[j]).temperature_millic is Some;
                    assert(cpus@.take(i + 1)[j] == cpus@.take(i as int)[j]);
                }
            } else {
                assert forall|j: int| 0 <= j < i + 1 implies !((#[trigger] cpus@.take(i + 1)[j]).temperature_millic is Some) by {
                    if j < i {
                        assert(cpus@.take(i + 1)[j] == cpus@.take(i as int)[j]);
                    }
                }
            }
        }
        i = i + 1;
    }
    assert(cpus@.take(i as int) =~= cpus@);
    let id_width = cpu_id_width(&ids);
    proof {
        lemma_id_width_bound(ids@);
    }
    let fixed_width = cpu_fixed_width(id_width, cpus);
    arrange_cpu_columns(width, cpus.len(), id_width, fixed_width, has_temperature)
}

/// The bar width of a column: what is left of it beside the fixed part,
/// kept between the layout's shortest and longest bar.
pub open spec fn bar_width_of(column_width: nat, layout: CpuLayoutSpec) -> nat {
    let left = if column_width >= layout.fixed_width + 1 {
        column_width - (layout.fixed_width + 1)
    } else {
        0
    };
    if left < layout.min_bar_width {
        layout.min_bar_width as nat
    } else if left > layout.max_bar_width {
        layout.max_bar_width as nat
    } else {
        left as nat
    }
}

/// The bar width of a CPU column of the given width.
pub fn cpu_bar_width(column_width: usize, layout: &CpuLayoutSpec) -> (r: usize)
    requires
        layout.min_bar_width <= layout.max_bar_width,
        layout.fixed_width < usize::MAX,
    ensures
        r == bar_width_of(column_width as nat, *layout),
{
    let left = column_width.saturating_sub(layout.fixed_width + 1);
    if left < layout.min_bar_width {
        layout.min_bar_width
    } else if left > layout.max_bar_width {
        layout.max_bar_width
    } else {
        left
    }
}

/// One row of the memory panel: its label, the bytes in use and in all,
/// and the sizes as printed (`[used/total]`).
#[derive(Clone, Debug)]
pub struct MemoryMeterRow {
    pub label: String,
    pub used_bytes: u64,
    pub total_bytes: u64,
    pub size_text: String,
}

impl View for MemoryMeterRow {
    type V = (Seq<char>, u64, u64, Seq<char>);

    open spec fn view(&self) -> Self::V {
        (self.label@, self.used_bytes, self.total_bytes, self.size_text@)
    }
}

pub open spec fn meter_row(label: Seq<char>, m: UsageMetric) -> (Seq<char>, u64, u64, Seq<char>) {
    (
        label,
        m.used_bytes,
        m.total_bytes,
        seq!['['] + bytes_text(m.used_bytes) + seq!['/'] + bytes_text(m.total_bytes) + seq![']'],
    )
}

/// The rows of the memory panel: RAM, then zram and swap where there is
/// any.
pub open spec fn memory_rows(m: MemoryMetrics) -> Seq<(Seq<char>, u64, u64, Seq<char>)> {
    let rows = seq![meter_row("ram"@, m.ram)];
    let rows = if m.zram.total_bytes > 0 {
        rows.push(meter_row("zram"@, m.zram))
    } else {
        rows
    };
    if m.swap.total_bytes > 0 {
        rows.push(meter_row("swap"@, m.swap))
    } else {
        rows
    }
}

fn meter_row_of(label: &str, m: UsageMetric) -> (r: MemoryMeterRow)
    ensures
        r@ == meter_row(label@, m),
{
    let used = format_bytes(m.used_bytes);
    let total = format_bytes(m.total_bytes);
    let mut text: Vec<char> = Vec::new();
    text.push('[');
    let text = crate::text::concat_chars(&text, &chars_of(used.as_str()));
    let mut text = text;
    text.push('/');
    let text = crate::text::concat_chars(&text, &chars_of(total.as_str()));
    let mut text = text;
    text.push(']');
    assert(text@ =~= seq!['['] + bytes_text(m.used_bytes) + seq!['/'] + bytes_text(m.total_bytes) + seq![']']);
    MemoryMeterRow {
        label: string_from(&chars_of(label)),
        used_bytes: m.used_bytes,
        total_bytes: m.total_bytes,
        size_text: string_from(&text),
    }
}

/// The rows of the memory panel.
pub fn build_memory_rows(memory: &MemoryMetrics) -> (r: Vec<MemoryMeterRow>)
    ensures
        r@.map_values(|row: MemoryMeterRow| row@) == memory_rows(*memory),
{
    let mut rows: Vec<MemoryMeterRow> = Vec::new();
    rows.push(meter_row_of("ram", memory.ram));
    if memory.zram.total_bytes > 0 {
        rows.push(meter_row_of("zram", memory.zram));
    }
    if memory.swap.total_bytes > 0 {
        rows.push(meter_row_of("swap", memory.swap));
    }
    assert(rows@.map_values(|row: MemoryMeterRow| row@) =~= memory_rows(*memory));
    rows
}

proof fn lemma_columns_fit_monotone(w1: nat, w2: nat, fixed_width: nat, columns: nat)
    requires
        w1 <= w2,
        1 <= columns <= 3,
        columns_fit(w1, fixed_width, columns),
    ensures
        columns_fit(w2, fixed_width, columns),
{
    let gaps: int = 4 * (columns - 1);
    let a1: int = if w1 >= gaps {
        w1 - gaps
    } else {
        0
    };
    let a2: int = if w2 >= gaps {
        w2 - gaps
    } else {
        0
    };
    assert(a1 <= a2);
    assert(a1 / (columns as int) <= a2 / (columns as int)) by (nonlinear_arith)
        requires
            a1 <= a2,
            0 <= a1,
            columns >= 1,
    ;
}

proof fn lemma_column_count_monotone(w1: nat, w2: nat, cpu_count: nat, fixed_width: nat)
    requires
        w1 <= w2,
    ensures
        1 <= column_count(w1, cpu_count, fixed_width) <= 3,
        cpu_count >= 1 ==> column_count(w1, cpu_count, fixed_width) <= cpu_count,
        column_count(w1, cpu_count, fixed_width) <= column_count(w2, cpu_count, fixed_width),
{
    if columns_fit(w1, fixed_width, 1) {
        lemma_columns_fit_monotone(w1, w2, fixed_width, 1);
    }
    if columns_fit(w1, fixed_width, 2) {
        lemma_columns_fit_monotone(w1, w2, fixed_width, 2);
    }
    if columns_fit(w1, fixed_width, 3) {
        lemma_columns_fit_monotone(w1, w2, fixed_width, 3);
    }
}

/// The CPU panel has one to three columns, no more than there are CPUs
/// (but at least one), and a wider panel never has fewer columns.
pub proof fn lemma_wider_panel_no_fewer_columns(w1: nat, w2: nat, cpus: Seq<CpuMetrics>)
    requires
        w1 <= w2,
    ensures
        1 <= cpu_layout_of(w1, cpus).columns <= 3,
        cpus.len() >= 1 ==> cpu_layout_of(w1, cpus).columns <= cpus.len(),
        cpu_layout_of(w1, cpus).columns <= cpu_layout_of(w2, cpus).columns,
{
    let fixed = fixed_width_of(id_width_of(cpu_ids(cpus)), frequency_width_of(cpus), temperature_width_of(cpus));
    lemma_column_count_monotone(w1, w2, cpus.len(), fixed);
    lemma_column_count_monotone(w2, w2, cpus.len(), fixed);
}

/// The height of the summary panel: four rows of machine facts or the
/// memory rows (at least one), whichever is more, as a 16-bit terminal
/// height, and its borders.
pub open spec fn summary_height(memory_rows: nat) -> nat {
    let right = if memory_rows < 1 {
        1
    } else {
        memory_rows
    };
    ((if right > 4 {
        right
    } else {
        4
    }) % 65536) + 2
}

/// The height of the summary panel.
pub fn summary_panel_height(memory_rows: usize) -> (r: u16)
    requires
        summary_height(memory_rows as nat) <= u16::MAX,
    ensures
        r == summary_height(memory_rows as nat),
{
    let right: usize = if memory_rows < 1 {
        1
    } else {
        memory_rows
    };
    let rows: usize = if right > 4 {
        right
    } else {
        4
    };
    (rows % 65536) as u16 + 2
}

pub open spec fn sat_sub_nat(a: int, b: int) -> nat {
    if a >= b {
        (a - b) as nat
    } else {
        0
    }
}

pub open spec fn clamp_nat(v: nat, lo: nat, hi: nat) -> nat {
    if v < lo {
        lo
    } else if v > hi {
        hi
    } else {
        v
    }
}

/// The label and value widths of a summary cell: the label takes up to 11
/// columns, one space, the value the rest.
pub open spec fn cell_widths(width: nat) -> (nat, nat) {
    let label = if sat_sub_nat(width as int, 1) < 11 {
        sat_sub_nat(width as int, 1)
    } else {
        11
    };
    (label, sat_sub_nat(width as int, (label + 1) as int))
}

/// The label and value widths of a summary cell of the given width.
pub fn summary_cell_widths(width: u16) -> (r: (usize, usize))
    ensures
        (r.0 as nat, r.1 as nat) == cell_widths(width as nat),
{
    let room = width.saturating_sub(1) as usize;
    let label: usize = if room < 11 {
        room
    } else {
        11
    };
    let value = width.saturating_sub(label as u16 + 1) as usize;
    (label, value)
}

/// The widths of a memory row: the label (up to 6), the meter bar (4 to 16,
/// what the percentage and the sizes leave), and the room left for the
/// sizes.
pub open spec fn memory_widths(width: nat, size_len: nat) -> (nat, nat, nat) {
    let label = if sat_sub_nat(width as int, 1) < 6 {
        sat_sub_nat(width as int, 1)
    } else {
        6
    };
    let size_width = if size_len < width {
        size_len
    } else {
        width
    };
    let meter = sat_sub_nat(width as int, (label + 1) as int);
    let bar = clamp_nat(
        sat_sub_nat(
            meter as int,
            9 + (if size_width > 0 {
                1int
            } else {
                0int
            }) + size_width,
        ),
        4,
        16,
    );
    (label, bar, sat_sub_nat(meter as int, (bar + 9 + 1) as int))
}

/// The label, bar and size widths of a memory row of the given width.
pub fn memory_line_widths(width: u16, size_len: usize) -> (r: (usize, usize, usize))
    ensures
        (r.0 as nat, r.1 as nat, r.2 as nat) == memory_widths(width as nat, size_len as nat),
{
    let room = width.saturating_sub(1) as usize;
    let label: usize = if room < 6 {
        room
    } else {
        6
    };
    let w = width as usize;
    let size_width: usize = if size_len < w {
        size_len
    } else {
        w
    };
    let meter = width.saturating_sub(label as u16 + 1) as usize;
    let taken: usize = 9 + (if size_width > 0 {
        1
    } else {
        0
    }) + size_width;
    let left = meter.saturating_sub(taken);
    let bar: usize = if left < 4 {
        4
    } else if left > 16 {
        16
    } else {
        left
    };
    let visible = meter.saturating_sub(bar + 9 + 1);
    (label, bar, visible)
}

/// The bar width of the overall CPU line: what its fixed text leaves, from
/// 12 to 28.
pub open spec fn overall_bar(width: nat, static_width: nat) -> nat {
    clamp_nat(sat_sub_nat(width as int, static_width as int), 12, 28)
}

/// The bar width of the overall CPU line.
pub fn overall_bar_width(width: u16, static_width: u16) -> (r: usize)
    ensures
        r == overall_bar(width as nat, static_width as nat),
{
    let left = width.saturating_sub(static_width) as usize;
    if left < 12 {
        12
    } else if left > 28 {
        28
    } else {
        left
    }
}

/// The padding that centres a line of `content_width` columns (the width
/// counted modulo 65536, as a 16-bit terminal width).
pub open spec fn centring_padding(width: nat, content_width: nat) -> nat {
    sat_sub_nat(width as int, (content_width % 65536) as int) / 2
}

/// The padding that centres a line of `content_width` columns.
pub fn centring_left_padding(width: u16, content_width: usize) -> (r: usize)
    ensures
        r == centring_padding(width as nat, content_width as nat),
{
    let content = (content_width % 65536) as u16;
    (width.saturating_sub(content) as usize) / 2
}

/// The process table: compact below 96 columns, and as many rows as fit
/// under its borders and header.
pub fn process_table_shape(width: u16, height: u16) -> (r: (bool, usize))
    ensures
        r.0 == (width < 96),
        r.1 == sat_sub_nat(height as int, 3),
{
    (width < 96, height.saturating_sub(3) as usize)
}

/// The CPU rows of one column: `rows_per_column` of them from the column's
/// start, fewer in the last column.
pub fn cpu_column_range(column_index: usize, rows_per_column: usize, cpu_count: usize) -> (r: (usize, usize))
    requires
        column_index * rows_per_column + rows_per_column <= usize::MAX,
    ensures
        r.0 == column_index * rows_per_column,
        r.1 == if r.0 + rows_per_column < cpu_count {
            r.0 + rows_per_column
        } else {
            cpu_count as int
        },
{
    let start = column_index * rows_per_column;
    let end = if start + rows_per_column < cpu_count {
        start + rows_per_column
    } else {
        cpu_count
    };
    (start, end)
}

/// The number of CPU rows in a column: the CPUs spread evenly over the
/// columns, rounded up (`usize::div_ceil`).
pub fn cpu_rows_per_column(cpu_count: usize, columns: usize) -> (r: usize)
    requires
        columns >= 1,
    ensures
        r == cpu_count / columns + if cpu_count % columns > 0 {
            1int
        } else {
            0int
        },
{
    let q = cpu_count / columns;
    let rem = cpu_count % columns;
    if rem > 0 {
        assert(q < cpu_count) by (nonlinear_arith)
            requires
                q == cpu_count / columns,
                rem == cpu_count % columns,
                rem > 0,
                columns >= 1,
        ;
        q + 1
    } else {
        q
    }
}

/// RAM is always the first row of the memory panel; zram and swap follow
/// only where there is any.
pub proof fn lemma_ram_always_shown(m: MemoryMetrics)
    ensures
        memory_rows(m).len() >= 1,
        memory_rows(m)[0].0 == "ram"@,
        memory_rows(m).len() == 1 + (if m.zram.total_bytes > 0 {
            1int
        } else {
            0int
        }) + (if m.swap.total_bytes > 0 {
            1int
        } else {
            0int
        }),
{
}

} // verus!
