//! What is read of the GPUs, when two readings of them are the same, and what
//! is shown of them.

use vstd::prelude::*;

use crate::bar::{Caption, Gauge, Quantity};
use crate::color::{color_of, Color};
use crate::config::Config;
use crate::gpu::{
    csv_gpu, csv_gpus, get_temp_color, get_util_color, gpu_list_eq, gpu_view, gpus_view,
    law_csv_numbers_grow, law_table_numbers, parse_float, parse_gpus, parse_gpus_csv, shows_gpu,
    table_gpu, GpuInfo,
};
use crate::laws::words::{lemma_reads_as, reads_as};
use crate::number::decimal;
use crate::reading::Real;
use crate::render::{gauges_of_gpu, gpu_gauges};
use crate::text::{
    contains, law_only_concat, law_only_drops_others, law_only_keeps_its_class,
    lemma_run_before, lemma_run_of, lines, only, split, trim, words, CharClass,
};

verus! {

// ---- comparison -----------------------------------------------------------

/// Two lists of GPUs compare equal where they are as long and every reading of
/// every GPU is equal, floating-point readings as numbers; a change of any one
/// reading of any one GPU is a difference.
pub proof fn law_equal_lists_have_equal_readings(
    a: &[GpuInfo<Real>],
    b: &[GpuInfo<Real>],
    r: bool,
)
    requires
        call_ensures(gpu_list_eq, (a, b), r),
    ensures
        r ==> a@.len() == b@.len(),
        r ==> forall|i: int|
            0 <= i < a@.len() ==> {
                &&& (#[trigger] a@[i]).power_usage == b@[i].power_usage
                &&& a@[i].power_cap == b@[i].power_cap
                &&& a@[i].memory_used == b@[i].memory_used
                &&& a@[i].memory_total == b@[i].memory_total
                &&& a@[i].temperature.at_least(b@[i].temperature) && b@[i].temperature.at_least(
                    a@[i].temperature,
                )
                &&& a@[i].fan_speed.at_least(b@[i].fan_speed) && b@[i].fan_speed.at_least(
                    a@[i].fan_speed,
                )
                &&& a@[i].gpu_util.at_least(b@[i].gpu_util) && b@[i].gpu_util.at_least(
                    a@[i].gpu_util,
                )
            },
        !r && a@.len() == b@.len() ==> exists|i: int|
            0 <= i < a@.len() && {
                ||| (#[trigger] a@[i]).power_usage != b@[i].power_usage
                ||| a@[i].power_cap != b@[i].power_cap
                ||| a@[i].memory_used != b@[i].memory_used
                ||| a@[i].memory_total != b@[i].memory_total
                ||| !(a@[i].temperature.at_least(b@[i].temperature) && b@[i].temperature.at_least(
                    a@[i].temperature,
                ))
                ||| !(a@[i].fan_speed.at_least(b@[i].fan_speed) && b@[i].fan_speed.at_least(
                    a@[i].fan_speed,
                ))
                ||| !(a@[i].gpu_util.at_least(b@[i].gpu_util) && b@[i].gpu_util.at_least(
                    a@[i].gpu_util,
                ))
            },
{
}

// ---- comma-separated values -----------------------------------------------

/// The GPU of a line of comma-separated values: its number is that of the
/// line, and its readings are the fields in order, without white space around
/// them.
pub open spec fn is_csv_gpu(gpu: GpuInfo<String>, line: int, fields: Seq<Seq<char>>) -> bool {
    &&& gpu.id == line
    &&& gpu.temperature@ == trim(fields[0])
    &&& gpu.fan_speed@ == trim(fields[1])
    &&& reads_as(trim(fields[2]), u32::MAX as nat, 0, gpu.power_usage as nat)
    &&& reads_as(trim(fields[3]), u32::MAX as nat, 0, gpu.power_cap as nat)
    &&& reads_as(trim(fields[4]), u32::MAX as nat, 0, gpu.memory_used as nat)
    &&& reads_as(trim(fields[5]), u32::MAX as nat, 0, gpu.memory_total as nat)
    &&& gpu.gpu_util@ == trim(fields[6])
}

proof fn lemma_csv(all: Seq<Seq<char>>)
    requires
        all.len() <= usize::MAX,
    ensures
        forall|i: int|
            0 <= i < all.len() && csv_gpu(i as nat, #[trigger] all[i]) is Some ==> csv_gpus(
                all,
            ).contains(csv_gpu(i as nat, all[i])->0),
        forall|k: int|
            0 <= k < csv_gpus(all).len() ==> {
                let gpu = #[trigger] csv_gpus(all)[k];
                gpu.id < all.len() && csv_gpu(gpu.id as nat, all[gpu.id as int]) == Some(gpu)
            },
    decreases all.len(),
{
    if all.len() > 0 {
        let before = all.drop_last();
        let last = all.len() - 1;
        lemma_csv(before);
        let old_gpus = csv_gpus(before);
        let gpus = csv_gpus(all);
        assert forall|i: int|
            0 <= i < all.len() && csv_gpu(i as nat, #[trigger] all[i]) is Some implies
        gpus.contains(csv_gpu(i as nat, all[i])->0) by {
            let gpu = csv_gpu(i as nat, all[i])->0;
            if i < last {
                assert(before[i] == all[i]);
                assert(old_gpus.contains(gpu));
                let k = choose|k: int| 0 <= k < old_gpus.len() && old_gpus[k] == gpu;
                assert(gpus[k] == gpu);
            } else {
                assert(gpus[old_gpus.len() as int] == gpu);
            }
        }
        assert forall|k: int| 0 <= k < gpus.len() implies ({
            let gpu = #[trigger] gpus[k];
            gpu.id < all.len() && csv_gpu(gpu.id as nat, all[gpu.id as int]) == Some(gpu)
        }) by {
            if k < old_gpus.len() {
                assert(gpus[k] == old_gpus[k]);
                assert(before[old_gpus[k].id as int] == all[old_gpus[k].id as int]);
            }
        }
    }
}

proof fn lemma_csv_gpu(gpu: GpuInfo<String>, i: int, line: Seq<char>)
    requires
        0 <= i <= usize::MAX,
        csv_gpu(i as nat, line) == Some(gpu_view(gpu)),
    ensures
        split(line, ',').len() >= 7,
        is_csv_gpu(gpu, i, split(line, ',')),
{
    let fields = split(line, ',');
    lemma_reads_as(trim(fields[2]), u32::MAX as nat, 0);
    lemma_reads_as(trim(fields[3]), u32::MAX as nat, 0);
    lemma_reads_as(trim(fields[4]), u32::MAX as nat, 0);
    lemma_reads_as(trim(fields[5]), u32::MAX as nat, 0);
    assert(gpu_view(gpu).temperature == gpu.temperature@);
}

/// Every line of seven fields or more is read as one GPU, and nothing else is;
/// the GPUs come in the order of the lines.
pub proof fn law_csv_lines_are_gpus(output: &str, r: Vec<GpuInfo<String>>)
    requires
        lines(output@).len() <= usize::MAX,
        call_ensures(parse_gpus_csv, (output,), r),
    ensures
        forall|i: int|
            0 <= i < lines(output@).len() && split(#[trigger] lines(output@)[i], ',').len() >= 7
                ==> exists|k: int|
                0 <= k < r@.len() && #[trigger] is_csv_gpu(
                    r@[k],
                    i,
                    split(lines(output@)[i], ','),
                ),
        forall|k: int|
            0 <= k < r@.len() ==> (#[trigger] r@[k]).id < lines(output@).len() && split(
                lines(output@)[r@[k].id as int],
                ',',
            ).len() >= 7 && is_csv_gpu(
                r@[k],
                r@[k].id as int,
                split(lines(output@)[r@[k].id as int], ','),
            ),
        forall|j: int, k: int|
            0 <= j < k < r@.len() ==> (#[trigger] r@[j]).id < (#[trigger] r@[k]).id,
{
    let all = lines(output@);
    let gpus = csv_gpus(all);
    lemma_csv(all);
    law_csv_numbers_grow(all);
    assert(gpus_view(r@) == gpus);
    assert forall|k: int| 0 <= k < r@.len() implies gpus[k] == gpu_view(#[trigger] r@[k]) by {
        assert(gpus_view(r@)[k] == gpu_view(r@[k]));
    }
    assert forall|i: int|
        0 <= i < all.len() && split(#[trigger] all[i], ',').len() >= 7 implies exists|k: int|
        0 <= k < r@.len() && #[trigger] is_csv_gpu(r@[k], i, split(all[i], ',')) by {
        let gpu = csv_gpu(i as nat, all[i])->0;
        assert(gpus.contains(gpu));
        let k = choose|k: int| 0 <= k < gpus.len() && gpus[k] == gpu;
        assert(gpus[k] == gpu_view(r@[k]));
        lemma_csv_gpu(r@[k], i, all[i]);
    }
    assert forall|k: int| 0 <= k < r@.len() implies (#[trigger] r@[k]).id < all.len() && split(
        all[r@[k].id as int],
        ',',
    ).len() >= 7 && is_csv_gpu(r@[k], r@[k].id as int, split(all[r@[k].id as int], ',')) by {
        assert(gpus[k] == gpu_view(r@[k]));
        lemma_csv_gpu(r@[k], r@[k].id as int, all[r@[k].id as int]);
    }
    assert forall|j: int, k: int| 0 <= j < k < r@.len() implies (#[trigger] r@[j]).id < (
    #[trigger] r@[k]).id by {
        assert(gpus[j] == gpu_view(r@[j]) && gpus[k] == gpu_view(r@[k]));
        assert(gpus[j].id < gpus[k].id);
    }
}

// ---- table ----------------------------------------------------------------

/// The unit of a reading is dropped, and the reading stays.
pub proof fn law_unit_is_dropped(value: &str, number: Seq<char>, r: String)
    requires
        forall|i: int| 0 <= i < number.len() ==> #[trigger] number[i] != '%' && number[i] != 'C',
        value@ == number || value@ == number + seq!['%'] || value@ == number + seq!['C'],
        call_ensures(parse_float, (value,), r),
    ensures
        r@ == number,
{
    lemma_unit(number, seq![]);
    lemma_unit(number, seq!['%']);
    lemma_unit(number, seq!['C']);
    assert(number + seq![] =~= number);
}

proof fn lemma_unit(number: Seq<char>, unit: Seq<char>)
    requires
        forall|i: int| 0 <= i < number.len() ==> #[trigger] number[i] != '%' && number[i] != 'C',
        unit == Seq::<char>::empty() || unit == seq!['%'] || unit == seq!['C'],
    ensures
        only(only(number + unit, CharClass::Not('%')), CharClass::Not('C')) == number,
{
    law_only_keeps_its_class(number, CharClass::Not('%'));
    law_only_keeps_its_class(number, CharClass::Not('C'));
    law_only_concat(number, unit, CharClass::Not('%'));
    if unit == seq!['%'] {
        law_only_drops_others(unit, CharClass::Not('%'));
        assert(number + Seq::<char>::empty() =~= number);
    } else if unit == seq!['C'] {
        law_only_keeps_its_class(unit, CharClass::Not('%'));
        law_only_drops_others(unit, CharClass::Not('C'));
        law_only_concat(number, unit, CharClass::Not('C'));
        assert(number + Seq::<char>::empty() =~= number);
    } else {
        assert(number + unit =~= number);
    }
}

/// The GPU of a row of the table: the words of the row, each in its place,
/// floating-point readings without their units.
pub open spec fn is_table_gpu(gpu: GpuInfo<String>, tokens: Seq<Seq<char>>) -> bool {
    &&& gpu.fan_speed@ == only(only(tokens[0], CharClass::Not('%')), CharClass::Not('C'))
    &&& gpu.temperature@ == only(only(tokens[1], CharClass::Not('%')), CharClass::Not('C'))
    &&& reads_as(only(tokens[3], CharClass::Digit), u32::MAX as nat, 0, gpu.power_usage as nat)
    &&& reads_as(only(tokens[5], CharClass::Digit), u32::MAX as nat, 0, gpu.power_cap as nat)
    &&& reads_as(only(tokens[7], CharClass::Digit), u32::MAX as nat, 0, gpu.memory_used as nat)
    &&& reads_as(only(tokens[9], CharClass::Digit), u32::MAX as nat, 0, gpu.memory_total as nat)
    &&& gpu.gpu_util@ == only(only(tokens[11], CharClass::Not('%')), CharClass::Not('C'))
}

/// A row of the table, between its bars, shows a GPU where its first word
/// holds a percent sign and it has thirteen words or more. Its GPU comes after
/// those of the rows before it, and has the next number; other rows change
/// nothing.
pub proof fn law_table_rows_are_gpus(
    before: &str,
    output: &str,
    left: Seq<char>,
    inner: Seq<char>,
    right: Seq<char>,
    row: Seq<char>,
    a: Vec<GpuInfo<String>>,
    b: Vec<GpuInfo<String>>,
)
    requires
        lines(output@) == lines(before@).push(row),
        lines(output@).len() <= usize::MAX,
        row == left + inner + right,
        left.len() > 0,
        forall|i: int| 0 <= i < left.len() ==> #[trigger] left[i] == '|',
        forall|i: int| 0 <= i < right.len() ==> #[trigger] right[i] == '|',
        inner.len() > 0,
        inner[0] != '|',
        inner.last() != '|',
        call_ensures(parse_gpus, (before,), a),
        call_ensures(parse_gpus, (output,), b),
    ensures
        words(inner).len() >= 13 && contains(words(inner)[0], "%"@) ==> {
            &&& b@.len() == a@.len() + 1
            &&& b@[a@.len() as int].id == a@.len()
            &&& is_table_gpu(b@[a@.len() as int], words(inner))
        },
        words(inner).len() < 13 || !contains(words(inner)[0], "%"@) ==> b@.len() == a@.len(),
        b@.len() >= a@.len() && forall|k: int|
            0 <= k < a@.len() ==> gpu_view(#[trigger] b@[k]) == gpu_view(a@[k]),
{
    let all = lines(output@);
    assert(all.drop_last() =~= lines(before@));
    assert(all.last() == row);
    let n = left.len() as int;
    assert(row[0] == left[0]);
    assert forall|i: int| 0 <= i < n implies CharClass::Is('|').holds(#[trigger] row[i]) by {
        assert(row[i] == left[i]);
    }
    assert(row[n] == inner[0]);
    lemma_run_of(row, 0, n, CharClass::Is('|'));
    let t = row.skip(n);
    assert(t =~= inner + right);
    assert(t[inner.len() - 1] == inner.last());
    assert forall|i: int| inner.len() <= i < t.len() implies CharClass::Is('|').holds(
        #[trigger] t[i],
    ) by {
        assert(t[i] == right[i - inner.len()]);
    }
    lemma_run_before(t, inner.len() as int, t.len() as int, CharClass::Is('|'));
    assert(t.take(inner.len() as int) =~= inner);
    assert(crate::gpu::table_words(row) == words(inner));
    assert(gpus_view(a@).len() == a@.len());
    assert(gpus_view(b@).len() == b@.len());
    law_table_numbers(lines(before@));
    let tokens = words(inner);
    if shows_gpu(row) {
        let k = a@.len() as int;
        assert(gpus_view(b@)[k] == table_gpu(a@.len(), row));
        assert(gpu_view(b@[k]) == table_gpu(a@.len(), row));
        assert(gpu_view(b@[k]).temperature == b@[k].temperature@);
        lemma_reads_as(only(tokens[3], CharClass::Digit), u32::MAX as nat, 0);
        lemma_reads_as(only(tokens[5], CharClass::Digit), u32::MAX as nat, 0);
        lemma_reads_as(only(tokens[7], CharClass::Digit), u32::MAX as nat, 0);
        lemma_reads_as(only(tokens[9], CharClass::Digit), u32::MAX as nat, 0);
    }
    assert forall|k: int| 0 <= k < a@.len() implies gpu_view(#[trigger] b@[k]) == gpu_view(
        a@[k],
    ) by {
        assert(gpus_view(b@)[k] == gpus_view(a@)[k]);
    }
}

/// Rows that do not start with a bar change nothing.
pub proof fn law_other_rows_are_no_gpus(
    before: &str,
    output: &str,
    row: Seq<char>,
    a: Vec<GpuInfo<String>>,
    b: Vec<GpuInfo<String>>,
)
    requires
        lines(output@) == lines(before@).push(row),
        row.len() == 0 || row[0] != '|',
        call_ensures(parse_gpus, (before,), a),
        call_ensures(parse_gpus, (output,), b),
    ensures
        gpus_view(b@) == gpus_view(a@),
{
    assert(lines(output@).drop_last() =~= lines(before@));
}

// ---- colours --------------------------------------------------------------

/// The whole number `n`, of 32 or more and below 128, as a reading: the
/// exponent of its largest power of two, and the rest as a fraction of that.
pub open spec fn whole(n: int) -> Real {
    if n < 64 {
        Real { bits: (0x4040_0000_0000_0000 + (n - 32) * 0x8000_0000_0000) as u64 }
    } else {
        Real { bits: (0x4050_0000_0000_0000 + (n - 64) * 0x4000_0000_0000) as u64 }
    }
}

/// Temperatures have the critical colour from 85 degrees on, the high one from
/// 70, the medium one from 50, and the low one below that.
pub proof fn law_temperature_colors(temp: Real, config: &Config, r: Color)
    requires
        call_ensures(get_temp_color, (temp, config), r),
    ensures
        temp.at_least(whole(85)) ==> r == color_of(config.temp_critical@),
        temp.at_least(whole(70)) && !temp.at_least(whole(85)) ==> r == color_of(config.temp_high@),
        temp.at_least(whole(50)) && !temp.at_least(whole(70)) ==> r == color_of(
            config.temp_medium@,
        ),
        !temp.at_least(whole(50)) ==> r == color_of(config.temp_low@),
{
}

/// Utilizations have the high colour from 90 percent on, the medium one from
/// 70, and the low one below that.
pub proof fn law_utilization_colors(util: Real, config: &Config, r: Color)
    requires
        call_ensures(get_util_color, (util, config), r),
    ensures
        util.at_least(whole(90)) ==> r == color_of(config.util_high@),
        util.at_least(whole(70)) && !util.at_least(whole(90)) ==> r == color_of(
            config.util_medium@,
        ),
        !util.at_least(whole(70)) ==> r == color_of(config.util_low@),
{
}

// ---- gauges ---------------------------------------------------------------

/// A gauge shows a reading: whole or with decimal places, as `caption` says.
pub open spec fn shows_reading(
    gauge: Gauge,
    label: Seq<char>,
    value: Real,
    color: Color,
    unit: Seq<char>,
) -> bool {
    &&& gauge.label@ == label
    &&& gauge.quantity == Quantity::Value(value)
    &&& gauge.max == 100
    &&& gauge.color == color
    &&& gauge.unit@ == unit
}

/// A gauge shows a part of a whole, and writes both.
pub open spec fn shows_part(
    gauge: Gauge,
    label: Seq<char>,
    part: u32,
    total: u32,
    color: Color,
    unit: Seq<char>,
) -> bool {
    &&& gauge.label@ == label
    &&& gauge.quantity == Quantity::Share { part, whole: total }
    &&& gauge.max == 100
    &&& gauge.color == color
    &&& gauge.caption matches Caption::Written(text) && text@ == decimal(part as nat) + "/"@
        + decimal(total as nat)
    &&& gauge.unit@ == unit
}

/// A gauge shows what is left of a whole beside a part, up to the whole, and
/// writes it.
pub open spec fn shows_rest(
    gauge: Gauge,
    label: Seq<char>,
    part: u32,
    total: u32,
    color: Color,
    unit: Seq<char>,
) -> bool {
    &&& gauge.label@ == label
    &&& gauge.quantity matches Quantity::Count(n) && (part <= total ==> n + part == total) && (part
        > total ==> n == 0) && (gauge.caption matches Caption::Written(text) && text@ == decimal(
        n as nat,
    ))
    &&& gauge.max == total
    &&& gauge.color == color
    &&& gauge.unit@ == unit
}

/// Each gauge of a GPU shows the reading that its label names, in its own
/// colour and with its own unit.
pub proof fn law_gpu_gauges_show_their_readings(
    gpu: &GpuInfo<Real>,
    config: &Config,
    temp: Color,
    util: Color,
    r: Vec<Gauge>,
)
    requires
        call_ensures(gauges_of_gpu, (gpu, config), r),
        call_ensures(get_temp_color, (gpu.temperature, config), temp),
        call_ensures(get_util_color, (gpu.gpu_util, config), util),
    ensures
        r@.len() == 7,
        shows_reading(r@[0], "Temp"@, gpu.temperature, temp, "\u{00B0}C"@),
        r@[0].caption is Whole,
        shows_reading(r@[1], "Fan"@, gpu.fan_speed, Color::DarkCyan, "%"@),
        r@[1].caption == Caption::Places(0),
        shows_part(
            r@[2],
            "Power"@,
            gpu.power_usage,
            gpu.power_cap,
            color_of(config.power@),
            "W"@,
        ),
        shows_rest(
            r@[3],
            "Pwr Left"@,
            gpu.power_usage,
            gpu.power_cap,
            color_of(config.power@),
            "W"@,
        ),
        shows_part(
            r@[4],
            "Memory"@,
            gpu.memory_used,
            gpu.memory_total,
            color_of(config.memory@),
            "MiB"@,
        ),
        shows_rest(
            r@[5],
            "Mem Free"@,
            gpu.memory_used,
            gpu.memory_total,
            color_of(config.memory@),
            "MiB"@,
        ),
        shows_reading(r@[6], "Util"@, gpu.gpu_util, util, "%"@),
        r@[6].caption is Whole,
{
    let views = gpu_gauges(*gpu, *config);
    assert(crate::bar::gauge_views(r@) == views);
    assert(views.len() == 7);
    assert forall|i: int| 0 <= i < 7 implies (#[trigger] r@[i])@ == views[i] by {
        assert(crate::bar::gauge_views(r@)[i] == r@[i]@);
    }
    assert(r@[0]@ == views[0]);
    assert(r@[1]@ == views[1]);
    assert(r@[2]@ == views[2]);
    assert(r@[3]@ == views[3]);
    assert(r@[4]@ == views[4]);
    assert(r@[5]@ == views[5]);
    assert(r@[6]@ == views[6]);
}

/// A gauge of a GPU depends on the readings that it shows alone: two GPUs that
/// agree in them have the same gauge, and two whose temperatures, fan speeds or
/// utilizations differ have gauges of different quantities.
pub proof fn law_gauges_depend_on_their_own_reading(
    a: &GpuInfo<Real>,
    b: &GpuInfo<Real>,
    config: &Config,
    x: Vec<Gauge>,
    y: Vec<Gauge>,
)
    requires
        call_ensures(gauges_of_gpu, (a, config), x),
        call_ensures(gauges_of_gpu, (b, config), y),
    ensures
        x@.len() == 7 && y@.len() == 7,
        a.temperature == b.temperature ==> x@[0]@ == y@[0]@,
        a.temperature != b.temperature ==> x@[0].quantity != y@[0].quantity,
        a.fan_speed == b.fan_speed ==> x@[1]@ == y@[1]@,
        a.fan_speed != b.fan_speed ==> x@[1].quantity != y@[1].quantity,
        a.power_usage == b.power_usage && a.power_cap == b.power_cap ==> x@[2]@ == y@[2]@ && x@[3]@
            == y@[3]@,
        a.power_usage != b.power_usage || a.power_cap != b.power_cap ==> x@[2].quantity
            != y@[2].quantity,
        a.memory_used == b.memory_used && a.memory_total == b.memory_total ==> x@[4]@ == y@[4]@
            && x@[5]@ == y@[5]@,
        a.memory_used != b.memory_used || a.memory_total != b.memory_total ==> x@[4].quantity
            != y@[4].quantity,
        a.gpu_util == b.gpu_util ==> x@[6]@ == y@[6]@,
        a.gpu_util != b.gpu_util ==> x@[6].quantity != y@[6].quantity,
{
    let va = crate::bar::gauge_views(x@);
    let vb = crate::bar::gauge_views(y@);
    assert(va.len() == 7 && vb.len() == 7);
    assert(va[0] == x@[0]@ && vb[0] == y@[0]@);
    assert(va[1] == x@[1]@ && vb[1] == y@[1]@);
    assert(va[2] == x@[2]@ && vb[2] == y@[2]@);
    assert(va[3] == x@[3]@ && vb[3] == y@[3]@);
    assert(va[4] == x@[4]@ && vb[4] == y@[4]@);
    assert(va[5] == x@[5]@ && vb[5] == y@[5]@);
    assert(va[6] == x@[6]@ && vb[6] == y@[6]@);
}

} // verus!
