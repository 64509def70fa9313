//! GPUs: what nvidia-smi prints of them, and the colours of their readings.

use vstd::prelude::*;

use crate::color::{color_of, parse_color_str, Color};
use crate::config::Config;
use crate::number::{digits_number, parse_or, read_digits, read_u32_or};
use crate::reading::Real;
use crate::text::{
    chars_of, contains, keep, lines, mentions, only, rows, split, split_fields, split_lines,
    split_words, text_of, trim, trim_end_char, trim_start_char, trimmed, without_leading,
    without_trailing, words, CharClass,
};

verus! {

/// The readings of a GPU. `F` is what stands for its floating-point readings:
/// their texts, or their values.
#[derive(Debug, PartialEq, Eq)]
pub struct GpuInfo<F> {
    pub id: usize,
    pub temperature: F,
    pub fan_speed: F,
    pub power_usage: u32,
    pub power_cap: u32,
    pub memory_used: u32,
    pub memory_total: u32,
    pub gpu_util: F,
}

pub open spec fn gpu_view(gpu: GpuInfo<String>) -> GpuInfo<Seq<char>> {
    GpuInfo {
        id: gpu.id,
        temperature: gpu.temperature@,
        fan_speed: gpu.fan_speed@,
        power_usage: gpu.power_usage,
        power_cap: gpu.power_cap,
        memory_used: gpu.memory_used,
        memory_total: gpu.memory_total,
        gpu_util: gpu.gpu_util@,
    }
}

pub open spec fn gpus_view(gpus: Seq<GpuInfo<String>>) -> Seq<GpuInfo<Seq<char>>> {
    Seq::new(gpus.len(), |i: int| gpu_view(gpus[i]))
}

// ---- comma-separated values -----------------------------------------------

/// A whole number of a field; zero where it is none.
pub open spec fn field_number(field: Seq<char>) -> u32 {
    parse_or(trim(field), u32::MAX as nat, 0) as u32
}

/// The readings of a line of comma-separated values; none where there are
/// fewer than seven. A number that cannot be read is zero.
pub open spec fn csv_gpu(id: nat, line: Seq<char>) -> Option<GpuInfo<Seq<char>>> {
    let fields = split(line, ',');
    if fields.len() < 7 {
        None
    } else {
        Some(
            GpuInfo {
                id: id as usize,
                temperature: trim(fields[0]),
                fan_speed: trim(fields[1]),
                power_usage: field_number(fields[2]),
                power_cap: field_number(fields[3]),
                memory_used: field_number(fields[4]),
                memory_total: field_number(fields[5]),
                gpu_util: trim(fields[6]),
            },
        )
    }
}

/// The GPUs of some lines of comma-separated values. A GPU is numbered by the
/// line that it stands in.
pub open spec fn csv_gpus(all: Seq<Seq<char>>) -> Seq<GpuInfo<Seq<char>>>
    decreases all.len(),
{
    if all.len() == 0 {
        seq![]
    } else {
        let before = csv_gpus(all.drop_last());
        match csv_gpu((all.len() - 1) as nat, all.last()) {
            Some(gpu) => before.push(gpu),
            None => before,
        }
    }
}

/// A GPU of comma-separated values has the number of its line: the numbers
/// grow, and none reaches the number of lines.
pub proof fn law_csv_numbers_grow(all: Seq<Seq<char>>)
    requires
        all.len() <= usize::MAX,
    ensures
        forall|i: int| 0 <= i < csv_gpus(all).len() ==> (#[trigger] csv_gpus(all)[i]).id < all.len(),
        forall|i: int, j: int|
            0 <= i < j < csv_gpus(all).len() ==> (#[trigger] csv_gpus(all)[i]).id < (
            #[trigger] csv_gpus(all)[j]).id,
    decreases all.len(),
{
    if all.len() > 0 {
        law_csv_numbers_grow(all.drop_last());
        let before = csv_gpus(all.drop_last());
        let gpus = csv_gpus(all);
        assert forall|i: int| 0 <= i < gpus.len() implies (#[trigger] gpus[i]).id < all.len() by {
            if i < before.len() {
                assert(gpus[i] == before[i]);
            }
        }
        assert forall|i: int, j: int| 0 <= i < j < gpus.len() implies (#[trigger] gpus[i]).id < (
        #[trigger] gpus[j]).id by {
            assert(gpus[i] == before[i]);
            if j < before.len() {
                assert(gpus[j] == before[j]);
            }
        }
    }
}

fn read_csv_gpu(id: usize, line: &[char]) -> (r: Option<GpuInfo<String>>)
    ensures
        match r {
            Some(gpu) => csv_gpu(id as nat, line@) == Some(gpu_view(gpu)),
            None => csv_gpu(id as nat, line@) is None,
        },
{
    let fields = split_fields(line, ',');
    proof {
        assert(rows(fields@).len() == fields@.len());
        assert forall|k: int| 0 <= k < fields@.len() implies split(line@, ',')[k]
            == #[trigger] fields@[k]@ by {
            assert(rows(fields@)[k] == fields@[k]@);
        }
    }
    if fields.len() < 7 {
        return None;
    }
    Some(
        GpuInfo {
            id,
            temperature: text_of(trimmed(fields[0].as_slice())),
            fan_speed: text_of(trimmed(fields[1].as_slice())),
            power_usage: read_u32_or(trimmed(fields[2].as_slice()), 0),
            power_cap: read_u32_or(trimmed(fields[3].as_slice()), 0),
            memory_used: read_u32_or(trimmed(fields[4].as_slice()), 0),
            memory_total: read_u32_or(trimmed(fields[5].as_slice()), 0),
            gpu_util: text_of(trimmed(fields[6].as_slice())),
        },
    )
}

/// The GPUs that nvidia-smi prints as comma-separated values, floating-point
/// readings as texts.
pub fn parse_gpus_csv(output: &str) -> (r: Vec<GpuInfo<String>>)
    ensures
        gpus_view(r@) == csv_gpus(lines(output@)),
{
    let chars = chars_of(output);
    let all = split_lines(chars.as_slice());
    let mut r: Vec<GpuInfo<String>> = Vec::new();
    let mut i: usize = 0;
    let ghost list = lines(output@);
    proof {
        assert(rows(all@).len() == all@.len());
        assert(gpus_view(r@) =~= csv_gpus(list.take(0)));
    }
    while i < all.len()
        invariant
            i <= all@.len(),
            rows(all@) == list,
            gpus_view(r@) == csv_gpus(list.take(i as int)),
        decreases all@.len() - i,
    {
        let ghost before = r@;
        proof {
            assert(list[i as int] == rows(all@)[i as int]);
            assert(list.take(i + 1).drop_last() =~= list.take(i as int));
        }
        match read_csv_gpu(i, all[i].as_slice()) {
            Some(gpu) => {
                r.push(gpu);
                proof {
                    assert(gpus_view(r@) =~= gpus_view(before).push(gpu_view(gpu)));
                }
            },
            None => {},
        }
        i += 1;
    }
    proof {
        assert(list.take(list.len() as int) =~= list);
    }
    r
}

// ---- table ----------------------------------------------------------------

/// The text of a reading of the table without its unit.
pub open spec fn without_unit(value: Seq<char>) -> Seq<char> {
    only(only(value, CharClass::Not('%')), CharClass::Not('C'))
}

/// The words of a line of the table, without the bars at its two ends.
pub open spec fn table_words(line: Seq<char>) -> Seq<Seq<char>> {
    words(trim_end_char(trim_start_char(line, '|'), '|'))
}

/// A line of the table that shows the readings of a GPU.
pub open spec fn shows_gpu(line: Seq<char>) -> bool {
    &&& line.len() > 0
    &&& line[0] == '|'
    &&& table_words(line).len() >= 13
    &&& contains(table_words(line)[0], "%"@)
}

/// The readings that a line of the table shows.
pub open spec fn table_gpu(id: nat, line: Seq<char>) -> GpuInfo<Seq<char>> {
    let tokens = table_words(line);
    GpuInfo {
        id: id as usize,
        temperature: without_unit(tokens[1]),
        fan_speed: without_unit(tokens[0]),
        power_usage: digits_number(tokens[3]) as u32,
        power_cap: digits_number(tokens[5]) as u32,
        memory_used: digits_number(tokens[7]) as u32,
        memory_total: digits_number(tokens[9]) as u32,
        gpu_util: without_unit(tokens[11]),
    }
}

/// The GPUs of some lines of the table, numbered in order.
pub open spec fn table_gpus(all: Seq<Seq<char>>) -> Seq<GpuInfo<Seq<char>>>
    decreases all.len(),
{
    if all.len() == 0 {
        seq![]
    } else {
        let before = table_gpus(all.drop_last());
        if shows_gpu(all.last()) {
            before.push(table_gpu(before.len(), all.last()))
        } else {
            before
        }
    }
}

/// The GPUs of the table are numbered from zero on.
pub proof fn law_table_numbers(all: Seq<Seq<char>>)
    requires
        all.len() <= usize::MAX,
    ensures
        table_gpus(all).len() <= all.len(),
        forall|i: int| 0 <= i < table_gpus(all).len() ==> (#[trigger] table_gpus(all)[i]).id == i,
    decreases all.len(),
{
    if all.len() > 0 {
        law_table_numbers(all.drop_last());
    }
}

/// The text of a reading of the table without its unit.
pub fn parse_float(value: &str) -> (r: String)
    ensures
        r@ == without_unit(value@),
{
    let chars = chars_of(value);
    unitless(chars.as_slice())
}

fn unitless(value: &[char]) -> (r: String)
    ensures
        r@ == without_unit(value@),
{
    let no_percent = keep(value, CharClass::Not('%'));
    let bare = keep(no_percent.as_slice(), CharClass::Not('C'));
    text_of(bare.as_slice())
}

fn read_table_gpu(id: usize, line: &[char]) -> (r: Option<GpuInfo<String>>)
    ensures
        match r {
            Some(gpu) => shows_gpu(line@) && table_gpu(id as nat, line@) == gpu_view(gpu),
            None => !shows_gpu(line@),
        },
{
    if line.len() == 0 || line[0] != '|' {
        return None;
    }
    let inner = without_trailing(without_leading(line, CharClass::Is('|')), CharClass::Is('|'));
    let tokens = split_words(inner);
    proof {
        assert(rows(tokens@) == table_words(line@));
        assert(rows(tokens@).len() == tokens@.len());
        assert forall|k: int| 0 <= k < tokens@.len() implies table_words(line@)[k]
            == #[trigger] tokens@[k]@ by {
            assert(rows(tokens@)[k] == tokens@[k]@);
        }
    }
    if tokens.len() < 13 || !mentions(tokens[0].as_slice(), "%") {
        return None;
    }
    Some(
        GpuInfo {
            id,
            temperature: unitless(tokens[1].as_slice()),
            fan_speed: unitless(tokens[0].as_slice()),
            power_usage: read_digits(tokens[3].as_slice()),
            power_cap: read_digits(tokens[5].as_slice()),
            memory_used: read_digits(tokens[7].as_slice()),
            memory_total: read_digits(tokens[9].as_slice()),
            gpu_util: unitless(tokens[11].as_slice()),
        },
    )
}

/// The GPUs of the table that nvidia-smi prints, floating-point readings as
/// texts.
pub fn parse_gpus(output: &str) -> (r: Vec<GpuInfo<String>>)
    ensures
        gpus_view(r@) == table_gpus(lines(output@)),
{
    let chars = chars_of(output);
    let all = split_lines(chars.as_slice());
    let mut r: Vec<GpuInfo<String>> = Vec::new();
    let mut i: usize = 0;
    let ghost list = lines(output@);
    proof {
        assert(rows(all@).len() == all@.len());
        assert(gpus_view(r@) =~= table_gpus(list.take(0)));
    }
    while i < all.len()
        invariant
            i <= all@.len(),
            rows(all@) == list,
            gpus_view(r@) == table_gpus(list.take(i as int)),
        decreases all@.len() - i,
    {
        let ghost before = r@;
        proof {
            assert(list[i as int] == rows(all@)[i as int]);
            assert(list.take(i + 1).drop_last() =~= list.take(i as int));
            assert(gpus_view(r@).len() == r@.len());
        }
        match read_table_gpu(r.len(), all[i].as_slice()) {
            Some(gpu) => {
                r.push(gpu);
                proof {
                    assert(gpus_view(r@) =~= gpus_view(before).push(gpu_view(gpu)));
                }
            },
            None => {},
        }
        i += 1;
    }
    proof {
        assert(list.take(list.len() as int) =~= list);
    }
    r
}

// ---- comparison -----------------------------------------------------------

/// Two GPUs have equal readings; their numbers do not count.
pub open spec fn same_readings(a: GpuInfo<Real>, b: GpuInfo<Real>) -> bool {
    &&& a.temperature.equals(b.temperature)
    &&& a.fan_speed.equals(b.fan_speed)
    &&& a.power_usage == b.power_usage
    &&& a.power_cap == b.power_cap
    &&& a.memory_used == b.memory_used
    &&& a.memory_total == b.memory_total
    &&& a.gpu_util.equals(b.gpu_util)
}

/// As many GPUs with equal readings, in order.
pub open spec fn same_gpus(a: Seq<GpuInfo<Real>>, b: Seq<GpuInfo<Real>>) -> bool {
    a.len() == b.len() && forall|i: int|
        0 <= i < a.len() ==> same_readings(#[trigger] a[i], b[i])
}

/// Whether two lists hold as many GPUs with equal readings, in order.
pub fn gpu_list_eq(a: &[GpuInfo<Real>], b: &[GpuInfo<Real>]) -> (r: bool)
    ensures
        r == same_gpus(a@, b@),
{
    if a.len() != b.len() {
        return false;
    }
    let mut i: usize = 0;
    while i < a.len()
        invariant
            i <= a@.len(),
            a@.len() == b@.len(),
            forall|k: int| 0 <= k < i ==> same_readings(#[trigger] a@[k], b@[k]),
        decreases a@.len() - i,
    {
        let (x, y) = (&a[i], &b[i]);
        let same = x.temperature.same_as(y.temperature) && x.fan_speed.same_as(y.fan_speed)
            && x.power_usage == y.power_usage && x.power_cap == y.power_cap && x.memory_used
            == y.memory_used && x.memory_total == y.memory_total && x.gpu_util.same_as(y.gpu_util);
        if !same {
            proof {
                assert(!same_readings(a@[i as int], b@[i as int]));
            }
            return false;
        }
        i += 1;
    }
    true
}

/// Every floating-point reading of a GPU is a number.
pub open spec fn all_numbers(gpu: GpuInfo<Real>) -> bool {
    !gpu.temperature.is_nan() && !gpu.fan_speed.is_nan() && !gpu.gpu_util.is_nan()
}

/// The comparison does not depend on the order of the two lists, and a list
/// equals itself where all its readings are numbers, and only there.
pub proof fn law_gpu_comparison(a: Seq<GpuInfo<Real>>, b: Seq<GpuInfo<Real>>)
    ensures
        same_gpus(a, b) == same_gpus(b, a),
        same_gpus(a, a) <==> forall|i: int| 0 <= i < a.len() ==> all_numbers(#[trigger] a[i]),
{
    if same_gpus(a, b) {
        assert forall|i: int| 0 <= i < b.len() implies same_readings(#[trigger] b[i], a[i]) by {
            assert(same_readings(a[i], b[i]));
        }
    }
    if same_gpus(b, a) {
        assert forall|i: int| 0 <= i < a.len() implies same_readings(#[trigger] a[i], b[i]) by {
            assert(same_readings(b[i], a[i]));
        }
    }
    if same_gpus(a, a) {
        assert forall|i: int| 0 <= i < a.len() implies all_numbers(#[trigger] a[i]) by {
            assert(same_readings(a[i], a[i]));
        }
    }
}

/// Lists that equal a third equal each other.
pub proof fn law_gpu_comparison_carries_over(
    a: Seq<GpuInfo<Real>>,
    b: Seq<GpuInfo<Real>>,
    c: Seq<GpuInfo<Real>>,
)
    requires
        same_gpus(a, b),
        same_gpus(b, c),
    ensures
        same_gpus(a, c),
{
    assert forall|i: int| 0 <= i < a.len() implies same_readings(#[trigger] a[i], c[i]) by {
        assert(same_readings(a[i], b[i]));
        assert(same_readings(b[i], c[i]));
    }
}

// ---- colours --------------------------------------------------------------

/// The bit pattern of 50.
pub const FIFTY: u64 = 0x4049_0000_0000_0000;

/// The bit pattern of 70.
pub const SEVENTY: u64 = 0x4051_8000_0000_0000;

/// The bit pattern of 85.
pub const EIGHTY_FIVE: u64 = 0x4055_4000_0000_0000;

/// The bit pattern of 90.
pub const NINETY: u64 = 0x4056_8000_0000_0000;

/// The colour of a temperature: critical from 85 degrees on, high from 70,
/// medium from 50, low below that and for what is no number.
pub open spec fn temp_color(temp: Real, config: Config) -> Color {
    color_of(
        if temp.at_least(Real { bits: EIGHTY_FIVE }) {
            config.temp_critical@
        } else if temp.at_least(Real { bits: SEVENTY }) {
            config.temp_high@
        } else if temp.at_least(Real { bits: FIFTY }) {
            config.temp_medium@
        } else {
            config.temp_low@
        },
    )
}

/// The colour of a utilization: high from 90 percent on, medium from 70, low
/// below that and for what is no number.
pub open spec fn util_color(util: Real, config: Config) -> Color {
    color_of(
        if util.at_least(Real { bits: NINETY }) {
            config.util_high@
        } else if util.at_least(Real { bits: SEVENTY }) {
            config.util_medium@
        } else {
            config.util_low@
        },
    )
}

/// The colour of a temperature.
pub fn get_temp_color(temp: Real, config: &Config) -> (r: Color)
    ensures
        r == temp_color(temp, *config),
{
    if temp.reaches(Real { bits: EIGHTY_FIVE }) {
        parse_color_str(config.temp_critical.as_str())
    } else if temp.reaches(Real { bits: SEVENTY }) {
        parse_color_str(config.temp_high.as_str())
    } else if temp.reaches(Real { bits: FIFTY }) {
        parse_color_str(config.temp_medium.as_str())
    } else {
        parse_color_str(config.temp_low.as_str())
    }
}

/// The colour of a utilization.
pub fn get_util_color(util: Real, config: &Config) -> (r: Color)
    ensures
        r == util_color(util, *config),
{
    if util.reaches(Real { bits: NINETY }) {
        parse_color_str(config.util_high.as_str())
    } else if util.reaches(Real { bits: SEVENTY }) {
        parse_color_str(config.util_medium.as_str())
    } else {
        parse_color_str(config.util_low.as_str())
    }
}

} // verus!
