//! What is known of each slot of the server, kept up line by line.

use vstd::prelude::*;

use crate::process::LlamaServerInfo;
use crate::reading::{if_positive, or_nought, Real};
use crate::text::{chars_of, contains, mentions, texts};
use crate::timing::{get_slot_id, slot_id, InferenceStats, LineReading};

verus! {

/// What is known of a slot. Whatever is known is above zero.
#[derive(Clone, Copy, Debug, PartialEq, Eq, Structural)]
pub struct SlotEntry {
    pub n_decoded: Option<u32>,
    pub gen_speed: Option<Real>,
    pub draft: Option<Real>,
    pub progress: Option<Real>,
    pub ctx_used: Option<u32>,
    pub prompt_tps: Option<Real>,
    pub time_seconds: Option<Real>,
    pub latency: Option<Real>,
}

/// The largest of what was known of any slot, as of the last time that
/// anything was.
#[derive(Clone, Copy, Debug, PartialEq, Eq, Structural)]
pub struct Persisted {
    pub progress: Real,
    pub gen_speed: Real,
    pub n_decoded: u32,
    pub draft_acceptance: Real,
    pub prompt_tps: Real,
    pub time_seconds: Real,
    pub latency: Real,
}

/// What is known of the server's slots.
#[derive(Debug)]
pub struct SlotTracker {
    pub slots: Vec<SlotEntry>,
    pub persisted: Persisted,
}

/// How the lines of a refresh fall to the slots.
#[derive(Debug)]
pub struct Refresh {
    pub all_idle: bool,
    /// The lines of each slot, in order.
    pub lines: Vec<Vec<String>>,
    /// The context of a slot, in tokens; zero where it is not known.
    pub max_decoded: u32,
}

// ---- invariant ------------------------------------------------------------

pub open spec fn count_above_zero(x: Option<u32>) -> bool {
    x matches Some(n) ==> n > 0
}

pub open spec fn above_zero(x: Option<Real>) -> bool {
    x matches Some(v) ==> v.positive()
}

impl SlotEntry {
    /// Whatever is known is above zero.
    pub open spec fn wf(self) -> bool {
        &&& count_above_zero(self.n_decoded)
        &&& above_zero(self.gen_speed)
        &&& above_zero(self.draft)
        &&& above_zero(self.progress)
        &&& count_above_zero(self.ctx_used)
        &&& above_zero(self.prompt_tps)
        &&& above_zero(self.time_seconds)
        &&& above_zero(self.latency)
    }
}

impl SlotTracker {
    pub open spec fn wf(self) -> bool {
        forall|i: int| 0 <= i < self.slots@.len() ==> (#[trigger] self.slots@[i]).wf()
    }
}

/// Nothing is known of a slot.
pub open spec fn spec_blank_slot() -> SlotEntry {
    SlotEntry {
        n_decoded: None,
        gen_speed: None,
        draft: None,
        progress: None,
        ctx_used: None,
        prompt_tps: None,
        time_seconds: None,
        latency: None,
    }
}

/// Nothing is known of a slot.
#[verifier::when_used_as_spec(spec_blank_slot)]
pub fn blank_slot() -> (r: SlotEntry)
    ensures
        r == spec_blank_slot(),
{
    SlotEntry {
        n_decoded: None,
        gen_speed: None,
        draft: None,
        progress: None,
        ctx_used: None,
        prompt_tps: None,
        time_seconds: None,
        latency: None,
    }
}

/// Nothing was known of any slot.
pub open spec fn spec_nothing_persisted() -> Persisted {
    Persisted {
        progress: Real::nought(),
        gen_speed: Real::nought(),
        n_decoded: 0,
        draft_acceptance: Real::nought(),
        prompt_tps: Real::nought(),
        time_seconds: Real::nought(),
        latency: Real::nought(),
    }
}

/// Nothing was known of any slot.
#[verifier::when_used_as_spec(spec_nothing_persisted)]
pub fn nothing_persisted() -> (r: Persisted)
    ensures
        r == spec_nothing_persisted(),
{
    Persisted {
        progress: Real::nought(),
        gen_speed: Real::nought(),
        n_decoded: 0,
        draft_acceptance: Real::nought(),
        prompt_tps: Real::nought(),
        time_seconds: Real::nought(),
        latency: Real::nought(),
    }
}

// ---- the lines of a refresh -----------------------------------------------

/// The server says that it has nothing to do.
pub open spec fn is_idle(lines: Seq<Seq<char>>) -> bool {
    exists|i: int| 0 <= i < lines.len() && contains(#[trigger] lines[i], "all slots are idle"@)
}

/// The lines that speak of `slot`, in order.
pub open spec fn slot_lines(lines: Seq<Seq<char>>, slot: nat) -> Seq<Seq<char>>
    decreases lines.len(),
{
    if lines.len() == 0 {
        seq![]
    } else if slot_id(lines.last()) == Some(slot) {
        slot_lines(lines.drop_last(), slot).push(lines.last())
    } else {
        slot_lines(lines.drop_last(), slot)
    }
}

/// The number of slots and the context of each: what the server says of both,
/// or four slots of unknown context where it does not say.
pub open spec fn slot_layout(server: Option<&LlamaServerInfo>) -> (nat, nat) {
    match server {
        Some(info) => if info.context_len > 0 && info.n_parallel > 0 {
            (info.n_parallel as nat, (info.context_len / info.n_parallel) as nat)
        } else {
            (4, 0)
        },
        None => (4, 0),
    }
}

/// There is always a slot to show.
pub proof fn law_some_slot_is_shown(server: Option<&LlamaServerInfo>)
    ensures
        slot_layout(server).0 > 0,
{
}

/// A line falls to one slot at most.
pub proof fn law_line_falls_to_one_slot(lines: Seq<Seq<char>>, line: Seq<char>, a: nat, b: nat)
    requires
        slot_lines(lines, a).contains(line),
        slot_lines(lines, b).contains(line),
    ensures
        a == b,
{
    lemma_slot_lines(lines, a);
    lemma_slot_lines(lines, b);
}

/// The lines of a slot are lines that speak of it.
proof fn lemma_slot_lines(lines: Seq<Seq<char>>, slot: nat)
    ensures
        forall|line: Seq<char>| #[trigger]
            slot_lines(lines, slot).contains(line) ==> lines.contains(line) && slot_id(line)
                == Some(slot),
    decreases lines.len(),
{
    if lines.len() > 0 {
        let before = lines.drop_last();
        lemma_slot_lines(before, slot);
        assert forall|line: Seq<char>| #[trigger]
            slot_lines(lines, slot).contains(line) implies lines.contains(line) && slot_id(line)
            == Some(slot) by {
            let k = choose|k: int|
                0 <= k < slot_lines(lines, slot).len() && slot_lines(lines, slot)[k] == line;
            if slot_id(lines.last()) == Some(slot) && k == slot_lines(
                before,
                slot,
            ).len() {
                assert(lines[lines.len() - 1] == line);
            } else {
                assert(slot_lines(before, slot)[k] == line);
                assert(slot_lines(before, slot).contains(line));
                let m = choose|m: int| 0 <= m < before.len() && before[m] == line;
                assert(lines[m] == line);
            }
        }
    }
}

// ---- what lines say -------------------------------------------------------

/// What two readings say, where the second goes before the first. A second
/// one that ends a task or starts one has the first one's prompt speed
/// forgotten.
pub open spec fn merged(a: LineReading, b: LineReading) -> LineReading {
    LineReading {
        stats: if b.stats is Some {
            b.stats
        } else {
            a.stats
        },
        generation: if b.generation is Some {
            b.generation
        } else {
            a.generation
        },
        latency: if b.latency is Some {
            b.latency
        } else {
            a.latency
        },
        prompt_tps: if b.prompt_tps is Some {
            b.prompt_tps
        } else if b.ends_prompt {
            None
        } else {
            a.prompt_tps
        },
        ends_prompt: a.ends_prompt || b.ends_prompt,
        ctx_used: if b.ctx_used is Some {
            b.ctx_used
        } else {
            a.ctx_used
        },
    }
}

/// A reading that says nothing.
pub open spec fn no_reading() -> LineReading {
    LineReading {
        stats: None,
        generation: None,
        latency: None,
        prompt_tps: None,
        ends_prompt: false,
        ctx_used: None,
    }
}

/// The last that some lines say of each thing.
pub open spec fn latest(readings: Seq<LineReading>) -> LineReading
    decreases readings.len(),
{
    if readings.len() == 0 {
        no_reading()
    } else {
        merged(latest(readings.drop_last()), readings.last())
    }
}

/// The new reading where it is above zero, else the old one.
pub open spec fn renewed(old_value: Option<Real>, new_value: Option<Real>) -> Option<Real> {
    if if_positive(new_value) is Some {
        new_value
    } else {
        old_value
    }
}

/// The new count where it is above zero, else the old one.
pub open spec fn recounted(old_value: Option<u32>, new_value: Option<u32>) -> Option<u32> {
    match new_value {
        Some(n) => if n > 0 {
            Some(n)
        } else {
            old_value
        },
        None => old_value,
    }
}

/// What is known of a slot after lines whose latest readings are `news`. The
/// prompt speed is forgotten where a task ended or started and no line gave a
/// new one since.
pub open spec fn slot_after(entry: SlotEntry, news: LineReading) -> SlotEntry {
    SlotEntry {
        n_decoded: recounted(
            entry.n_decoded,
            match news.generation {
                Some((n, _)) => Some(n),
                None => None,
            },
        ),
        gen_speed: renewed(
            entry.gen_speed,
            match news.generation {
                Some((_, speed)) => Some(speed),
                None => None,
            },
        ),
        draft: renewed(
            entry.draft,
            match news.stats {
                Some(stats) => Some(stats.draft_acceptance),
                None => None,
            },
        ),
        progress: renewed(
            entry.progress,
            match news.stats {
                Some(stats) => Some(stats.progress),
                None => None,
            },
        ),
        ctx_used: recounted(entry.ctx_used, news.ctx_used),
        prompt_tps: renewed(
            if news.ends_prompt {
                None
            } else {
                entry.prompt_tps
            },
            news.prompt_tps,
        ),
        time_seconds: renewed(
            entry.time_seconds,
            match news.stats {
                Some(stats) => Some(stats.time_seconds),
                None => None,
            },
        ),
        latency: renewed(entry.latency, news.latency),
    }
}

/// What is shown of a slot. Progress and time fall back on what persists;
/// anything else that is not known is zero.
pub open spec fn shown(entry: SlotEntry, persisted: Persisted, max_decoded: u32) -> InferenceStats {
    InferenceStats {
        progress: match entry.progress {
            Some(v) => v,
            None => persisted.progress,
        },
        time_seconds: match entry.time_seconds {
            Some(v) => v,
            None => persisted.time_seconds,
        },
        tokens_per_second: or_nought(entry.prompt_tps),
        n_decoded: match entry.n_decoded {
            Some(n) => n,
            None => 0,
        },
        gen_speed_tps: or_nought(entry.gen_speed),
        latency_ms_tok: or_nought(entry.latency),
        draft_acceptance: or_nought(entry.draft),
        n_decoded_max: max_decoded,
        ctx_n_tokens: max_decoded,
        ctx_used: match entry.ctx_used {
            Some(n) => n,
            None => 0,
        },
    }
}

/// The larger of two readings, where there are two.
pub open spec fn larger(a: Option<Real>, b: Option<Real>) -> Option<Real> {
    match (a, b) {
        (Some(x), Some(y)) => if y.at_least(x) {
            Some(y)
        } else {
            Some(x)
        },
        (Some(x), None) => Some(x),
        (None, y) => y,
    }
}

/// The larger of two counts, where there are two.
pub open spec fn larger_count(a: Option<u32>, b: Option<u32>) -> Option<u32> {
    match (a, b) {
        (Some(x), Some(y)) => if y >= x {
            Some(y)
        } else {
            Some(x)
        },
        (Some(x), None) => Some(x),
        (None, y) => y,
    }
}

/// The largest of each thing that is known of any slot.
pub open spec fn peak(slots: Seq<SlotEntry>) -> SlotEntry
    decreases slots.len(),
{
    if slots.len() == 0 {
        blank_slot()
    } else {
        let a = peak(slots.drop_last());
        let b = slots.last();
        SlotEntry {
            n_decoded: larger_count(a.n_decoded, b.n_decoded),
            gen_speed: larger(a.gen_speed, b.gen_speed),
            draft: larger(a.draft, b.draft),
            progress: larger(a.progress, b.progress),
            ctx_used: larger_count(a.ctx_used, b.ctx_used),
            prompt_tps: larger(a.prompt_tps, b.prompt_tps),
            time_seconds: larger(a.time_seconds, b.time_seconds),
            latency: larger(a.latency, b.latency),
        }
    }
}

pub open spec fn known_or(known: Option<Real>, otherwise: Real) -> Real {
    match known {
        Some(v) => v,
        None => otherwise,
    }
}

/// What persists: the largest that is known of any slot, or what persisted
/// before where nothing is.
pub open spec fn persists(before: Persisted, slots: Seq<SlotEntry>) -> Persisted {
    let top = peak(slots);
    Persisted {
        progress: known_or(top.progress, before.progress),
        gen_speed: known_or(top.gen_speed, before.gen_speed),
        n_decoded: match top.n_decoded {
            Some(n) => n,
            None => before.n_decoded,
        },
        draft_acceptance: known_or(top.draft, before.draft_acceptance),
        prompt_tps: known_or(top.prompt_tps, before.prompt_tps),
        time_seconds: known_or(top.time_seconds, before.time_seconds),
        latency: known_or(top.latency, before.latency),
    }
}

/// Lines that say nothing of a slot leave what is known of it as it is.
pub proof fn law_silence_changes_nothing(entry: SlotEntry)
    ensures
        slot_after(entry, latest(Seq::empty())) == entry,
{
}

/// A line that ends a task or starts one, and gives no prompt speed, has the
/// prompt speed forgotten, also one that a line before it gave, and nothing
/// else.
pub proof fn law_end_of_task_forgets_prompt(entry: SlotEntry, readings: Seq<LineReading>)
    ensures
        slot_after(
            entry,
            latest(readings.push(LineReading { ends_prompt: true, ..no_reading() })),
        ) == (SlotEntry { prompt_tps: None, ..slot_after(entry, latest(readings)) }),
{
    let end = LineReading { ends_prompt: true, ..no_reading() };
    assert(readings.push(end).drop_last() =~= readings);
}

/// After a refresh in which the server is idle, nothing is shown of a slot but
/// its context.
pub proof fn law_idle_slot_shows_nothing(max_decoded: u32)
    ensures
        shown(slot_after(blank_slot(), latest(Seq::empty())), nothing_persisted(), max_decoded)
            == (InferenceStats {
            progress: Real::nought(),
            time_seconds: Real::nought(),
            tokens_per_second: Real::nought(),
            n_decoded: 0,
            gen_speed_tps: Real::nought(),
            latency_ms_tok: Real::nought(),
            draft_acceptance: Real::nought(),
            n_decoded_max: max_decoded,
            ctx_n_tokens: max_decoded,
            ctx_used: 0,
        }),
{
}

/// `top` is the largest of some readings that are known, and one of them.
pub open spec fn is_largest(top: Option<Real>, known: Seq<Option<Real>>) -> bool {
    &&& forall|i: int|
        0 <= i < known.len() ==> (#[trigger] known[i] is Some ==> top is Some && top->0.at_least(
            known[i]->0,
        ))
    &&& top is Some ==> known.contains(top)
}

/// The larger of what came first and what comes next is the largest of all.
proof fn lemma_is_largest(top: Option<Real>, known: Seq<Option<Real>>, next: Option<Real>)
    requires
        is_largest(top, known),
        above_zero(top),
        above_zero(next),
    ensures
        is_largest(larger(top, next), known.push(next)),
        above_zero(larger(top, next)),
{
    let all = known.push(next);
    let best = larger(top, next);
    assert forall|i: int| 0 <= i < all.len() && #[trigger] all[i] is Some implies best is Some
        && best->0.at_least(all[i]->0) by {
        if i < known.len() {
            assert(all[i] == known[i]);
        }
    }
    if best is Some {
        if best == next {
            assert(all[known.len() as int] == best);
        } else {
            let i = choose|i: int| 0 <= i < known.len() && known[i] == top;
            assert(all[i] == best);
        }
    }
}

/// A floating-point reading of a slot.
#[derive(Clone, Copy, Debug, PartialEq, Eq, Structural)]
pub enum Field {
    Progress,
    GenSpeed,
    Draft,
    PromptTps,
    TimeSeconds,
    Latency,
}

impl SlotEntry {
    pub open spec fn field(self, field: Field) -> Option<Real> {
        match field {
            Field::Progress => self.progress,
            Field::GenSpeed => self.gen_speed,
            Field::Draft => self.draft,
            Field::PromptTps => self.prompt_tps,
            Field::TimeSeconds => self.time_seconds,
            Field::Latency => self.latency,
        }
    }
}

/// A reading of each slot.
pub open spec fn column(slots: Seq<SlotEntry>, field: Field) -> Seq<Option<Real>> {
    Seq::new(slots.len(), |i: int| slots[i].field(field))
}

/// What persists of a reading, where any slot's is known, is the largest that
/// is known.
pub proof fn law_largest_persists(slots: Seq<SlotEntry>, field: Field)
    requires
        forall|i: int| 0 <= i < slots.len() ==> (#[trigger] slots[i]).wf(),
    ensures
        is_largest(peak(slots).field(field), column(slots, field)),
        above_zero(peak(slots).field(field)),
    decreases slots.len(),
{
    if slots.len() > 0 {
        let before = slots.drop_last();
        assert forall|i: int| 0 <= i < before.len() implies (#[trigger] before[i]).wf() by {
            assert(before[i] == slots[i]);
        }
        law_largest_persists(before, field);
        assert(slots.last().wf());
        lemma_is_largest(peak(before).field(field), column(before, field), slots.last().field(field));
        assert(column(slots, field) =~= column(before, field).push(slots.last().field(field)));
    }
}

/// What persists of the decoded tokens, where any slot's are known, is the
/// largest count that is known.
pub proof fn law_largest_count_persists(slots: Seq<SlotEntry>)
    ensures
        forall|i: int|
            0 <= i < slots.len() && (#[trigger] slots[i]).n_decoded is Some ==> peak(
                slots,
            ).n_decoded is Some && peak(slots).n_decoded->0 >= slots[i].n_decoded->0,
        peak(slots).n_decoded is Some ==> exists|i: int|
            0 <= i < slots.len() && (#[trigger] slots[i]).n_decoded == peak(slots).n_decoded,
    decreases slots.len(),
{
    if slots.len() > 0 {
        let before = slots.drop_last();
        let top = peak(slots).n_decoded;
        law_largest_count_persists(before);
        assert forall|i: int|
            0 <= i < slots.len() && (#[trigger] slots[i]).n_decoded is Some implies top is Some
            && top->0 >= slots[i].n_decoded->0 by {
            if i < before.len() {
                assert(slots[i] == before[i]);
            }
        }
        if top is Some {
            if top == slots.last().n_decoded {
                assert(slots[slots.len() - 1].n_decoded == top);
            } else {
                let i = choose|i: int|
                    0 <= i < before.len() && (#[trigger] before[i]).n_decoded == peak(
                        before,
                    ).n_decoded;
                assert(slots[i].n_decoded == top);
            }
        }
    }
}

// ---- keeping track --------------------------------------------------------

fn renew(old_value: Option<Real>, new_value: Option<Real>) -> (r: Option<Real>)
    ensures
        r == renewed(old_value, new_value),
{
    if if_positive(new_value).is_some() {
        new_value
    } else {
        old_value
    }
}

fn recount(old_value: Option<u32>, new_value: Option<u32>) -> (r: Option<u32>)
    ensures
        r == recounted(old_value, new_value),
{
    match new_value {
        Some(n) => if n > 0 {
            Some(n)
        } else {
            old_value
        },
        None => old_value,
    }
}

fn larger_of(a: Option<Real>, b: Option<Real>) -> (r: Option<Real>)
    ensures
        r == larger(a, b),
{
    match (a, b) {
        (Some(x), Some(y)) => if y.reaches(x) {
            Some(y)
        } else {
            Some(x)
        },
        (Some(x), None) => Some(x),
        (None, y) => y,
    }
}

fn larger_count_of(a: Option<u32>, b: Option<u32>) -> (r: Option<u32>)
    ensures
        r == larger_count(a, b),
{
    match (a, b) {
        (Some(x), Some(y)) => if y >= x {
            Some(y)
        } else {
            Some(x)
        },
        (Some(x), None) => Some(x),
        (None, y) => y,
    }
}

fn known_or_else(known: Option<Real>, otherwise: Real) -> (r: Real)
    ensures
        r == known_or(known, otherwise),
{
    match known {
        Some(v) => v,
        None => otherwise,
    }
}

/// The last that some lines say of each thing.
pub fn latest_reading(readings: &[LineReading]) -> (r: LineReading)
    ensures
        r == latest(readings@),
{
    let mut r = LineReading {
        stats: None,
        generation: None,
        latency: None,
        prompt_tps: None,
        ends_prompt: false,
        ctx_used: None,
    };
    let mut i: usize = 0;
    proof {
        assert(readings@.take(0).len() == 0);
    }
    while i < readings.len()
        invariant
            i <= readings@.len(),
            r == latest(readings@.take(i as int)),
        decreases readings@.len() - i,
    {
        proof {
            assert(readings@.take(i + 1).drop_last() =~= readings@.take(i as int));
        }
        let b = readings[i];
        r = LineReading {
            stats: if b.stats.is_some() {
                b.stats
            } else {
                r.stats
            },
            generation: if b.generation.is_some() {
                b.generation
            } else {
                r.generation
            },
            latency: if b.latency.is_some() {
                b.latency
            } else {
                r.latency
            },
            prompt_tps: if b.prompt_tps.is_some() {
                b.prompt_tps
            } else if b.ends_prompt {
                None
            } else {
                r.prompt_tps
            },
            ends_prompt: r.ends_prompt || b.ends_prompt,
            ctx_used: if b.ctx_used.is_some() {
                b.ctx_used
            } else {
                r.ctx_used
            },
        };
        i += 1;
    }
    proof {
        assert(readings@.take(readings@.len() as int) =~= readings@);
    }
    r
}

impl SlotEntry {
    /// What is known of the slot after lines whose latest readings are `news`.
    pub fn after(self, news: &LineReading) -> (r: SlotEntry)
        ensures
            r == slot_after(self, *news),
            self.wf() ==> r.wf(),
    {
        let (n_decoded, speed) = match news.generation {
            Some((n, speed)) => (Some(n), Some(speed)),
            None => (None, None),
        };
        let (draft, progress, time) = match news.stats {
            Some(stats) => (
                Some(stats.draft_acceptance),
                Some(stats.progress),
                Some(stats.time_seconds),
            ),
            None => (None, None, None),
        };
        SlotEntry {
            n_decoded: recount(self.n_decoded, n_decoded),
            gen_speed: renew(self.gen_speed, speed),
            draft: renew(self.draft, draft),
            progress: renew(self.progress, progress),
            ctx_used: recount(self.ctx_used, news.ctx_used),
            prompt_tps: renew(
                if news.ends_prompt {
                    None
                } else {
                    self.prompt_tps
                },
                news.prompt_tps,
            ),
            time_seconds: renew(self.time_seconds, time),
            latency: renew(self.latency, news.latency),
        }
    }

    /// What is shown of the slot.
    pub fn stats(self, persisted: &Persisted, max_decoded: u32) -> (r: InferenceStats)
        ensures
            r == shown(self, *persisted, max_decoded),
    {
        InferenceStats {
            progress: known_or_else(self.progress, persisted.progress),
            time_seconds: known_or_else(self.time_seconds, persisted.time_seconds),
            tokens_per_second: or_nought(self.prompt_tps),
            n_decoded: match self.n_decoded {
                Some(n) => n,
                None => 0,
            },
            gen_speed_tps: or_nought(self.gen_speed),
            latency_ms_tok: or_nought(self.latency),
            draft_acceptance: or_nought(self.draft),
            n_decoded_max: max_decoded,
            ctx_n_tokens: max_decoded,
            ctx_used: match self.ctx_used {
                Some(n) => n,
                None => 0,
            },
        }
    }
}

/// The largest of each thing that is known of any slot.
fn peak_of(slots: &[SlotEntry]) -> (r: SlotEntry)
    ensures
        r == peak(slots@),
{
    let mut a = blank_slot();
    let mut i: usize = 0;
    proof {
        assert(slots@.take(0).len() == 0);
    }
    while i < slots.len()
        invariant
            i <= slots@.len(),
            a == peak(slots@.take(i as int)),
        decreases slots@.len() - i,
    {
        proof {
            assert(slots@.take(i + 1).drop_last() =~= slots@.take(i as int));
        }
        let b = slots[i];
        a = SlotEntry {
            n_decoded: larger_count_of(a.n_decoded, b.n_decoded),
            gen_speed: larger_of(a.gen_speed, b.gen_speed),
            draft: larger_of(a.draft, b.draft),
            progress: larger_of(a.progress, b.progress),
            ctx_used: larger_count_of(a.ctx_used, b.ctx_used),
            prompt_tps: larger_of(a.prompt_tps, b.prompt_tps),
            time_seconds: larger_of(a.time_seconds, b.time_seconds),
            latency: larger_of(a.latency, b.latency),
        };
        i += 1;
    }
    proof {
        assert(slots@.take(slots@.len() as int) =~= slots@);
    }
    a
}

/// The number of slots and the context of each.
pub fn layout_of(server: Option<&LlamaServerInfo>) -> (r: (u32, u32))
    ensures
        (r.0 as nat, r.1 as nat) == slot_layout(server),
{
    match server {
        Some(info) => if info.context_len > 0 && info.n_parallel > 0 {
            (info.n_parallel, info.context_len / info.n_parallel)
        } else {
            (4, 0)
        },
        None => (4, 0),
    }
}

/// Slots of which nothing is known.
fn blank_slots(n: usize) -> (r: Vec<SlotEntry>)
    ensures
        r@ == Seq::new(n as nat, |i: int| blank_slot()),
{
    let mut r: Vec<SlotEntry> = Vec::new();
    let mut i: usize = 0;
    while i < n
        invariant
            i <= n,
            r@ == Seq::new(i as nat, |k: int| blank_slot()),
        decreases n - i,
    {
        r.push(blank_slot());
        i += 1;
        proof {
            assert(r@ =~= Seq::new(i as nat, |k: int| blank_slot()));
        }
    }
    r
}

/// The lines that speak of each of `n` slots, in order.
fn group_lines(lines: &[String], n: usize) -> (r: Vec<Vec<String>>)
    ensures
        r@.len() == n,
        forall|s: int|
            0 <= s < n ==> texts((#[trigger] r@[s])@) == slot_lines(texts(lines@), s as nat),
{
    let mut groups: Vec<Vec<String>> = Vec::new();
    let ghost all = texts(lines@);
    let mut k: usize = 0;
    while k < n
        invariant
            k <= n,
            groups@.len() == k,
            forall|s: int|
                0 <= s < k ==> texts((#[trigger] groups@[s])@) == slot_lines(all.take(0), s as nat),
        decreases n - k,
    {
        let empty: Vec<String> = Vec::new();
        proof {
            assert(texts(empty@) =~= slot_lines(all.take(0), k as nat));
        }
        groups.push(empty);
        k += 1;
    }
    let mut i: usize = 0;
    while i < lines.len()
        invariant
            i <= lines@.len(),
            all == texts(lines@),
            groups@.len() == n,
            forall|s: int|
                0 <= s < n ==> texts((#[trigger] groups@[s])@) == slot_lines(
                    all.take(i as int),
                    s as nat,
                ),
        decreases lines@.len() - i,
    {
        let ghost before = groups@;
        proof {
            assert(all.take(i + 1).drop_last() =~= all.take(i as int));
            assert(all[i as int] == lines@[i as int]@);
            assert(all.take(i + 1).last() == lines@[i as int]@);
        }
        match get_slot_id(lines[i].as_str()) {
            Some(id) => {
                if id < n {
                    groups[id].push(lines[i].clone());
                    proof {
                        assert(texts(groups@[id as int]@) =~= texts(before[id as int]@).push(
                            lines@[i as int]@,
                        ));
                    }
                }
            },
            None => {},
        }
        proof {
            assert forall|s: int| 0 <= s < n implies texts((#[trigger] groups@[s])@) == slot_lines(
                all.take(i + 1),
                s as nat,
            ) by {
                assert(texts(before[s]@) == slot_lines(all.take(i as int), s as nat));
            }
        }
        i += 1;
    }
    proof {
        assert(all.take(all.len() as int) =~= all);
    }
    groups
}

/// Whether the server says that it has nothing to do.
pub fn all_slots_idle(lines: &[String]) -> (r: bool)
    ensures
        r == is_idle(texts(lines@)),
{
    let mut i: usize = 0;
    while i < lines.len()
        invariant
            i <= lines@.len(),
            forall|k: int|
                0 <= k < i ==> !contains(#[trigger] texts(lines@)[k], "all slots are idle"@),
        decreases lines@.len() - i,
    {
        let chars = chars_of(lines[i].as_str());
        if mentions(chars.as_slice(), "all slots are idle") {
            proof {
                assert(contains(texts(lines@)[i as int], "all slots are idle"@));
            }
            return true;
        }
        i += 1;
    }
    false
}

impl SlotTracker {
    /// Nothing is known yet.
    pub fn new() -> (r: SlotTracker)
        ensures
            r.wf(),
            r.slots@.len() == 0,
            r.persisted == nothing_persisted(),
    {
        SlotTracker { slots: Vec::new(), persisted: nothing_persisted() }
    }

    /// Starts a refresh with the lines that the log has gained. An idle server
    /// has nothing known of any slot, and none of the lines counts. Where the
    /// number of slots has changed, nothing is known of them, but what
    /// persists stays.
    pub fn begin(&mut self, new_lines: &[String], server: Option<&LlamaServerInfo>) -> (r: Refresh)
        requires
            old(self).wf(),
        ensures
            final(self).wf(),
            ({
                let idle = is_idle(texts(new_lines@));
                let (n, max_decoded) = slot_layout(server);
                &&& r.all_idle == idle
                &&& r.max_decoded == max_decoded
                &&& r.lines@.len() == n
                &&& forall|s: int|
                    0 <= s < n ==> texts((#[trigger] r.lines@[s])@) == if idle {
                        Seq::<Seq<char>>::empty()
                    } else {
                        slot_lines(texts(new_lines@), s as nat)
                    }
                &&& final(self).slots@ == if idle || old(self).slots@.len() != n {
                    Seq::new(n, |i: int| blank_slot())
                } else {
                    old(self).slots@
                }
                &&& final(self).persisted == if idle {
                    nothing_persisted()
                } else {
                    old(self).persisted
                }
            }),
    {
        let (n_parallel, max_decoded) = layout_of(server);
        let n: usize = n_parallel as usize;
        let all_idle = all_slots_idle(new_lines);
        let lines = if all_idle {
            self.persisted = nothing_persisted();
            no_lines(n)
        } else {
            group_lines(new_lines, n)
        };
        if all_idle || self.slots.len() != n {
            self.slots = blank_slots(n);
        }
        Refresh { all_idle, lines, max_decoded }
    }

    /// Ends a refresh with what the lines of each slot say, and returns what
    /// is shown of each slot.
    pub fn update(&mut self, readings: &Vec<Vec<LineReading>>, max_decoded: u32) -> (r: Vec<
        InferenceStats,
    >)
        requires
            old(self).wf(),
            readings@.len() == old(self).slots@.len(),
        ensures
            final(self).wf(),
            final(self).slots@ == Seq::new(
                old(self).slots@.len(),
                |i: int| slot_after(old(self).slots@[i], latest(readings@[i]@)),
            ),
            final(self).persisted == persists(old(self).persisted, final(self).slots@),
            r@ == Seq::new(
                old(self).slots@.len(),
                |i: int| shown(final(self).slots@[i], old(self).persisted, max_decoded),
            ),
    {
        let mut slots: Vec<SlotEntry> = Vec::new();
        let mut r: Vec<InferenceStats> = Vec::new();
        let mut i: usize = 0;
        let ghost before = self.slots@;
        while i < readings.len()
            invariant
                i <= readings@.len(),
                readings@.len() == self.slots@.len(),
                self.wf(),
                slots@.len() == i,
                r@.len() == i,
                forall|k: int|
                    0 <= k < i ==> #[trigger] slots@[k] == slot_after(
                        self.slots@[k],
                        latest(readings@[k]@),
                    ) && slots@[k].wf(),
                forall|k: int|
                    0 <= k < i ==> #[trigger] r@[k] == shown(
                        slots@[k],
                        self.persisted,
                        max_decoded,
                    ),
            decreases readings@.len() - i,
        {
            let news = latest_reading(readings[i].as_slice());
            let entry = self.slots[i].after(&news);
            r.push(entry.stats(&self.persisted, max_decoded));
            slots.push(entry);
            i += 1;
        }
        let top = peak_of(slots.as_slice());
        let p = self.persisted;
        self.persisted = Persisted {
            progress: known_or_else(top.progress, p.progress),
            gen_speed: known_or_else(top.gen_speed, p.gen_speed),
            n_decoded: match top.n_decoded {
                Some(n) => n,
                None => p.n_decoded,
            },
            draft_acceptance: known_or_else(top.draft, p.draft_acceptance),
            prompt_tps: known_or_else(top.prompt_tps, p.prompt_tps),
            time_seconds: known_or_else(top.time_seconds, p.time_seconds),
            latency: known_or_else(top.latency, p.latency),
        };
        self.slots = slots;
        r
    }

    /// What is shown where there is no slot: what persists.
    pub fn persisted_stats(&self, max_decoded: u32) -> (r: InferenceStats)
        ensures
            r == (InferenceStats {
                progress: self.persisted.progress,
                time_seconds: self.persisted.time_seconds,
                tokens_per_second: self.persisted.prompt_tps,
                n_decoded: self.persisted.n_decoded,
                gen_speed_tps: self.persisted.gen_speed,
                latency_ms_tok: self.persisted.latency,
                draft_acceptance: self.persisted.draft_acceptance,
                n_decoded_max: max_decoded,
                ctx_n_tokens: max_decoded,
                ctx_used: 0,
            }),
    {
        InferenceStats {
            progress: self.persisted.progress,
            time_seconds: self.persisted.time_seconds,
            tokens_per_second: self.persisted.prompt_tps,
            n_decoded: self.persisted.n_decoded,
            gen_speed_tps: self.persisted.gen_speed,
            latency_ms_tok: self.persisted.latency,
            draft_acceptance: self.persisted.draft_acceptance,
            n_decoded_max: max_decoded,
            ctx_n_tokens: max_decoded,
            ctx_used: 0,
        }
    }
}

/// No lines for any of `n` slots.
fn no_lines(n: usize) -> (r: Vec<Vec<String>>)
    ensures
        r@.len() == n,
        forall|s: int| 0 <= s < n ==> texts((#[trigger] r@[s])@) == Seq::<Seq<char>>::empty(),
{
    let mut r: Vec<Vec<String>> = Vec::new();
    let mut i: usize = 0;
    while i < n
        invariant
            i <= n,
            r@.len() == i,
            forall|s: int| 0 <= s < i ==> texts((#[trigger] r@[s])@) == Seq::<Seq<char>>::empty(),
        decreases n - i,
    {
        let empty: Vec<String> = Vec::new();
        proof {
            assert(texts(empty@) =~= Seq::empty());
        }
        r.push(empty);
        i += 1;
    }
    r
}

} // verus!
