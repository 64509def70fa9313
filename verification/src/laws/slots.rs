//! How what is known of the slots goes from refresh to refresh.

use vstd::prelude::*;

use crate::process::LlamaServerInfo;
use crate::reading::Real;
use crate::slots::{
    all_slots_idle, column, latest, latest_reading, law_largest_count_persists,
    law_largest_persists, layout_of, peak, slot_lines, Field, Persisted, Refresh, SlotEntry,
    SlotTracker,
};
use crate::text::{contains, texts};
use crate::timing::{slot_id, InferenceStats, LineReading};

verus! {

// ---- one slot -------------------------------------------------------------

/// A reading after news of it: the news where it is above zero, else what was
/// known.
pub open spec fn replaced_by(after: Option<Real>, before: Option<Real>, news: Option<Real>) -> bool {
    &&& news is Some && news->0.positive() ==> after == news
    &&& !(news is Some && news->0.positive()) ==> after == before
}

/// News above zero replaces whatever was known of a slot, each in its place;
/// other news leaves it as it was. The prompt speed is forgotten where a task
/// ended or started and the news holds none.
pub proof fn law_news_replaces_what_was_known(entry: SlotEntry, news: &LineReading, r: SlotEntry)
    requires
        call_ensures(SlotEntry::after, (entry, news), r),
    ensures
        news.generation matches Some((n, speed)) ==> {
            &&& n > 0 ==> r.n_decoded == Some(n)
            &&& n == 0 ==> r.n_decoded == entry.n_decoded
            &&& replaced_by(r.gen_speed, entry.gen_speed, Some(speed))
        },
        news.generation is None ==> r.n_decoded == entry.n_decoded && r.gen_speed
            == entry.gen_speed,
        news.stats matches Some(stats) ==> {
            &&& replaced_by(r.draft, entry.draft, Some(stats.draft_acceptance))
            &&& replaced_by(r.progress, entry.progress, Some(stats.progress))
            &&& replaced_by(r.time_seconds, entry.time_seconds, Some(stats.time_seconds))
        },
        news.stats is None ==> r.draft == entry.draft && r.progress == entry.progress
            && r.time_seconds == entry.time_seconds,
        news.ctx_used matches Some(n) ==> {
            &&& n > 0 ==> r.ctx_used == Some(n)
            &&& n == 0 ==> r.ctx_used == entry.ctx_used
        },
        news.ctx_used is None ==> r.ctx_used == entry.ctx_used,
        replaced_by(r.latency, entry.latency, news.latency),
        news.ends_prompt ==> replaced_by(r.prompt_tps, None, news.prompt_tps),
        !news.ends_prompt ==> replaced_by(r.prompt_tps, entry.prompt_tps, news.prompt_tps),
{
}

/// A slot shows what is known of it, each reading in its place. Progress and
/// time that are not known are those that persist; other readings that are not
/// known are zero. Both bounds are the context of a slot.
pub proof fn law_slot_shows_what_is_known(
    entry: SlotEntry,
    persisted: &Persisted,
    context: u32,
    r: InferenceStats,
)
    requires
        call_ensures(SlotEntry::stats, (entry, persisted, context), r),
    ensures
        entry.progress matches Some(v) ==> r.progress == v,
        entry.progress is None ==> r.progress == persisted.progress,
        entry.time_seconds matches Some(v) ==> r.time_seconds == v,
        entry.time_seconds is None ==> r.time_seconds == persisted.time_seconds,
        entry.prompt_tps matches Some(v) ==> r.tokens_per_second == v,
        entry.prompt_tps is None ==> r.tokens_per_second.bits == 0,
        entry.gen_speed matches Some(v) ==> r.gen_speed_tps == v,
        entry.gen_speed is None ==> r.gen_speed_tps.bits == 0,
        entry.latency matches Some(v) ==> r.latency_ms_tok == v,
        entry.latency is None ==> r.latency_ms_tok.bits == 0,
        entry.draft matches Some(v) ==> r.draft_acceptance == v,
        entry.draft is None ==> r.draft_acceptance.bits == 0,
        entry.n_decoded matches Some(n) ==> r.n_decoded == n,
        entry.n_decoded is None ==> r.n_decoded == 0,
        entry.ctx_used matches Some(n) ==> r.ctx_used == n,
        entry.ctx_used is None ==> r.ctx_used == 0,
        r.n_decoded_max == context,
        r.ctx_n_tokens == context,
{
}

// ---- the last of some readings --------------------------------------------

/// Whatever is said last of a thing is what counts of it: the last statistics,
/// generation, latency and context, and the last prompt speed, unless a task
/// ended or started after it.
pub proof fn law_last_reading_counts(readings: &[LineReading], i: int, r: LineReading)
    requires
        0 <= i < readings@.len(),
        call_ensures(latest_reading, (readings,), r),
    ensures
        readings@[i].stats is Some && (forall|j: int|
            i < j < readings@.len() ==> (#[trigger] readings@[j]).stats is None) ==> r.stats
            == readings@[i].stats,
        readings@[i].generation is Some && (forall|j: int|
            i < j < readings@.len() ==> (#[trigger] readings@[j]).generation is None)
            ==> r.generation == readings@[i].generation,
        readings@[i].latency is Some && (forall|j: int|
            i < j < readings@.len() ==> (#[trigger] readings@[j]).latency is None) ==> r.latency
            == readings@[i].latency,
        readings@[i].ctx_used is Some && (forall|j: int|
            i < j < readings@.len() ==> (#[trigger] readings@[j]).ctx_used is None) ==> r.ctx_used
            == readings@[i].ctx_used,
        readings@[i].prompt_tps is Some && (forall|j: int|
            i < j < readings@.len() ==> (#[trigger] readings@[j]).prompt_tps is None
                && !readings@[j].ends_prompt) ==> r.prompt_tps == readings@[i].prompt_tps,
        readings@[i].ends_prompt && readings@[i].prompt_tps is None && (forall|j: int|
            i < j < readings@.len() ==> (#[trigger] readings@[j]).prompt_tps is None)
            ==> r.prompt_tps is None,
        readings@[i].ends_prompt ==> r.ends_prompt,
{
    lemma_latest(readings@, i);
}

proof fn lemma_latest(all: Seq<LineReading>, i: int)
    requires
        0 <= i < all.len(),
    ensures
        all[i].stats is Some && (forall|j: int|
            i < j < all.len() ==> (#[trigger] all[j]).stats is None) ==> latest(all).stats
            == all[i].stats,
        all[i].generation is Some && (forall|j: int|
            i < j < all.len() ==> (#[trigger] all[j]).generation is None) ==> latest(
            all,
        ).generation == all[i].generation,
        all[i].latency is Some && (forall|j: int|
            i < j < all.len() ==> (#[trigger] all[j]).latency is None) ==> latest(all).latency
            == all[i].latency,
        all[i].ctx_used is Some && (forall|j: int|
            i < j < all.len() ==> (#[trigger] all[j]).ctx_used is None) ==> latest(all).ctx_used
            == all[i].ctx_used,
        all[i].prompt_tps is Some && (forall|j: int|
            i < j < all.len() ==> (#[trigger] all[j]).prompt_tps is None && !all[j].ends_prompt)
            ==> latest(all).prompt_tps == all[i].prompt_tps,
        all[i].ends_prompt && all[i].prompt_tps is None && (forall|j: int|
            i < j < all.len() ==> (#[trigger] all[j]).prompt_tps is None) ==> latest(
            all,
        ).prompt_tps is None,
        all[i].ends_prompt ==> latest(all).ends_prompt,
    decreases all.len(),
{
    let before = all.drop_last();
    assert(all.last() == all[all.len() - 1]);
    if i < before.len() {
        lemma_latest(before, i);
        assert(before[i] == all[i]);
        assert forall|j: int| i < j < before.len() implies before[j] == #[trigger] all[j] by {}
        assert forall|j: int| i < j < before.len() implies #[trigger] before[j] == all[j] by {}
    }
}

/// What no reading says, their last does not say either.
pub proof fn law_nothing_said_nothing_counts(readings: &[LineReading], r: LineReading)
    requires
        call_ensures(latest_reading, (readings,), r),
    ensures
        (forall|j: int| 0 <= j < readings@.len() ==> (#[trigger] readings@[j]).stats is None)
            ==> r.stats is None,
        (forall|j: int| 0 <= j < readings@.len() ==> (#[trigger] readings@[j]).generation is None)
            ==> r.generation is None,
        (forall|j: int| 0 <= j < readings@.len() ==> (#[trigger] readings@[j]).latency is None)
            ==> r.latency is None,
        (forall|j: int| 0 <= j < readings@.len() ==> (#[trigger] readings@[j]).prompt_tps is None)
            ==> r.prompt_tps is None,
        (forall|j: int| 0 <= j < readings@.len() ==> (#[trigger] readings@[j]).ctx_used is None)
            ==> r.ctx_used is None,
        (forall|j: int| 0 <= j < readings@.len() ==> !(#[trigger] readings@[j]).ends_prompt)
            ==> !r.ends_prompt,
{
    lemma_nothing_said(readings@);
}

proof fn lemma_nothing_said(all: Seq<LineReading>)
    ensures
        (forall|j: int| 0 <= j < all.len() ==> (#[trigger] all[j]).stats is None) ==> latest(
            all,
        ).stats is None,
        (forall|j: int| 0 <= j < all.len() ==> (#[trigger] all[j]).generation is None) ==> latest(
            all,
        ).generation is None,
        (forall|j: int| 0 <= j < all.len() ==> (#[trigger] all[j]).latency is None) ==> latest(
            all,
        ).latency is None,
        (forall|j: int| 0 <= j < all.len() ==> (#[trigger] all[j]).prompt_tps is None) ==> latest(
            all,
        ).prompt_tps is None,
        (forall|j: int| 0 <= j < all.len() ==> (#[trigger] all[j]).ctx_used is None) ==> latest(
            all,
        ).ctx_used is None,
        (forall|j: int| 0 <= j < all.len() ==> !(#[trigger] all[j]).ends_prompt) ==> !latest(
            all,
        ).ends_prompt,
    decreases all.len(),
{
    if all.len() > 0 {
        let before = all.drop_last();
        lemma_nothing_said(before);
        assert(all.last() == all[all.len() - 1]);
        assert forall|j: int| 0 <= j < before.len() implies #[trigger] before[j] == all[j] by {}
    }
}

// ---- all slots ------------------------------------------------------------

/// A tracker starts with nothing: no slot, and zero for all that persists.
pub proof fn law_tracker_starts_empty(r: SlotTracker)
    requires
        call_ensures(SlotTracker::new, (), r),
    ensures
        r.slots@.len() == 0,
        r.persisted.progress.bits == 0,
        r.persisted.gen_speed.bits == 0,
        r.persisted.n_decoded == 0,
        r.persisted.draft_acceptance.bits == 0,
        r.persisted.prompt_tps.bits == 0,
        r.persisted.time_seconds.bits == 0,
        r.persisted.latency.bits == 0,
{
}

/// An update takes each slot on by the last of its own readings, and shows it
/// by what persisted before the update.
pub proof fn law_update_goes_slot_by_slot(
    tracker: &mut SlotTracker,
    readings: &Vec<Vec<LineReading>>,
    context: u32,
    r: Vec<InferenceStats>,
    own: &[LineReading],
    i: int,
    news: LineReading,
    entry: SlotEntry,
    persisted: &Persisted,
    shown: InferenceStats,
)
    requires
        0 <= i < old(tracker).slots@.len(),
        readings@.len() == old(tracker).slots@.len(),
        call_ensures(SlotTracker::update, (tracker, readings, context), r),
        own@ == readings@[i]@,
        *persisted == old(tracker).persisted,
        call_ensures(latest_reading, (own,), news),
        call_ensures(SlotEntry::after, (old(tracker).slots@[i], &news), entry),
        call_ensures(SlotEntry::stats, (entry, persisted, context), shown),
    ensures
        final(tracker).slots@.len() == old(tracker).slots@.len(),
        r@.len() == old(tracker).slots@.len(),
        final(tracker).slots@[i] == entry,
        r@[i] == shown,
{
}

/// What persists of a reading after an update: the largest that is known of
/// any slot, or what persisted before where it is known of none.
pub open spec fn persists_from(
    after: Real,
    before: Real,
    known: Seq<Option<Real>>,
) -> bool {
    &&& (exists|i: int| 0 <= i < known.len() && #[trigger] known[i] is Some) ==> (forall|i: int|
        0 <= i < known.len() && #[trigger] known[i] is Some ==> after.at_least(known[i]->0)) && (
    exists|i: int| 0 <= i < known.len() && #[trigger] known[i] == Some(after))
    &&& (forall|i: int| 0 <= i < known.len() ==> #[trigger] known[i] is None) ==> after == before
}

proof fn lemma_persists_from(slots: Seq<SlotEntry>, field: Field, before: Real, after: Real)
    requires
        forall|i: int| 0 <= i < slots.len() ==> (#[trigger] slots[i]).wf(),
        after == match peak(slots).field(field) {
            Some(v) => v,
            None => before,
        },
    ensures
        persists_from(after, before, column(slots, field)),
{
    let known = column(slots, field);
    law_largest_persists(slots, field);
    let top = peak(slots).field(field);
    if exists|i: int| 0 <= i < known.len() && #[trigger] known[i] is Some {
        assert(top is Some);
        let k = choose|k: int| 0 <= k < known.len() && known[k] == top;
        assert(known[k] == Some(after));
    } else if top is Some {
        let k = choose|k: int| 0 <= k < known.len() && known[k] == top;
        assert(known[k] is Some);
    }
}

/// After an update the largest of what is known of the slots persists, each
/// reading in its place; what is known of no slot persists as it did.
pub proof fn law_update_keeps_the_largest(
    tracker: &mut SlotTracker,
    readings: &Vec<Vec<LineReading>>,
    context: u32,
    r: Vec<InferenceStats>,
)
    requires
        readings@.len() == old(tracker).slots@.len(),
        call_ensures(SlotTracker::update, (tracker, readings, context), r),
    ensures
        ({
            let slots = final(tracker).slots@;
            let before = old(tracker).persisted;
            let after = final(tracker).persisted;
            &&& persists_from(
                after.progress,
                before.progress,
                Seq::new(slots.len(), |i: int| slots[i].progress),
            )
            &&& persists_from(
                after.gen_speed,
                before.gen_speed,
                Seq::new(slots.len(), |i: int| slots[i].gen_speed),
            )
            &&& persists_from(
                after.draft_acceptance,
                before.draft_acceptance,
                Seq::new(slots.len(), |i: int| slots[i].draft),
            )
            &&& persists_from(
                after.prompt_tps,
                before.prompt_tps,
                Seq::new(slots.len(), |i: int| slots[i].prompt_tps),
            )
            &&& persists_from(
                after.time_seconds,
                before.time_seconds,
                Seq::new(slots.len(), |i: int| slots[i].time_seconds),
            )
            &&& persists_from(
                after.latency,
                before.latency,
                Seq::new(slots.len(), |i: int| slots[i].latency),
            )
            &&& forall|i: int|
                0 <= i < slots.len() && (#[trigger] slots[i]).n_decoded is Some
                    ==> after.n_decoded >= slots[i].n_decoded->0
            &&& (exists|i: int| 0 <= i < slots.len() && (#[trigger] slots[i]).n_decoded is Some)
                ==> exists|i: int|
                0 <= i < slots.len() && (#[trigger] slots[i]).n_decoded == Some(after.n_decoded)
            &&& (forall|i: int| 0 <= i < slots.len() ==> (#[trigger] slots[i]).n_decoded is None)
                ==> after.n_decoded == before.n_decoded
        }),
{
    let slots = final(tracker).slots@;
    let before = old(tracker).persisted;
    let after = final(tracker).persisted;
    lemma_persists_from(slots, Field::Progress, before.progress, after.progress);
    assert(column(slots, Field::Progress) =~= Seq::new(slots.len(), |i: int| slots[i].progress));
    lemma_persists_from(slots, Field::GenSpeed, before.gen_speed, after.gen_speed);
    assert(column(slots, Field::GenSpeed) =~= Seq::new(slots.len(), |i: int| slots[i].gen_speed));
    lemma_persists_from(slots, Field::Draft, before.draft_acceptance, after.draft_acceptance);
    assert(column(slots, Field::Draft) =~= Seq::new(slots.len(), |i: int| slots[i].draft));
    lemma_persists_from(slots, Field::PromptTps, before.prompt_tps, after.prompt_tps);
    assert(column(slots, Field::PromptTps) =~= Seq::new(slots.len(), |i: int| slots[i].prompt_tps));
    lemma_persists_from(slots, Field::TimeSeconds, before.time_seconds, after.time_seconds);
    assert(column(slots, Field::TimeSeconds) =~= Seq::new(
        slots.len(),
        |i: int| slots[i].time_seconds,
    ));
    lemma_persists_from(slots, Field::Latency, before.latency, after.latency);
    assert(column(slots, Field::Latency) =~= Seq::new(slots.len(), |i: int| slots[i].latency));
    law_largest_count_persists(slots);
}

/// What is shown without slots is what persists, each reading in its place.
pub proof fn law_persisted_is_shown(tracker: &SlotTracker, context: u32, r: InferenceStats)
    requires
        call_ensures(SlotTracker::persisted_stats, (tracker, context), r),
    ensures
        r.progress == tracker.persisted.progress,
        r.time_seconds == tracker.persisted.time_seconds,
        r.tokens_per_second == tracker.persisted.prompt_tps,
        r.n_decoded == tracker.persisted.n_decoded,
        r.gen_speed_tps == tracker.persisted.gen_speed,
        r.latency_ms_tok == tracker.persisted.latency,
        r.draft_acceptance == tracker.persisted.draft_acceptance,
        r.n_decoded_max == context,
        r.ctx_n_tokens == context,
        r.ctx_used == 0,
{
}

// ---- the start of a refresh -----------------------------------------------

/// There are as many slots as the server says, and each has an equal part of
/// its context; where the server does not say both, there are four, of
/// unknown context.
pub proof fn law_server_gives_the_layout(server: Option<&LlamaServerInfo>, r: (u32, u32))
    requires
        call_ensures(layout_of, (server,), r),
    ensures
        server matches Some(info) ==> (info.context_len > 0 && info.n_parallel > 0 ==> {
            &&& r.0 == info.n_parallel
            &&& r.1 * r.0 <= info.context_len < (r.1 + 1) * r.0
        }),
        server matches Some(info) ==> (info.context_len == 0 || info.n_parallel == 0 ==> r == (
            4u32,
            0u32,
        )),
        server is None ==> r == (4u32, 0u32),
{
    if let Some(info) = server {
        if info.context_len > 0 && info.n_parallel > 0 {
            let (a, b) = (info.context_len as int, info.n_parallel as int);
            assert((a / b) * b <= a < (a / b + 1) * b) by (nonlinear_arith)
                requires
                    a > 0,
                    b > 0,
            ;
        }
    }
}

/// The server is idle where one of the new lines says so, and only there.
pub proof fn law_idle_is_said(lines: &[String], r: bool)
    requires
        call_ensures(all_slots_idle, (lines,), r),
    ensures
        r <==> exists|i: int|
            0 <= i < lines@.len() && contains(#[trigger] lines@[i]@, "all slots are idle"@),
{
    if r {
        let i = choose|i: int|
            0 <= i < texts(lines@).len() && contains(
                #[trigger] texts(lines@)[i],
                "all slots are idle"@,
            );
        assert(contains(lines@[i]@, "all slots are idle"@));
    }
    if exists|i: int|
        0 <= i < lines@.len() && contains(#[trigger] lines@[i]@, "all slots are idle"@) {
        let i = choose|i: int|
            0 <= i < lines@.len() && contains(#[trigger] lines@[i]@, "all slots are idle"@);
        assert(texts(lines@)[i] == lines@[i]@);
    }
}

/// The places of the lines that speak of `slot`, in order.
pub open spec fn places(lines: Seq<Seq<char>>, slot: nat) -> Seq<int>
    decreases lines.len(),
{
    if lines.len() == 0 {
        seq![]
    } else if slot_id(lines.last()) == Some(slot) {
        places(lines.drop_last(), slot).push(lines.len() - 1)
    } else {
        places(lines.drop_last(), slot)
    }
}

proof fn lemma_places(lines: Seq<Seq<char>>, slot: nat)
    ensures
        places(lines, slot).len() == slot_lines(lines, slot).len(),
        forall|k: int|
            0 <= k < places(lines, slot).len() ==> 0 <= (#[trigger] places(lines, slot)[k])
                < lines.len() && slot_id(lines[places(lines, slot)[k]]) == Some(slot)
                && slot_lines(lines, slot)[k] == lines[places(lines, slot)[k]],
        forall|j: int, k: int|
            0 <= j < k < places(lines, slot).len() ==> (#[trigger] places(lines, slot)[j]) < (
            #[trigger] places(lines, slot)[k]),
        forall|i: int|
            0 <= i < lines.len() && slot_id(#[trigger] lines[i]) == Some(slot) ==> places(
                lines,
                slot,
            ).contains(i),
    decreases lines.len(),
{
    if lines.len() > 0 {
        let before = lines.drop_last();
        lemma_places(before, slot);
        let p = places(lines, slot);
        let q = places(before, slot);
        assert forall|k: int| 0 <= k < p.len() implies 0 <= (#[trigger] p[k]) < lines.len()
            && slot_id(lines[p[k]]) == Some(slot) && slot_lines(lines, slot)[k] == lines[p[k]] by {
            if k < q.len() {
                assert(p[k] == q[k]);
                assert(before[q[k]] == lines[q[k]]);
            }
        }
        assert forall|j: int, k: int| 0 <= j < k < p.len() implies (#[trigger] p[j]) < (
        #[trigger] p[k]) by {
            assert(p[j] == q[j]);
            if k < q.len() {
                assert(p[k] == q[k]);
            }
        }
        assert forall|i: int|
            0 <= i < lines.len() && slot_id(#[trigger] lines[i]) == Some(slot) implies p.contains(
            i,
        ) by {
            if i < before.len() {
                assert(before[i] == lines[i]);
                assert(q.contains(i));
                let k = choose|k: int| 0 <= k < q.len() && q[k] == i;
                assert(p[k] == i);
            } else {
                assert(p[q.len() as int] == i);
            }
        }
    }
}

/// A refresh of a server that is not idle gives each slot the new lines that
/// speak of it: all of them, no others, in order.
pub proof fn law_refresh_gives_each_slot_its_lines(
    tracker: &mut SlotTracker,
    new_lines: &[String],
    server: Option<&LlamaServerInfo>,
    r: Refresh,
    slot: int,
) -> (at: Seq<int>)
    requires
        call_ensures(SlotTracker::begin, (tracker, new_lines, server), r),
        0 <= slot < r.lines@.len(),
        forall|i: int|
            0 <= i < new_lines@.len() ==> !contains(
                #[trigger] new_lines@[i]@,
                "all slots are idle"@,
            ),
    ensures
        at.len() == r.lines@[slot]@.len(),
        forall|k: int|
            0 <= k < at.len() ==> 0 <= #[trigger] at[k] < new_lines@.len() && r.lines@[slot]@[k]@
                == new_lines@[at[k]]@ && slot_id(new_lines@[at[k]]@) == Some(slot as nat),
        forall|j: int, k: int| 0 <= j < k < at.len() ==> #[trigger] at[j] < #[trigger] at[k],
        forall|i: int|
            0 <= i < new_lines@.len() && slot_id(#[trigger] new_lines@[i]@) == Some(slot as nat)
                ==> at.contains(i),
{
    let all = texts(new_lines@);
    let own = r.lines@[slot]@;
    assert forall|i: int| 0 <= i < all.len() implies !contains(
        #[trigger] all[i],
        "all slots are idle"@,
    ) by {
        assert(all[i] == new_lines@[i]@);
    }
    assert(texts(own) == slot_lines(all, slot as nat));
    lemma_places(all, slot as nat);
    let at = places(all, slot as nat);
    assert(texts(own).len() == own.len());
    assert forall|k: int| 0 <= k < at.len() implies 0 <= #[trigger] at[k] < new_lines@.len()
        && own[k]@ == new_lines@[at[k]]@ && slot_id(new_lines@[at[k]]@) == Some(slot as nat) by {
        assert(texts(own)[k] == own[k]@);
        assert(all[at[k]] == new_lines@[at[k]]@);
    }
    assert forall|i: int|
        0 <= i < new_lines@.len() && slot_id(#[trigger] new_lines@[i]@) == Some(
            slot as nat,
        ) implies at.contains(i) by {
        assert(all[i] == new_lines@[i]@);
    }
    at
}

/// A refresh of an idle server has everything forgotten, and gives no slot a
/// line. A refresh with another number of slots forgets the slots alone. Any
/// other refresh leaves what is known as it is.
pub proof fn law_refresh_forgets(
    tracker: &mut SlotTracker,
    new_lines: &[String],
    server: Option<&LlamaServerInfo>,
    idle: bool,
    layout: (u32, u32),
    r: Refresh,
)
    requires
        call_ensures(SlotTracker::begin, (tracker, new_lines, server), r),
        call_ensures(all_slots_idle, (new_lines,), idle),
        call_ensures(layout_of, (server,), layout),
    ensures
        r.all_idle == idle,
        r.max_decoded == layout.1,
        r.lines@.len() == layout.0,
        final(tracker).slots@.len() == layout.0,
        idle ==> forall|s: int| 0 <= s < r.lines@.len() ==> (#[trigger] r.lines@[s])@.len() == 0,
        idle || old(tracker).slots@.len() != layout.0 ==> forall|s: int|
            0 <= s < final(tracker).slots@.len() ==> {
                let entry = #[trigger] final(tracker).slots@[s];
                entry.n_decoded is None && entry.gen_speed is None && entry.draft is None
                    && entry.progress is None && entry.ctx_used is None && entry.prompt_tps is None
                    && entry.time_seconds is None && entry.latency is None
            },
        !idle && old(tracker).slots@.len() == layout.0 ==> final(tracker).slots@ == old(
            tracker,
        ).slots@,
        !idle ==> final(tracker).persisted == old(tracker).persisted,
        idle ==> final(tracker).persisted.progress.bits == 0,
        idle ==> final(tracker).persisted.gen_speed.bits == 0,
        idle ==> final(tracker).persisted.n_decoded == 0,
        idle ==> final(tracker).persisted.draft_acceptance.bits == 0,
        idle ==> final(tracker).persisted.prompt_tps.bits == 0,
        idle ==> final(tracker).persisted.time_seconds.bits == 0,
        idle ==> final(tracker).persisted.latency.bits == 0,
{
    if idle {
        assert forall|s: int| 0 <= s < r.lines@.len() implies (#[trigger] r.lines@[s])@.len()
            == 0 by {
            assert(texts(r.lines@[s]@).len() == r.lines@[s]@.len());
        }
    }
}

} // verus!
