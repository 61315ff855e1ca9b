//! What the operations do to numbers, bits and bytes, in plain arithmetic.
//!
//! The laws here use no description of an operation to describe it: they say of every result how it
//! relates to what went in.
use crate::bits;
use crate::bucket;
use crate::bucket::{InsertValues, LookupValues};
use crate::config::{CuckooConfiguration, LruAgingStrategy};
use crate::slot;
use crate::slot::SlotView;
use vstd::prelude::*;

verus! {

/// Raising adds, and stops at the largest value.
pub proof fn law_raising_adds(value: u32, by: u32, max: u32)
    ensures
        value + by <= max ==> slot::raised(value, by, max) == value + by,
        value + by > max ==> slot::raised(value, by, max) == max,
{
}

/// Lowering subtracts, and stops at 0.
pub proof fn law_lowering_subtracts(value: u32, by: u32)
    ensures
        by <= value ==> slot::lowered(value, by) + by == value,
        by > value ==> slot::lowered(value, by) == 0,
{
}

/// Changing adds a difference, and stays between 0 and the largest value.
pub proof fn law_changing_adds(value: u32, diff: i32, max: u32)
    ensures
        0 <= value + diff <= max ==> slot::changed(value, diff, max) == value + diff,
        value + diff < 0 ==> slot::changed(value, diff, max) == 0,
        value + diff > max && value + diff >= 0 ==> slot::changed(value, diff, max) == max,
{
}

/// Halving leaves half of a counter, rounded down. Decrementing takes off the decrement, and stops
/// at 0.
pub proof fn law_aging(strategy: LruAgingStrategy, counter: u32)
    ensures
        strategy is Halving ==> 2 * strategy.aged(counter) <= counter < 2 * strategy.aged(counter)
            + 2,
        strategy matches LruAgingStrategy::Decrement(by) ==> {
            &&& by <= counter ==> strategy.aged(counter) + by == counter
            &&& by > counter ==> strategy.aged(counter) == 0
        },
{
}

/// What a lookup does to the numbers of the item that it finds: the LRU counter grows by the
/// increment up to its largest value, the TTL is set if one is given, the generic counter changes by
/// the given difference or by that of the configuration. Nothing else changes. What is shown of the
/// item has the LRU counter from before.
pub proof fn law_lookup_counts(
    cfg: CuckooConfiguration,
    stored: SlotView,
    update: LookupValues,
)
    ensures
        ({
            let after = cfg.looked_up(stored, update);
            let shown = cfg.accessed(stored, update);
            &&& after.fingerprint == stored.fingerprint
            &&& after.rest == stored.rest
            &&& match cfg.lru_field() {
                Some((lru, field)) => if stored.lru + lru.increment <= field.max() {
                    after.lru == stored.lru + lru.increment
                } else {
                    after.lru == field.max()
                },
                None => after.lru == stored.lru,
            }
            &&& match (cfg.ttl_field(), update.ttl) {
                (Some((_, field)), Some(ttl)) => after.ttl == ttl & field.max(),
                _ => after.ttl == stored.ttl,
            }
            &&& match cfg.counter_field() {
                Some((counter, field)) => {
                    let sum = stored.counter + (match update.counter_diff {
                        Some(diff) => diff,
                        None => counter.change_on_lookup,
                    });
                    &&& 0 <= sum <= field.max() ==> after.counter == sum
                    &&& sum < 0 ==> after.counter == 0
                    &&& sum > field.max() ==> after.counter == field.max()
                },
                None => after.counter == stored.counter,
            }
            &&& shown.fingerprint == after.fingerprint
            &&& shown.rest == after.rest
            &&& shown.lru == stored.lru
            &&& shown.ttl == after.ttl
            &&& shown.counter == after.counter
        }),
{
}

/// What inserting an item again does to the numbers of the stored one: the TTL is that of the
/// inserted item, whatever it was before, the LRU counter grows by the increment up to its largest
/// value, the generic counter changes by what the configuration says for insertions. Nothing else
/// changes.
pub proof fn law_reinsertion_restarts_the_ttl(
    cfg: CuckooConfiguration,
    stored: SlotView,
    inserted: SlotView,
)
    ensures
        ({
            let after = cfg.merged(stored, inserted);
            &&& after.fingerprint == stored.fingerprint
            &&& after.rest == stored.rest
            &&& match cfg.ttl_field() {
                Some((_, field)) => after.ttl == inserted.ttl & field.max(),
                None => after.ttl == stored.ttl,
            }
            &&& match cfg.lru_field() {
                Some((lru, field)) => if stored.lru + lru.increment <= field.max() {
                    after.lru == stored.lru + lru.increment
                } else {
                    after.lru == field.max()
                },
                None => after.lru == stored.lru,
            }
            &&& match cfg.counter_field() {
                Some((counter, field)) => {
                    let sum = stored.counter + counter.change_on_insert;
                    &&& 0 <= sum <= field.max() ==> after.counter == sum
                    &&& sum < 0 ==> after.counter == 0
                    &&& sum > field.max() ==> after.counter == field.max()
                },
                None => after.counter == stored.counter,
            }
        }),
{
}

/// The numbers that a new item starts with.
pub proof fn law_new_item_numbers(
    cfg: CuckooConfiguration,
    fingerprint: u32,
    values: InsertValues,
)
    ensures
        ({
            let item = cfg.new_slot(fingerprint, values);
            &&& item.fingerprint == fingerprint & cfg.fingerprint_field().max()
            &&& item.rest == 0
            &&& match cfg.lru_field() {
                Some((lru, field)) => if lru.starting_value <= field.max() {
                    item.lru == lru.starting_value
                } else {
                    item.lru == field.max()
                },
                None => item.lru == 0,
            }
            &&& match (cfg.ttl_field(), values.ttl) {
                (Some((_, field)), Some(ttl)) => item.ttl == ttl & field.max(),
                (Some((ttl, field)), None) => item.ttl == ttl.ttl@ & field.max(),
                (None, _) => item.ttl == 0,
            }
            &&& match cfg.counter_field() {
                Some((counter, field)) => {
                    let start = match values.counter {
                        Some(value) => value,
                        None => counter.change_on_insert,
                    };
                    &&& 0 <= start <= field.max() ==> item.counter == start
                    &&& start < 0 ==> item.counter == 0
                    &&& start > field.max() ==> item.counter == field.max()
                },
                None => item.counter == 0,
            }
        }),
{
}

/// What scans do to the numbers of a slot. An LRU scan halves the LRU counter or takes off the
/// decrement, and empties the slot if the configuration asks for that and the counter gets 0. A TTL
/// scan takes 1 off the TTL of an item, and empties its slot if the TTL gets 0. Nothing else
/// changes. A full scan is both, the LRU scan first.
pub proof fn law_scans_age(cfg: CuckooConfiguration, stored: SlotView)
    ensures
        ({
            let after = cfg.lru_aged(stored);
            match cfg.lru_field() {
                None => after == stored,
                Some((lru, _)) => {
                    let gone = match lru.aging_strategy {
                        LruAgingStrategy::Halving => stored.lru < 2,
                        LruAgingStrategy::Decrement(by) => stored.lru <= by,
                    };
                    if lru.remove_on_zero && gone {
                        &&& after.fingerprint == 0
                        &&& after.lru == 0
                        &&& after.ttl == 0
                        &&& after.counter == 0
                        &&& after.rest == 0
                    } else {
                        &&& after.fingerprint == stored.fingerprint
                        &&& after.ttl == stored.ttl
                        &&& after.counter == stored.counter
                        &&& after.rest == stored.rest
                        &&& match lru.aging_strategy {
                            LruAgingStrategy::Halving => 2 * after.lru <= stored.lru < 2 * after.lru
                                + 2,
                            LruAgingStrategy::Decrement(by) => if gone {
                                after.lru == 0
                            } else {
                                after.lru + by == stored.lru
                            },
                        }
                    }
                },
            }
        }),
        ({
            let after = cfg.ttl_aged(stored);
            if cfg.ttl_field() is None || stored.fingerprint == 0 {
                after == stored
            } else if stored.ttl <= 1 {
                &&& after.fingerprint == 0
                &&& after.lru == 0
                &&& after.ttl == 0
                &&& after.counter == 0
                &&& after.rest == 0
            } else {
                &&& after.fingerprint == stored.fingerprint
                &&& after.lru == stored.lru
                &&& after.ttl + 1 == stored.ttl
                &&& after.counter == stored.counter
                &&& after.rest == stored.rest
            }
        }),
        cfg.scanned(stored) == cfg.ttl_aged(cfg.lru_aged(stored)),
{
}

/// Setting a TTL, counting a use and changing a counter touch that number only.
pub proof fn law_single_changes(cfg: CuckooConfiguration, stored: SlotView, ttl: u32, diff: i32)
    ensures
        ({
            let after = cfg.ttl_set(stored, ttl);
            &&& after.fingerprint == stored.fingerprint
            &&& after.lru == stored.lru
            &&& after.counter == stored.counter
            &&& after.rest == stored.rest
            &&& match cfg.ttl_field() {
                Some((_, field)) => after.ttl == ttl & field.max(),
                None => after.ttl == stored.ttl,
            }
        }),
        ({
            let after = cfg.lru_incremented(stored);
            &&& after.fingerprint == stored.fingerprint
            &&& after.ttl == stored.ttl
            &&& after.counter == stored.counter
            &&& after.rest == stored.rest
            &&& match cfg.lru_field() {
                Some((lru, field)) => if stored.lru + lru.increment <= field.max() {
                    after.lru == stored.lru + lru.increment
                } else {
                    after.lru == field.max()
                },
                None => after.lru == stored.lru,
            }
        }),
{
}

/// An empty slot holds nothing but zeros.
pub proof fn law_empty_slot_is_zero()
    ensures
        slot::empty_slot().fingerprint == 0,
        slot::empty_slot().lru == 0,
        slot::empty_slot().ttl == 0,
        slot::empty_slot().counter == 0,
        slot::empty_slot().rest == 0,
{
}

/// A lookup in a bucket finds the fingerprint exactly if a slot holds it.
pub proof fn law_bucket_holds(slots: Seq<SlotView>, fingerprint: u32)
    ensures
        bucket::holds(slots, fingerprint) <==> exists|s: int|
            0 <= s < slots.len() && #[trigger] slots[s].fingerprint == fingerprint,
        bucket::has_room(slots, fingerprint) <==> exists|s: int|
            0 <= s < slots.len() && (#[trigger] slots[s].fingerprint == fingerprint
                || slots[s].fingerprint == 0),
{
    law_first_match(slots, fingerprint, false);
    law_first_match(slots, fingerprint, true);
    let a = bucket::first_match(slots, fingerprint, false, 0);
    let b = bucket::first_match(slots, fingerprint, true, 0);
    if a < slots.len() {
        assert(slots[a].fingerprint == fingerprint);
    }
    if b < slots.len() {
        assert(slots[b].fingerprint == fingerprint || slots[b].fingerprint == 0);
    }
}

/// The first match is a match, and nothing before it is one.
pub proof fn law_first_match(slots: Seq<SlotView>, fingerprint: u32, or_empty: bool)
    ensures
        ({
            let index = bucket::first_match(slots, fingerprint, or_empty, 0);
            &&& 0 <= index <= slots.len()
            &&& index < slots.len() ==> slots[index].fingerprint == fingerprint || (or_empty
                && slots[index].fingerprint == 0)
            &&& forall|s: int|
                0 <= s < index ==> #[trigger] slots[s].fingerprint != fingerprint && !(or_empty
                    && slots[s].fingerprint == 0)
        }),
{
    lemma_first_match(slots, fingerprint, or_empty, 0);
}

proof fn lemma_first_match(slots: Seq<SlotView>, fingerprint: u32, or_empty: bool, from: int)
    requires
        0 <= from <= slots.len(),
    ensures
        ({
            let index = bucket::first_match(slots, fingerprint, or_empty, from);
            &&& from <= index <= slots.len()
            &&& index < slots.len() ==> slots[index].fingerprint == fingerprint || (or_empty
                && slots[index].fingerprint == 0)
            &&& forall|s: int|
                from <= s < index ==> #[trigger] slots[s].fingerprint != fingerprint && !(or_empty
                    && slots[s].fingerprint == 0)
        }),
    decreases slots.len() - from,
{
    if from < slots.len() && !(slots[from].fingerprint == fingerprint || (or_empty
        && slots[from].fingerprint == 0)) {
        lemma_first_match(slots, fingerprint, or_empty, from + 1);
    }
}

/// What an insertion into a bucket with room for the item does: the first slot that holds the
/// fingerprint or is empty takes the item. An empty slot becomes the item. In a slot that holds the
/// fingerprint the TTL is that of the item, whatever it was before, and the counters move on. All
/// other slots stay.
pub proof fn law_bucket_insert(
    cfg: CuckooConfiguration,
    slots: Seq<SlotView>,
    item: SlotView,
    index: int,
)
    requires
        0 <= index < slots.len(),
        slots[index].fingerprint == item.fingerprint || slots[index].fingerprint == 0,
        forall|s: int|
            0 <= s < index ==> #[trigger] slots[s].fingerprint != item.fingerprint
                && slots[s].fingerprint != 0,
    ensures
        ({
            let after = cfg.placed(slots, item);
            let stored = slots[index];
            let now = after[index];
            &&& after.len() == slots.len()
            &&& forall|s: int| 0 <= s < slots.len() && s != index ==> #[trigger] after[s] == slots[s]
            &&& now.fingerprint == item.fingerprint
            &&& stored.fingerprint != item.fingerprint ==> {
                &&& now.lru == item.lru
                &&& now.ttl == item.ttl
                &&& now.counter == item.counter
                &&& now.rest == item.rest
            }
            &&& stored.fingerprint == item.fingerprint ==> {
                &&& now.rest == stored.rest
                &&& match cfg.ttl_field() {
                    Some((_, field)) => now.ttl == item.ttl & field.max(),
                    None => now.ttl == stored.ttl,
                }
                &&& match cfg.lru_field() {
                    Some((lru, field)) => if stored.lru + lru.increment <= field.max() {
                        now.lru == stored.lru + lru.increment
                    } else {
                        now.lru == field.max()
                    },
                    None => now.lru == stored.lru,
                }
                &&& match cfg.counter_field() {
                    Some((counter, field)) => {
                        let sum = stored.counter + counter.change_on_insert;
                        &&& 0 <= sum <= field.max() ==> now.counter == sum
                        &&& sum < 0 ==> now.counter == 0
                        &&& sum > field.max() ==> now.counter == field.max()
                    },
                    None => now.counter == stored.counter,
                }
            }
        }),
{
    law_first_match(slots, item.fingerprint, true);
    let found = bucket::first_match(slots, item.fingerprint, true, 0);
    assert(found == index) by {
        if found < index {
            assert(slots[found].fingerprint != item.fingerprint);
        } else if found > index {
            assert(slots[index].fingerprint != item.fingerprint);
        }
    }
}

/// An item that is inserted again leaves its own TTL in the slot, whatever was stored there before.
pub proof fn law_reinserted_item_leaves_its_ttl(
    cfg: CuckooConfiguration,
    slots: Seq<SlotView>,
    item: SlotView,
    index: int,
)
    requires
        cfg.inv(),
        cfg.ttl_field() matches Some((_, field)) && item.ttl <= field.max(),
        0 <= index < slots.len(),
        slots[index].fingerprint == item.fingerprint,
        forall|s: int|
            0 <= s < index ==> #[trigger] slots[s].fingerprint != item.fingerprint
                && slots[s].fingerprint != 0,
    ensures
        cfg.placed(slots, item)[index].ttl == item.ttl,
{
    law_bucket_insert(cfg, slots, item, index);
    let field = cfg.ttl_field()->Some_0.1;
    bits::lemma_mask_value(item.ttl, (field.spec_end() - field.spec_start()) as u64);
}

/// What a lookup in a bucket does: the first slot that holds the fingerprint is counted, as
/// [`law_lookup_counts`] says. All other slots stay.
pub proof fn law_bucket_lookup(
    cfg: CuckooConfiguration,
    slots: Seq<SlotView>,
    fingerprint: u32,
    update: LookupValues,
    index: int,
)
    requires
        0 <= index < slots.len(),
        slots[index].fingerprint == fingerprint,
        forall|s: int| 0 <= s < index ==> #[trigger] slots[s].fingerprint != fingerprint,
    ensures
        ({
            let after = cfg.found(slots, fingerprint, update);
            let stored = slots[index];
            let now = after[index];
            &&& after.len() == slots.len()
            &&& forall|s: int| 0 <= s < slots.len() && s != index ==> #[trigger] after[s] == slots[s]
            &&& now.fingerprint == fingerprint
            &&& now.rest == stored.rest
            &&& match cfg.lru_field() {
                Some((lru, field)) => if stored.lru + lru.increment <= field.max() {
                    now.lru == stored.lru + lru.increment
                } else {
                    now.lru == field.max()
                },
                None => now.lru == stored.lru,
            }
            &&& match (cfg.ttl_field(), update.ttl) {
                (Some((_, field)), Some(ttl)) => now.ttl == ttl & field.max(),
                _ => now.ttl == stored.ttl,
            }
            &&& match cfg.counter_field() {
                Some((counter, field)) => {
                    let sum = stored.counter + (match update.counter_diff {
                        Some(diff) => diff,
                        None => counter.change_on_lookup,
                    });
                    &&& 0 <= sum <= field.max() ==> now.counter == sum
                    &&& sum < 0 ==> now.counter == 0
                    &&& sum > field.max() ==> now.counter == field.max()
                },
                None => now.counter == stored.counter,
            }
        }),
{
    law_first_match(slots, fingerprint, false);
    let found = bucket::first_match(slots, fingerprint, false, 0);
    assert(found == index) by {
        if found < index {
            assert(slots[found].fingerprint != fingerprint);
        } else if found > index {
            assert(slots[index].fingerprint != fingerprint);
        }
    }
}

/// A lookup of what a bucket does not hold changes nothing, and neither does a removal.
pub proof fn law_bucket_without_fingerprint(
    cfg: CuckooConfiguration,
    slots: Seq<SlotView>,
    fingerprint: u32,
    update: LookupValues,
)
    requires
        forall|s: int| 0 <= s < slots.len() ==> #[trigger] slots[s].fingerprint != fingerprint,
    ensures
        cfg.found(slots, fingerprint, update) == slots,
        bucket::removed(slots, fingerprint) == slots,
{
    law_first_match(slots, fingerprint, false);
}

/// What a removal from a bucket does: the first slot that holds the fingerprint has zeros only, all
/// other slots stay.
pub proof fn law_bucket_remove(slots: Seq<SlotView>, fingerprint: u32, index: int)
    requires
        0 <= index < slots.len(),
        slots[index].fingerprint == fingerprint,
        forall|s: int| 0 <= s < index ==> #[trigger] slots[s].fingerprint != fingerprint,
    ensures
        ({
            let after = bucket::removed(slots, fingerprint);
            let now = after[index];
            &&& after.len() == slots.len()
            &&& forall|s: int| 0 <= s < slots.len() && s != index ==> #[trigger] after[s] == slots[s]
            &&& now.fingerprint == 0
            &&& now.lru == 0
            &&& now.ttl == 0
            &&& now.counter == 0
            &&& now.rest == 0
        }),
{
    law_first_match(slots, fingerprint, false);
    let found = bucket::first_match(slots, fingerprint, false, 0);
    assert(found == index) by {
        if found < index {
            assert(slots[found].fingerprint != fingerprint);
        } else if found > index {
            assert(slots[index].fingerprint != fingerprint);
        }
    }
}

/// An LRU kick has a victim exactly if the item is completely new, or some slot is used less than
/// the item. The victim is the first of the least used slots.
pub proof fn law_lru_victim(slots: Seq<SlotView>, lru: u32)
    requires
        slots.len() > 0,
    ensures
        (exists|victim: int| bucket::is_lru_victim(slots, lru, victim)) <==> lru == 0 || exists|
            s: int,
        |
            0 <= s < slots.len() && #[trigger] slots[s].lru < lru,
        forall|victim: int, s: int|
            #![trigger bucket::is_lru_victim(slots, lru, victim), slots[s]]
            bucket::is_lru_victim(slots, lru, victim) && 0 <= s < slots.len() ==> {
                &&& 0 <= victim < slots.len()
                &&& slots[victim].lru <= slots[s].lru
                &&& s < victim ==> slots[victim].lru < slots[s].lru
                &&& lru == 0 || slots[victim].lru < lru
            },
{
    let least = lemma_least_used(slots, slots.len() as int);
    if lru == 0 || slots[least].lru < lru {
        assert(bucket::is_lru_victim(slots, lru, least));
    }
    if exists|victim: int| bucket::is_lru_victim(slots, lru, victim) {
        let victim = choose|victim: int| bucket::is_lru_victim(slots, lru, victim);
        assert(lru == 0 || slots[victim].lru < lru);
    }
}

/// The first of the least used slots among the first `n`.
proof fn lemma_least_used(slots: Seq<SlotView>, n: int) -> (least: int)
    requires
        0 < n <= slots.len(),
    ensures
        0 <= least < n,
        forall|j: int| 0 <= j < n ==> slots[least].lru <= #[trigger] slots[j].lru,
        forall|j: int| 0 <= j < least ==> slots[least].lru < #[trigger] slots[j].lru,
    decreases n,
{
    if n == 1 {
        0
    } else {
        let least = lemma_least_used(slots, n - 1);
        if slots[n - 1].lru < slots[least].lru {
            n - 1
        } else {
            least
        }
    }
}

/// An exchange swaps an item with what is in a slot, and leaves the other slots.
pub proof fn law_exchange(
    before: Seq<SlotView>,
    item: SlotView,
    index: int,
    after: Seq<SlotView>,
    out: SlotView,
)
    requires
        bucket::exchanged(before, item, index, after, out),
    ensures
        0 <= index < before.len(),
        after.len() == before.len(),
        after[index] == item,
        out == before[index],
        forall|s: int| 0 <= s < before.len() && s != index ==> #[trigger] after[s] == before[s],
{
}

/// A random kick exchanges the item with the slot where it starts, unless that holds the
/// fingerprint to keep. Then it takes the next slot, wrapping around, that does not. It takes a slot
/// that holds the fingerprint to keep only if all slots do.
pub proof fn law_random_victim(slots: Seq<SlotView>, keep: u32, start: int)
    requires
        0 <= start < slots.len(),
    ensures
        ({
            let victim = bucket::random_victim(slots, keep, start, 0);
            &&& 0 <= victim < slots.len()
            &&& slots[start].fingerprint != keep ==> victim == start
            &&& slots[victim].fingerprint == keep ==> forall|s: int|
                0 <= s < slots.len() ==> #[trigger] slots[s].fingerprint == keep
            &&& start <= victim ==> forall|s: int|
                start <= s < victim ==> #[trigger] slots[s].fingerprint == keep
            &&& victim < start ==> forall|s: int|
                (start <= s < slots.len() || 0 <= s < victim)
                    ==> #[trigger] slots[s].fingerprint == keep
        }),
{
    lemma_random_victim(slots, keep, start, 0);
    vstd::arithmetic::div_mod::lemma_small_mod(start as nat, slots.len());
}

proof fn lemma_random_victim(slots: Seq<SlotView>, keep: u32, start: int, skipped: int)
    requires
        0 <= start < slots.len(),
        0 <= skipped <= slots.len(),
        forall|s: int|
            0 <= s < slots.len() && (start <= s < start + skipped || s < start + skipped
                - slots.len()) ==> #[trigger] slots[s].fingerprint == keep,
    ensures
        ({
            let victim = bucket::random_victim(slots, keep, start, skipped);
            &&& 0 <= victim < slots.len()
            &&& slots[victim].fingerprint == keep ==> forall|s: int|
                0 <= s < slots.len() ==> #[trigger] slots[s].fingerprint == keep
            &&& start <= victim ==> forall|s: int|
                start <= s < victim ==> #[trigger] slots[s].fingerprint == keep
            &&& victim < start ==> forall|s: int|
                (start <= s < slots.len() || 0 <= s < victim)
                    ==> #[trigger] slots[s].fingerprint == keep
        }),
    decreases slots.len() - skipped,
{
    let n = slots.len() as int;
    let index = (start + skipped) % n;
    if skipped < n {
        if start + skipped < n {
            vstd::arithmetic::div_mod::lemma_small_mod((start + skipped) as nat, n as nat);
        } else {
            vstd::arithmetic::div_mod::lemma_fundamental_div_mod_converse(
                start + skipped,
                n,
                1,
                start + skipped - n,
            );
        }
        if slots[index].fingerprint == keep {
            lemma_random_victim(slots, keep, start, skipped + 1);
        }
    }
}

/// A random kick that starts from a slot exchanges the item with exactly one slot. That is where it
/// starts, unless that holds the fingerprint to keep and another slot does not.
pub proof fn law_random_kick(
    before: Seq<SlotView>,
    item: SlotView,
    keep: u32,
    start: int,
    after: Seq<SlotView>,
    out: SlotView,
)
    requires
        bucket::kicked_from(before, item, keep, start, after, out),
    ensures
        after.len() == before.len(),
        exists|victim: int|
            #![trigger before[victim]]
            0 <= victim < before.len() && out == before[victim] && after == before.update(
                victim,
                item,
            ) && (before[start].fingerprint != keep ==> victim == start),
        out.fingerprint == keep ==> forall|s: int|
            0 <= s < before.len() ==> #[trigger] before[s].fingerprint == keep,
{
    law_random_victim(before, keep, start);
    let victim = bucket::random_victim(before, keep, start, 0);
    assert(out == before[victim]);
}

/// The number of expired items grows by one with every item whose TTL is at most 1, and by nothing
/// else.
pub proof fn law_expired_items_are_counted(cfg: CuckooConfiguration, slots: Seq<SlotView>, n: int)
    requires
        0 <= n < slots.len(),
    ensures
        cfg.expired(slots, 0) == 0,
        slots[n].fingerprint != 0 && slots[n].ttl <= 1 ==> cfg.expired(slots, n + 1)
            == cfg.expired(slots, n) + 1,
        slots[n].fingerprint == 0 || slots[n].ttl > 1 ==> cfg.expired(slots, n + 1) == cfg.expired(
            slots,
            n,
        ),
{
}

} // verus!
