//! What kicks do: how an insertion into full buckets moves items.
//!
//! An insertion whose two buckets are full exchanges its item with one that is stored, takes that one
//! to its other bucket, and so on. The law here writes this down as a chain: which buckets there were
//! after every kick, and which item was on its way then.
use crate::bucket;
use crate::config::CuckooConfiguration;
use crate::laws;
use crate::number_laws;
use crate::placement;
use crate::slot::SlotView;
use vstd::prelude::*;

verus! {

/// The kicks of an insertion.
pub struct KickChain {
    /// The buckets before the first kick and after every kick.
    pub states: Seq<Seq<Seq<SlotView>>>,
    /// The inserted item, and the item that every kick has taken out.
    pub items: Seq<SlotView>,
    /// The bucket that each of these items is to go to.
    pub places: Seq<u32>,
    /// The slot that every kick has exchanged.
    pub victims: Seq<int>,
    /// The slot that the last item was stored in, if there was room for it.
    pub end: int,
}

/// Whether kick `k` of a chain is one that can take place.
spec fn is_kick(
    cfg: CuckooConfiguration,
    hashes: spec_fn(u32, u64) -> bool,
    keep: u32,
    chain: KickChain,
    k: int,
) -> bool {
    let slots = chain.states[k][chain.places[k] as int];
    let victim = chain.victims[k];
    let item = chain.items[k];
    let out = chain.items[k + 1];
    &&& 0 <= chain.places[k] < chain.states[k].len()
    &&& 0 <= victim < slots.len()
    &&& out == slots[victim]
    &&& chain.states[k + 1] == chain.states[k].update(
        chain.places[k] as int,
        slots.update(victim, item),
    )
    &&& exists|hash: u64| #[trigger]
        hashes(out.fingerprint, hash) && chain.places[k + 1] == (chain.places[k] ^ ((hash as u32)
            & cfg.mask())) & cfg.mask()
    &&& cfg.lru_field() is Some ==> {
        &&& item.lru == 0 || out.lru < item.lru
        &&& forall|t: int| 0 <= t < slots.len() ==> out.lru <= #[trigger] slots[t].lru
        &&& forall|t: int| 0 <= t < victim ==> out.lru < #[trigger] slots[t].lru
    }
    &&& cfg.lru_field() is None && out.fingerprint == keep ==> forall|t: int|
        0 <= t < slots.len() ==> #[trigger] slots[t].fingerprint == keep
    &&& k > 0 ==> forall|t: int|
        0 <= t < slots.len() ==> #[trigger] slots[t].fingerprint != item.fingerprint
            && slots[t].fingerprint != 0
}

/// Whether a chain is one that kicking, with at most `kicks` kicks, can go through.
spec fn is_chain(
    cfg: CuckooConfiguration,
    hashes: spec_fn(u32, u64) -> bool,
    kicks: nat,
    keep: u32,
    buckets: Seq<Seq<SlotView>>,
    item: SlotView,
    index: u32,
    after: Seq<Seq<SlotView>>,
    evicted: Option<u32>,
    chain: KickChain,
) -> bool {
    let n = chain.victims.len() as int;
    let last = chain.items[n];
    let slots = chain.states[n][chain.places[n] as int];
    &&& n <= kicks
    &&& chain.states.len() == n + 1
    &&& chain.items.len() == n + 1
    &&& chain.places.len() == n + 1
    &&& chain.states[0] == buckets
    &&& chain.items[0] == item
    &&& chain.places[0] == index
    &&& chain.places[n] < chain.states[n].len()
    &&& forall|k: int| 0 <= k < n ==> #[trigger] is_kick(cfg, hashes, keep, chain, k)
    &&& match evicted {
        Some(fingerprint) => {
            &&& after == chain.states[n]
            &&& fingerprint == last.fingerprint
            &&& n == kicks || (cfg.lru_field() is Some && last.lru > 0 && forall|t: int|
                0 <= t < slots.len() ==> #[trigger] slots[t].lru >= last.lru)
            &&& n > 0 ==> forall|t: int|
                0 <= t < slots.len() ==> #[trigger] slots[t].fingerprint != last.fingerprint
                    && slots[t].fingerprint != 0
        },
        None => {
            let end = chain.end;
            &&& n > 0
            &&& 0 <= end < slots.len()
            &&& slots[end].fingerprint == last.fingerprint || slots[end].fingerprint == 0
            &&& forall|t: int|
                0 <= t < end ==> #[trigger] slots[t].fingerprint != last.fingerprint
                    && slots[t].fingerprint != 0
            &&& after == chain.states[n].update(
                chain.places[n] as int,
                cfg.placed(slots, last),
            )
        },
    }
}

/// A kick that can take place leads to a bucket.
proof fn lemma_kick_step(
    cfg: CuckooConfiguration,
    hashes: spec_fn(u32, u64) -> bool,
    keep: u32,
    buckets: Seq<Seq<SlotView>>,
    item: SlotView,
    index: u32,
    victim: int,
    next: u32,
)
    requires
        cfg.shapes(buckets),
        cfg.is_index(index),
        cfg.kick_step(hashes, keep, buckets, item, index, victim, next),
    ensures
        ({
            let slots = buckets[index as int];
            let out = slots[victim];
            &&& index < buckets.len()
            &&& next < buckets.len()
            &&& cfg.is_index(next)
            &&& cfg.shapes(cfg.kicked(buckets, item, index, victim))
            &&& exists|hash: u64| #[trigger]
                hashes(out.fingerprint, hash) && next == (index ^ ((hash as u32) & cfg.mask()))
                    & cfg.mask()
            &&& cfg.lru_field() is Some ==> {
                &&& item.lru == 0 || out.lru < item.lru
                &&& forall|t: int| 0 <= t < slots.len() ==> out.lru <= #[trigger] slots[t].lru
                &&& forall|t: int| 0 <= t < victim ==> out.lru < #[trigger] slots[t].lru
            }
            &&& cfg.lru_field() is None && out.fingerprint == keep ==> forall|t: int|
                0 <= t < slots.len() ==> #[trigger] slots[t].fingerprint == keep
        }),
{
    let slots = buckets[index as int];
    laws::lemma_index_in_range(cfg, buckets, index);
    let out = slots[victim];
    let hash = choose|hash: u64| #[trigger]
        hashes(out.fingerprint, hash) && next == placement::alternate(cfg.mask(), hash, index);
    assert(hashes(out.fingerprint, hash));
    let m = cfg.mask();
    let x = index ^ ((hash as u32) & m);
    assert((x & m) & m == x & m) by (bit_vector);
    laws::lemma_index_in_range(cfg, buckets, next);
    if cfg.lru_field() is Some {
        number_laws::law_lru_victim(slots, item.lru);
    } else {
        let start = choose|start: int|
            0 <= start < slots.len() && victim == #[trigger] bucket::random_victim(
                slots,
                keep,
                start,
                0,
            );
        number_laws::law_random_victim(slots, keep, start);
    }
}

/// Kicking goes through a chain.
proof fn lemma_kicks_chain(
    cfg: CuckooConfiguration,
    hashes: spec_fn(u32, u64) -> bool,
    kicks: nat,
    keep: u32,
    buckets: Seq<Seq<SlotView>>,
    item: SlotView,
    index: u32,
    after: Seq<Seq<SlotView>>,
    evicted: Option<u32>,
) -> (chain: KickChain)
    requires
        cfg.shapes(buckets),
        cfg.is_index(index),
        cfg.kicks(hashes, kicks, keep, buckets, item, index, after, evicted),
    ensures
        is_chain(cfg, hashes, kicks, keep, buckets, item, index, after, evicted, chain),
    decreases kicks,
{
    laws::lemma_index_in_range(cfg, buckets, index);
    let slots = buckets[index as int];
    if kicks == 0 || (cfg.lru_field() is Some && forall|victim: int|
        !bucket::is_lru_victim(slots, item.lru, victim)) {
        if cfg.lru_field() is Some {
            number_laws::law_lru_victim(slots, item.lru);
        }
        KickChain {
            states: seq![buckets],
            items: seq![item],
            places: seq![index],
            victims: Seq::empty(),
            end: 0,
        }
    } else {
        let (victim, next) = choose|victim: int, next: u32|
            #![trigger cfg.kick_step(hashes, keep, buckets, item, index, victim, next)]
            {
                let out = buckets[index as int][victim];
                let kicked = cfg.kicked(buckets, item, index, victim);
                &&& cfg.kick_step(hashes, keep, buckets, item, index, victim, next)
                &&& if bucket::has_room(kicked[next as int], out.fingerprint) {
                    after == cfg.stored(kicked, out, next) && evicted is None
                } else {
                    cfg.kicks(
                        hashes,
                        (kicks - 1) as nat,
                        keep,
                        kicked,
                        out,
                        next,
                        after,
                        evicted,
                    )
                }
            };
        let out = slots[victim];
        let kicked = cfg.kicked(buckets, item, index, victim);
        lemma_kick_step(cfg, hashes, keep, buckets, item, index, victim, next);
        number_laws::law_bucket_holds(kicked[next as int], out.fingerprint);
        if bucket::has_room(kicked[next as int], out.fingerprint) {
            number_laws::law_first_match(kicked[next as int], out.fingerprint, true);
            let chain = KickChain {
                states: seq![buckets, kicked],
                items: seq![item, out],
                places: seq![index, next],
                victims: seq![victim],
                end: bucket::first_match(kicked[next as int], out.fingerprint, true, 0),
            };
            assert(is_kick(cfg, hashes, keep, chain, 0));
            chain
        } else {
            let rest = lemma_kicks_chain(
                cfg,
                hashes,
                (kicks - 1) as nat,
                keep,
                kicked,
                out,
                next,
                after,
                evicted,
            );
            let chain = KickChain {
                states: seq![buckets] + rest.states,
                items: seq![item] + rest.items,
                places: seq![index] + rest.places,
                victims: seq![victim] + rest.victims,
                end: rest.end,
            };
            assert(chain.states[0] == buckets && chain.states[1] == rest.states[0]);
            assert(chain.items[0] == item && chain.items[1] == rest.items[0]);
            assert(chain.places[0] == index && chain.places[1] == rest.places[0]);
            assert(chain.victims[0] == victim);
            let m = rest.victims.len() as int;
            assert(chain.states[m + 1] == rest.states[m]);
            assert(chain.items[m + 1] == rest.items[m]);
            assert(chain.places[m + 1] == rest.places[m]);
            assert(is_kick(cfg, hashes, keep, chain, 0));
            assert forall|k: int| 0 <= k < m + 1 implies #[trigger] is_kick(
                cfg,
                hashes,
                keep,
                chain,
                k,
            ) by {
                if k > 0 {
                    assert(is_kick(cfg, hashes, keep, rest, k - 1));
                    assert(chain.states[k] == rest.states[k - 1]);
                    assert(chain.states[k + 1] == rest.states[k]);
                    assert(chain.items[k] == rest.items[k - 1]);
                    assert(chain.items[k + 1] == rest.items[k]);
                    assert(chain.places[k] == rest.places[k - 1]);
                    assert(chain.places[k + 1] == rest.places[k]);
                    assert(chain.victims[k] == rest.victims[k - 1]);
                }
            }
            chain
        }
    }
}

/// An insertion whose item has no room in either of its buckets kicks.
///
/// Every kick exchanges one slot: the item on its way goes in with all its numbers, and what was
/// there comes out and goes on to its other bucket. Kicks start in the first bucket, or, if the item
/// is only inserted unless present, in either bucket. A kick happens only in a bucket without an
/// empty slot and without a slot that holds the fingerprint.
///
/// With LRU, a kick takes the first of the least used slots, and only one that is used less than the
/// item on its way, unless that is completely new. Without LRU, a kick takes a slot with the
/// fingerprint of the inserted item only if all slots of the bucket hold that.
///
/// Kicks end with an eviction only if there were as many as the limit allows, or, with LRU, if no
/// slot is used less than the item on its way. That item is then the evicted one, and nothing else
/// changes. Else they end as soon as an item finds room in its other bucket: in an empty slot it
/// keeps its numbers, and in a slot that holds its fingerprint the TTL is its own and the counters
/// move on.
pub proof fn law_full_buckets_kick(
    cfg: CuckooConfiguration,
    hashes: spec_fn(u32, u64) -> bool,
    before: Seq<Seq<SlotView>>,
    item: SlotView,
    first: u32,
    second: u32,
    hash: u64,
    unless_present: bool,
    after: Seq<Seq<SlotView>>,
    evicted: Option<u32>,
) -> (chain: KickChain)
    requires
        cfg.shapes(before),
        first & cfg.mask() == first,
        hashes(item.fingerprint, hash),
        forall|h: u64| #[trigger] hashes(item.fingerprint, h) ==> h == hash,
        second == (first ^ ((hash as u32) & cfg.mask())) & cfg.mask(),
        !unless_present ==> cfg.inserts(hashes, before, item, first, after, evicted),
        unless_present ==> cfg.inserts_if_not_present(
            hashes,
            before,
            item,
            first,
            after,
            evicted,
        ),
        forall|p: u32, t: int|
            (p == first || p == second) && 0 <= t < before[p as int].len()
                ==> #[trigger] before[p as int][t].fingerprint != item.fingerprint
                && before[p as int][t].fingerprint != 0,
    ensures
        ({
            let n = chain.victims.len() as int;
            &&& n <= cfg.kick_limit()
            &&& chain.states.len() == n + 1
            &&& chain.items.len() == n + 1
            &&& chain.places.len() == n + 1
            &&& chain.states[0] == before
            &&& chain.items[0] == item
            &&& chain.places[0] == first || (unless_present && chain.places[0] == second)
        }),
        forall|k: int|
            #![trigger chain.victims[k]]
            0 <= k < chain.victims.len() ==> {
                let slots = chain.states[k][chain.places[k] as int];
                let victim = chain.victims[k];
                let out = chain.items[k + 1];
                &&& 0 <= victim < slots.len()
                &&& out == slots[victim]
                &&& chain.states[k + 1] == chain.states[k].update(
                    chain.places[k] as int,
                    slots.update(victim, chain.items[k]),
                )
                &&& exists|h: u64| #[trigger]
                    hashes(out.fingerprint, h) && chain.places[k + 1] == (chain.places[k] ^ ((
                    h as u32) & cfg.mask())) & cfg.mask()
                &&& forall|t: int|
                    0 <= t < slots.len() ==> #[trigger] slots[t].fingerprint
                        != chain.items[k].fingerprint && slots[t].fingerprint != 0
            },
        cfg.lru_field() is Some ==> forall|k: int, t: int|
            #![trigger chain.victims[k], chain.states[k][chain.places[k] as int][t]]
            0 <= k < chain.victims.len() && 0 <= t
                < chain.states[k][chain.places[k] as int].len() ==> {
                let slots = chain.states[k][chain.places[k] as int];
                let victim = chain.victims[k];
                &&& slots[victim].lru <= slots[t].lru
                &&& t < victim ==> slots[victim].lru < slots[t].lru
                &&& chain.items[k].lru == 0 || slots[victim].lru < chain.items[k].lru
            },
        cfg.lru_field() is None ==> forall|k: int, t: int|
            #![trigger chain.victims[k], chain.states[k][chain.places[k] as int][t]]
            0 <= k < chain.victims.len() && 0 <= t
                < chain.states[k][chain.places[k] as int].len()
                && chain.states[k][chain.places[k] as int][chain.victims[k]].fingerprint
                == item.fingerprint ==> chain.states[k][chain.places[k] as int][t].fingerprint
                == item.fingerprint,
        evicted matches Some(fingerprint) ==> {
            let n = chain.victims.len() as int;
            let last = chain.items[n];
            let slots = chain.states[n][chain.places[n] as int];
            &&& after == chain.states[n]
            &&& fingerprint == last.fingerprint
            &&& n == cfg.kick_limit() || (cfg.lru_field() is Some && last.lru > 0 && forall|t: int|
                0 <= t < slots.len() ==> #[trigger] slots[t].lru >= last.lru)
            &&& forall|t: int|
                0 <= t < slots.len() ==> #[trigger] slots[t].fingerprint != last.fingerprint
                    && slots[t].fingerprint != 0
        },
        evicted is None ==> {
            let n = chain.victims.len() as int;
            let last = chain.items[n];
            let place = chain.places[n] as int;
            let slots = chain.states[n][place];
            let end = chain.end;
            let stored = slots[end];
            let now = after[place][end];
            &&& n > 0
            &&& 0 <= end < slots.len()
            &&& stored.fingerprint == last.fingerprint || stored.fingerprint == 0
            &&& forall|t: int|
                0 <= t < end ==> #[trigger] slots[t].fingerprint != last.fingerprint
                    && slots[t].fingerprint != 0
            &&& after == chain.states[n].update(place, slots.update(end, now))
            &&& now.fingerprint == last.fingerprint
            &&& stored.fingerprint != last.fingerprint ==> {
                &&& now.lru == last.lru
                &&& now.ttl == last.ttl
                &&& now.counter == last.counter
                &&& now.rest == last.rest
            }
            &&& stored.fingerprint == last.fingerprint ==> {
                &&& now.rest == stored.rest
                &&& match cfg.ttl_field() {
                    Some((_, field)) => now.ttl == last.ttl & field.max(),
                    None => now.ttl == stored.ttl,
                }
                &&& match cfg.lru_field() {
                    Some((lru, field)) => if stored.lru + lru.increment <= field.max() {
                        now.lru == stored.lru + lru.increment
                    } else {
                        now.lru == field.max()
                    },
                    None => now.lru == stored.lru,
                }
                &&& match cfg.counter_field() {
                    Some((counter, field)) => {
                        let sum = stored.counter + counter.change_on_insert;
                        &&& 0 <= sum <= field.max() ==> now.counter == sum
                        &&& sum < 0 ==> now.counter == 0
                        &&& sum > field.max() ==> now.counter == field.max()
                    },
                    None => now.counter == stored.counter,
                }
            }
        },
{
    let fp = item.fingerprint;
    let start = lemma_start(
        cfg,
        hashes,
        before,
        item,
        first,
        second,
        hash,
        unless_present,
        after,
        evicted,
    );
    let limit = cfg.kick_limit() as nat;
    let chain = lemma_kicks_chain(cfg, hashes, limit, fp, before, item, start, after, evicted);
    let n = chain.victims.len() as int;
    assert forall|k: int| #![trigger chain.victims[k]] 0 <= k < n implies is_kick(
        cfg,
        hashes,
        fp,
        chain,
        k,
    ) by {}
    assert forall|t: int| 0 <= t < before[start as int].len() implies #[trigger]
        before[start as int][t].fingerprint != fp && before[start as int][t].fingerprint != 0 by {}
    if evicted is None {
        let slots = chain.states[n][chain.places[n] as int];
        number_laws::law_bucket_insert(cfg, slots, chain.items[n], chain.end);
        let placed = cfg.placed(slots, chain.items[n]);
        assert(placed =~= slots.update(chain.end, placed[chain.end]));
    }
    chain
}

/// The bucket where kicks start.
proof fn lemma_start(
    cfg: CuckooConfiguration,
    hashes: spec_fn(u32, u64) -> bool,
    before: Seq<Seq<SlotView>>,
    item: SlotView,
    first: u32,
    second: u32,
    hash: u64,
    unless_present: bool,
    after: Seq<Seq<SlotView>>,
    evicted: Option<u32>,
) -> (start: u32)
    requires
        cfg.shapes(before),
        first & cfg.mask() == first,
        hashes(item.fingerprint, hash),
        forall|h: u64| #[trigger] hashes(item.fingerprint, h) ==> h == hash,
        second == (first ^ ((hash as u32) & cfg.mask())) & cfg.mask(),
        !unless_present ==> cfg.inserts(hashes, before, item, first, after, evicted),
        unless_present ==> cfg.inserts_if_not_present(
            hashes,
            before,
            item,
            first,
            after,
            evicted,
        ),
        forall|p: u32, t: int|
            (p == first || p == second) && 0 <= t < before[p as int].len()
                ==> #[trigger] before[p as int][t].fingerprint != item.fingerprint
                && before[p as int][t].fingerprint != 0,
    ensures
        cfg.is_index(start),
        start == first || (unless_present && start == second),
        cfg.kicks(
            hashes,
            cfg.kick_limit() as nat,
            item.fingerprint,
            before,
            item,
            start,
            after,
            evicted,
        ),
{
    let fp = item.fingerprint;
    laws::lemma_index_in_range(cfg, before, first);
    let m = cfg.mask();
    let x = first ^ ((hash as u32) & m);
    assert((x & m) & m == x & m) by (bit_vector);
    laws::lemma_index_in_range(cfg, before, second);
    number_laws::law_bucket_holds(before[first as int], fp);
    number_laws::law_bucket_holds(before[second as int], fp);
    assert(forall|t: int|
        0 <= t < before[first as int].len() ==> #[trigger] before[first as int][t].fingerprint != fp
            && before[first as int][t].fingerprint != 0);
    assert(forall|t: int|
        0 <= t < before[second as int].len() ==> #[trigger] before[second as int][t].fingerprint
            != fp && before[second as int][t].fingerprint != 0);
    let other = choose|other: u32|
        #![trigger cfg.is_alternate(hashes, fp, first, other)]
        {
            &&& cfg.is_alternate(hashes, fp, first, other)
            &&& if unless_present {
                cfg.resolves(hashes, before, item, first, other, after, evicted)
            } else {
                cfg.stores(hashes, before, item, first, other, first, after, evicted)
            }
        };
    let h = choose|h: u64| #[trigger]
        hashes(fp, h) && other == placement::alternate(m, h, first);
    assert(h == hash);
    if unless_present && cfg.stores(hashes, before, item, first, second, second, after, evicted) {
        second
    } else {
        first
    }
}

} // verus!
