//! The per-replay report: correlated ward lifetimes and periodic player
//! position snapshots, assembled from decoded packets.
//!
//! Ward spawns and corpses pair up by map position; placements are keyed
//! both by entity id and by position, the first occurrence winning.  A
//! corpse closes the placement at its position and yields a lifetime
//! entry.  Movement packets drive a per-player latest-path table; a
//! snapshot of every known player is emitted whenever the stream's
//! timestamp advances by at least a second.

use vstd::prelude::*;
use crate::metadata::{spec_player_from_id, Metadata, Player};
use crate::packet::{
    spec_get_pos, spec_pos_key_u64, wf_waypoints, PathPacket, PosKey, WardSpawnPacket,
};
use crate::table::{tbl_get, tbl_has, tbl_remove, tbl_set, KeyTable};
use crate::util::{spec_contains_seq, str_contains_chars, str_eq_chars};

verus! {

/// Keys packets by their millisecond timestamp, for sorting.
pub trait TimeKeyed: Sized {
    /// The sort key.
    spec fn key_ms(&self) -> u32;

    /// Returns the sort key.
    fn get_key_ms(&self) -> (r: u32)
        ensures
            r == self.key_ms(),
    ;
}

impl TimeKeyed for WardSpawnPacket {
    open spec fn key_ms(&self) -> u32 {
        self.timestamp_ms
    }

    fn get_key_ms(&self) -> (r: u32)
        ensures
            r == self.key_ms(),
    {
        self.timestamp_ms
    }
}

impl TimeKeyed for PathPacket {
    open spec fn key_ms(&self) -> u32 {
        self.timestamp_ms
    }

    fn get_key_ms(&self) -> (r: u32)
        ensures
            r == self.key_ms(),
    {
        self.timestamp_ms
    }
}

/// Keys never decrease along the sequence.
pub open spec fn sorted_by_ms<T: TimeKeyed>(s: Seq<T>) -> bool {
    forall|i: int, j: int|
        0 <= i <= j < s.len() ==> (#[trigger] s[i]).key_ms() <= (#[trigger] s[j]).key_ms()
}

/// Inserts `p` before the trailing run of strictly greater keys: a stable
/// insertion.
pub open spec fn spec_insert_ms<T: TimeKeyed>(s: Seq<T>, p: T) -> Seq<T>
    decreases s.len(),
{
    if s.len() == 0 {
        seq![p]
    } else if p.key_ms() < s.last().key_ms() {
        spec_insert_ms(s.drop_last(), p).push(s.last())
    } else {
        s.push(p)
    }
}

/// Stable insertion sort by timestamp.
pub open spec fn spec_sort_ms<T: TimeKeyed>(s: Seq<T>) -> Seq<T>
    decreases s.len(),
{
    if s.len() == 0 {
        s
    } else {
        spec_insert_ms(spec_sort_ms(s.drop_last()), s.last())
    }
}

/// Insertion keeps the sequence sorted, adds one element, and introduces
/// no value beyond `p` and the existing ones.
pub proof fn lemma_insert_ms_sorted<T: TimeKeyed>(s: Seq<T>, p: T)
    requires
        sorted_by_ms(s),
    ensures
        sorted_by_ms(spec_insert_ms(s, p)),
        spec_insert_ms(s, p).len() == s.len() + 1,
        forall|i: int|
            0 <= i < spec_insert_ms(s, p).len() ==> (#[trigger] spec_insert_ms(s, p)[i]) == p
                || s.contains(spec_insert_ms(s, p)[i]),
    decreases s.len(),
{
    if s.len() == 0 {
    } else if p.key_ms() < s.last().key_ms() {
        assert(sorted_by_ms(s.drop_last()));
        lemma_insert_ms_sorted(s.drop_last(), p);
        let t = spec_insert_ms(s.drop_last(), p);
        let r = t.push(s.last());
        assert forall|i: int, j: int|
            0 <= i <= j < r.len() implies (#[trigger] r[i]).key_ms() <= (#[trigger] r[j]).key_ms()
        by {
            if j < r.len() - 1 {
                assert(r[i] == t[i] && r[j] == t[j]);
            } else if i < r.len() - 1 {
                assert(r[i] == t[i]);
                assert(t[i] == p || s.drop_last().contains(t[i]));
                if s.drop_last().contains(t[i]) {
                    let w = choose|w: int|
                        0 <= w < s.drop_last().len() && s.drop_last()[w] == t[i];
                    assert(s[w] == t[i]);
                }
            }
        }
        assert forall|i: int| 0 <= i < r.len() implies (#[trigger] r[i]) == p || s.contains(
            r[i],
        ) by {
            if i < r.len() - 1 {
                assert(r[i] == t[i]);
                if s.drop_last().contains(t[i]) {
                    let w = choose|w: int|
                        0 <= w < s.drop_last().len() && s.drop_last()[w] == t[i];
                    assert(s[w] == t[i]);
                }
            } else {
                assert(r[i] == s.last());
            }
        }
    } else {
        let r = s.push(p);
        assert forall|i: int| 0 <= i < r.len() implies (#[trigger] r[i]) == p || s.contains(
            r[i],
        ) by {
            if i < s.len() {
                assert(s[i] == r[i]);
            }
        }
    }
}

/// The sort is sorted, keeps the length, and introduces no new values.
pub proof fn lemma_sort_ms_sorted<T: TimeKeyed>(s: Seq<T>)
    ensures
        sorted_by_ms(spec_sort_ms(s)),
        spec_sort_ms(s).len() == s.len(),
        forall|i: int|
            0 <= i < spec_sort_ms(s).len() ==> s.contains(#[trigger] spec_sort_ms(s)[i]),
    decreases s.len(),
{
    if s.len() == 0 {
    } else {
        lemma_sort_ms_sorted(s.drop_last());
        lemma_insert_ms_sorted(spec_sort_ms(s.drop_last()), s.last());
        assert forall|i: int| 0 <= i < spec_sort_ms(s).len() implies s.contains(
            #[trigger] spec_sort_ms(s)[i],
        ) by {
            let x = spec_sort_ms(s)[i];
            if x == s.last() {
                assert(s[s.len() - 1] == x);
            } else {
                assert(spec_sort_ms(s.drop_last()).contains(x));
                let w = choose|w: int|
                    0 <= w < spec_sort_ms(s.drop_last()).len() && spec_sort_ms(s.drop_last())[w]
                        == x;
                assert(s.drop_last().contains(x));
                let w2 = choose|w2: int|
                    0 <= w2 < s.drop_last().len() && s.drop_last()[w2] == x;
                assert(s[w2] == x);
            }
        }
    }
}

/// When everything from position `j` on has a strictly greater key and
/// the element before `j` does not, inserting lands exactly at `j`.
proof fn lemma_insert_ms_at<T: TimeKeyed>(s: Seq<T>, p: T, j: int)
    requires
        0 <= j <= s.len(),
        forall|t: int| j <= t < s.len() ==> (#[trigger] s[t]).key_ms() > p.key_ms(),
        j > 0 ==> s[j - 1].key_ms() <= p.key_ms(),
    ensures
        spec_insert_ms(s, p) =~= s.insert(j, p),
    decreases s.len(),
{
    if j == s.len() {
        if s.len() == 0 {
            assert(spec_insert_ms(s, p) =~= s.insert(0, p));
        } else {
            assert(!(p.key_ms() < s.last().key_ms()));
            assert(s.push(p) =~= s.insert(j, p));
        }
    } else {
        assert(s[s.len() - 1].key_ms() > p.key_ms());
        lemma_insert_ms_at(s.drop_last(), p, j);
        assert(spec_insert_ms(s.drop_last(), p).push(s.last()) =~= s.drop_last().insert(
            j,
            p,
        ).push(s.last()));
        assert(s.drop_last().insert(j, p).push(s.last()) =~= s.insert(j, p));
    }
}

/// Sorts packets by timestamp, stably.
#[verifier::loop_isolation(false)]
pub fn sort_by_time<T: TimeKeyed>(input: Vec<T>) -> (r: Vec<T>)
    ensures
        r@ == spec_sort_ms(input@),
{
    let ghost orig = input@;
    let mut v = input;
    let mut out: Vec<T> = Vec::new();
    proof {
        assert(orig.take(0) =~= Seq::<T>::empty());
        assert(v@.skip(0) =~= v@);
    }
    let ghost k: int = 0;
    while v.len() > 0
        invariant
            0 <= k <= orig.len(),
            v@ == orig.skip(k),
            out@ == spec_sort_ms(orig.take(k)),
            sorted_by_ms(out@),
        decreases v@.len(),
    {
        let x = v.remove(0);
        let ghost gx = x;
        proof {
            assert(orig.skip(k)[0] == orig[k]);
            assert(orig.skip(k).remove(0) =~= orig.skip(k + 1));
        }
        let ghost out0 = out@;
        let mut j: usize = out.len();
        while j > 0 && out[j - 1].get_key_ms() > x.get_key_ms()
            invariant
                j <= out@.len(),
                out@ == out0,
                forall|t: int| j <= t < out@.len() ==> (#[trigger] out@[t]).key_ms() > gx.key_ms(),
            decreases j,
        {
            j = j - 1;
        }
        out.insert(j, x);
        proof {
            lemma_insert_ms_at(out0, gx, j as int);
            lemma_insert_ms_sorted(out0, gx);
            assert(orig.take(k + 1).drop_last() =~= orig.take(k));
            assert(orig.take(k + 1).last() == orig[k]);
            k = k + 1;
        }
    }
    proof {
        assert(orig.take(orig.len() as int) =~= orig);
    }
    out
}

/// One correlated ward lifetime.
pub struct WardEntry {
    pub name: String,
    pub team: String,
    pub owner_name: String,
    pub owner_team: String,
    pub owner_role: String,
    pub timestamp_ms: u32,
    pub duration_ms: u32,
    pub pos: (i32, i32),
}

/// The mathematical image of a [`WardEntry`].
pub ghost struct WardEntrySpec {
    pub name: Seq<char>,
    pub team: Seq<char>,
    pub owner_name: Seq<char>,
    pub owner_team: Seq<char>,
    pub owner_role: Seq<char>,
    pub timestamp_ms: u32,
    pub duration_ms: u32,
    pub pos: (i32, i32),
}

impl View for WardEntry {
    type V = WardEntrySpec;

    open spec fn view(&self) -> WardEntrySpec {
        WardEntrySpec {
            name: self.name@,
            team: self.team@,
            owner_name: self.owner_name@,
            owner_team: self.owner_team@,
            owner_role: self.owner_role@,
            timestamp_ms: self.timestamp_ms,
            duration_ms: self.duration_ms,
            pos: self.pos,
        }
    }
}

/// A name that opens a ward lifetime.
pub open spec fn spec_is_ward_name(n: Seq<char>) -> bool {
    n == "YellowTrinket"@ || n == "SightWard"@ || n == "JammerDevice"@
}

/// Tests whether a packet name opens a ward lifetime.
pub fn is_ward_name(n: &str) -> (r: bool)
    ensures
        r == spec_is_ward_name(n@),
{
    str_eq_chars(n, "YellowTrinket") || str_eq_chars(n, "SightWard") || str_eq_chars(
        n,
        "JammerDevice",
    )
}

/// The correlation state: placements by entity id, entity ids by packed
/// position, and the entries emitted so far.
pub ghost struct CorrState {
    pub placed: Seq<(u64, WardSpawnPacket)>,
    pub posids: Seq<(u64, u64)>,
    pub out: Seq<WardEntrySpec>,
}

/// The lifetime entry a closed placement yields.
pub open spec fn spec_ward_entry(w: WardSpawnPacket, corpse_ts: u32, owner: Player) -> WardEntrySpec {
    WardEntrySpec {
        name: w.name@,
        team: owner.team@,
        owner_name: owner.name@,
        owner_team: owner.team@,
        owner_role: owner.position@,
        timestamp_ms: w.timestamp_ms,
        duration_ms: (corpse_ts - w.timestamp_ms) as u32,
        pos: (w.x, w.y),
    }
}

/// One correlation step.  A ward name records a placement under both keys,
/// first occurrence winning.  A corpse name closes the placement at its
/// position: both keys leave the tables, and an entry is emitted when the
/// placement and its owner are known and the corpse does not precede the
/// placement.  Other names change nothing.
pub open spec fn spec_corr_step(
    st: CorrState,
    p: WardSpawnPacket,
    md: Metadata,
    start: u32,
) -> CorrState {
    let key = spec_pos_key_u64(p.x, p.y);
    if spec_is_ward_name(p.name@) {
        CorrState {
            placed: if tbl_has(st.placed, p.id as u64) {
                st.placed
            } else {
                tbl_set(st.placed, p.id as u64, p)
            },
            posids: if tbl_has(st.posids, key) {
                st.posids
            } else {
                tbl_set(st.posids, key, p.id as u64)
            },
            out: st.out,
        }
    } else if spec_contains_seq(p.name@, "Corpse"@) {
        match tbl_get(st.posids, key) {
            Some(id) => CorrState {
                placed: tbl_remove(st.placed, id),
                posids: tbl_remove(st.posids, key),
                out: match tbl_get(st.placed, id) {
                    Some(w) => if p.timestamp_ms >= w.timestamp_ms {
                        match spec_player_from_id(md, w.owner_id, start) {
                            Some(owner) => st.out.push(
                                spec_ward_entry(w, p.timestamp_ms, owner),
                            ),
                            None => st.out,
                        }
                    } else {
                        st.out
                    },
                    None => st.out,
                },
            },
            None => st,
        }
    } else {
        st
    }
}

/// Folds the correlation over the packets, front to back.
pub open spec fn spec_corr_from(
    st: CorrState,
    packets: Seq<WardSpawnPacket>,
    md: Metadata,
    start: u32,
) -> CorrState
    decreases packets.len(),
{
    if packets.len() == 0 {
        st
    } else {
        spec_corr_from(spec_corr_step(st, packets[0], md, start), packets.drop_first(), md, start)
    }
}

/// The empty correlation state.
pub open spec fn spec_corr_empty() -> CorrState {
    CorrState {
        placed: Seq::empty(),
        posids: Seq::empty(),
        out: Seq::empty(),
    }
}

/// The ward lifetime entries of a packet stream.
pub open spec fn spec_correlate(packets: Seq<WardSpawnPacket>, md: Metadata, start: u32) -> Seq<
    WardEntrySpec,
> {
    spec_corr_from(spec_corr_empty(), packets, md, start).out
}

/// Correlates ward spawns and corpses into lifetime entries.
#[verifier::loop_isolation(false)]
pub fn correlate_wards(packets: Vec<WardSpawnPacket>, metadata: &Metadata, player_id_start: u32) -> (r:
    Vec<WardEntry>)
    ensures
        r@.map_values(|e: WardEntry| e@) == spec_correlate(packets@, *metadata, player_id_start),
{
    let ghost orig = packets@;
    let mut v = packets;
    let mut placed: KeyTable<WardSpawnPacket> = KeyTable::new();
    let mut posids: KeyTable<u64> = KeyTable::new();
    let mut out: Vec<WardEntry> = Vec::new();
    proof {
        assert(out@.map_values(|e: WardEntry| e@) =~= Seq::<WardEntrySpec>::empty());
        assert((CorrState {
            placed: placed.entries@,
            posids: posids.entries@,
            out: out@.map_values(|e: WardEntry| e@),
        }) == spec_corr_empty());
    }
    while v.len() > 0
        invariant
            spec_corr_from(
                (CorrState {
                    placed: placed.entries@,
                    posids: posids.entries@,
                    out: out@.map_values(|e: WardEntry| e@),
                }),
                v@,
                *metadata,
                player_id_start,
            ) == spec_corr_from(spec_corr_empty(), orig, *metadata, player_id_start),
        decreases v@.len(),
    {
        let p = v.remove(0);
        let ghost gp = p;
        let ghost st0 = (CorrState {
            placed: placed.entries@,
            posids: posids.entries@,
            out: out@.map_values(|e: WardEntry| e@),
        });
        proof {
            assert(v@ =~= (seq![gp] + v@).drop_first());
        }
        let key: u64 = PosKey::new(p.x, p.y).as_u64();
        let pid: u64 = p.id as u64;
        let corpse_ts: u32 = p.timestamp_ms;
        if is_ward_name(p.name.as_str()) {
            posids.set_if_absent(key, pid);
            placed.set_if_absent(pid, p);
        } else if str_contains_chars(p.name.as_str(), "Corpse") {
            match posids.remove(key) {
                Some(id) => {
                    match placed.remove(id) {
                        Some(w) => {
                            if corpse_ts >= w.timestamp_ms {
                                match metadata.get_player_from_id(w.owner_id, player_id_start) {
                                    Some(owner) => {
                                        let entry = WardEntry {
                                            name: w.name,
                                            team: owner.team.clone(),
                                            owner_name: owner.name.clone(),
                                            owner_team: owner.team.clone(),
                                            owner_role: owner.position.clone(),
                                            timestamp_ms: w.timestamp_ms,
                                            duration_ms: corpse_ts - w.timestamp_ms,
                                            pos: (w.x, w.y),
                                        };
                                        out.push(entry);
                                    },
                                    None => {},
                                }
                            }
                        },
                        None => {},
                    }
                },
                None => {
                    proof {
                        crate::table::lemma_tbl_get_has(st0.posids, key);
                        crate::table::lemma_tbl_remove_all_other(st0.posids, key);
                    }
                },
            }
        }
        proof {
            let st2 = spec_corr_step(st0, gp, *metadata, player_id_start);
            assert(placed.entries@ =~= st2.placed);
            assert(posids.entries@ =~= st2.posids);
            assert(out@.map_values(|e: WardEntry| e@) =~= st2.out);
            assert((CorrState {
                placed: placed.entries@,
                posids: posids.entries@,
                out: out@.map_values(|e: WardEntry| e@),
            }) == st2);
        }
    }
    proof {
        assert(spec_corr_from(
            (CorrState {
                placed: placed.entries@,
                posids: posids.entries@,
                out: out@.map_values(|e: WardEntry| e@),
            }),
            v@,
            *metadata,
            player_id_start,
        ).out == out@.map_values(|e: WardEntry| e@));
    }
    out
}

/// Law: every correlated entry carries the name of a ward placement, one
/// of the three placeable kinds, and its duration is the exact corpse
/// timestamp minus placement timestamp, never wrapped below zero.
pub proof fn lemma_ward_entries_are_wards(
    st: CorrState,
    packets: Seq<WardSpawnPacket>,
    md: Metadata,
    start: u32,
)
    requires
        forall|i: int|
            0 <= i < st.placed.len() ==> spec_is_ward_name(
                (#[trigger] st.placed[i]).1.name@,
            ),
        forall|i: int| 0 <= i < st.out.len() ==> spec_is_ward_name((#[trigger] st.out[i]).name),
    ensures
        forall|i: int|
            0 <= i < spec_corr_from(st, packets, md, start).out.len() ==> spec_is_ward_name(
                (#[trigger] spec_corr_from(st, packets, md, start).out[i]).name,
            ),
    decreases packets.len(),
{
    if packets.len() == 0 {
    } else {
        let p = packets[0];
        let st2 = spec_corr_step(st, p, md, start);
        assert forall|i: int| 0 <= i < st2.placed.len() implies spec_is_ward_name(
            (#[trigger] st2.placed[i]).1.name@,
        ) by {
            if spec_is_ward_name(p.name@) {
                if !tbl_has(st.placed, p.id as u64) {
                    crate::table::lemma_tbl_set_sub(st.placed, p.id as u64, p, i);
                    if st2.placed[i] != (p.id as u64, p) {
                        let j = choose|j: int|
                            0 <= j < st.placed.len() && (#[trigger] st.placed[j]) == st2.placed[i];
                        assert(spec_is_ward_name(st.placed[j].1.name@));
                    }
                }
            } else if spec_contains_seq(p.name@, "Corpse"@) {
                match tbl_get(st.posids, spec_pos_key_u64(p.x, p.y)) {
                    Some(id) => {
                        crate::table::lemma_tbl_remove_sub(st.placed, id, i);
                        let j = choose|j: int|
                            0 <= j < st.placed.len() && (#[trigger] st.placed[j]) == tbl_remove(
                                st.placed,
                                id,
                            )[i];
                        assert(spec_is_ward_name(st.placed[j].1.name@));
                    },
                    None => {},
                }
            }
        }
        assert forall|i: int| 0 <= i < st2.out.len() implies spec_is_ward_name(
            (#[trigger] st2.out[i]).name,
        ) by {
            if i < st.out.len() {
                assert(st2.out[i] == st.out[i]);
            } else {
                // the appended entry carries a stored placement's name
                let key = spec_pos_key_u64(p.x, p.y);
                match tbl_get(st.posids, key) {
                    Some(id) => {
                        match tbl_get(st.placed, id) {
                            Some(w) => {
                                crate::table::lemma_tbl_get_has(st.placed, id);
                                let j = choose|j: int|
                                    0 <= j < st.placed.len() && #[trigger] st.placed[j] == (id, w);
                                assert(spec_is_ward_name(w.name@));
                            },
                            None => {},
                        }
                    },
                    None => {},
                }
            }
        }
        lemma_ward_entries_are_wards(st2, packets.drop_first(), md, start);
        assert forall|i: int|
            0 <= i < spec_corr_from(st, packets, md, start).out.len() implies spec_is_ward_name(
            (#[trigger] spec_corr_from(st, packets, md, start).out[i]).name,
        ) by {
            assert(spec_corr_from(st, packets, md, start) == spec_corr_from(
                st2,
                packets.drop_first(),
                md,
                start,
            ));
            assert(spec_is_ward_name(
                spec_corr_from(st2, packets.drop_first(), md, start).out[i].name,
            ));
        }
    }
}

/// Entries already emitted stay in place, and every entry the fold adds
/// closes at the timestamp of one of the processed packets: its placement
/// timestamp plus its duration is exactly that corpse packet's timestamp,
/// so no duration is ever wrapped below zero.
pub proof fn lemma_ward_entry_durations(
    st: CorrState,
    packets: Seq<WardSpawnPacket>,
    md: Metadata,
    start: u32,
)
    ensures
        spec_corr_from(st, packets, md, start).out.len() >= st.out.len(),
        forall|i: int|
            0 <= i < st.out.len() ==> #[trigger] spec_corr_from(st, packets, md, start).out[i]
                == st.out[i],
        forall|i: int|
            st.out.len() <= i < spec_corr_from(st, packets, md, start).out.len() ==> exists|j: int|
                0 <= j < packets.len() && (#[trigger] spec_corr_from(
                    st,
                    packets,
                    md,
                    start,
                ).out[i]).timestamp_ms + spec_corr_from(st, packets, md, start).out[i].duration_ms
                    == packets[j].timestamp_ms,
    decreases packets.len(),
{
    if packets.len() == 0 {
    } else {
        let p = packets[0];
        let st2 = spec_corr_step(st, p, md, start);
        lemma_ward_entry_durations(st2, packets.drop_first(), md, start);
        let res = spec_corr_from(st, packets, md, start);
        assert(res == spec_corr_from(st2, packets.drop_first(), md, start));
        assert(st2.out.len() == st.out.len() || (st2.out.len() == st.out.len() + 1
            && st2.out.last().timestamp_ms + st2.out.last().duration_ms == p.timestamp_ms));
        assert forall|i: int| st.out.len() <= i < res.out.len() implies exists|j: int|
            0 <= j < packets.len() && (#[trigger] res.out[i]).timestamp_ms
                + res.out[i].duration_ms == packets[j].timestamp_ms by {
            if i < st2.out.len() {
                assert(res.out[i] == st2.out[i]);
                assert(res.out[i].timestamp_ms + res.out[i].duration_ms
                    == packets[0].timestamp_ms);
            } else {
                let j2 = choose|j2: int|
                    0 <= j2 < packets.drop_first().len() && (#[trigger] spec_corr_from(
                        st2,
                        packets.drop_first(),
                        md,
                        start,
                    ).out[i]).timestamp_ms + spec_corr_from(
                        st2,
                        packets.drop_first(),
                        md,
                        start,
                    ).out[i].duration_ms == packets.drop_first()[j2].timestamp_ms;
                assert(packets.drop_first()[j2] == packets[j2 + 1]);
                assert(res.out[i].timestamp_ms + res.out[i].duration_ms == packets[j2
                    + 1].timestamp_ms);
            }
        }
    }
}

/// One player's interpolated position in a snapshot.
pub struct PlayerState {
    pub role: String,
    pub team: String,
    pub name: String,
    pub champ: String,
    pub pos: (i32, i32),
}

/// The mathematical image of a [`PlayerState`].
pub ghost struct PlayerStateSpec {
    pub role: Seq<char>,
    pub team: Seq<char>,
    pub name: Seq<char>,
    pub champ: Seq<char>,
    pub pos: (i32, i32),
}

impl View for PlayerState {
    type V = PlayerStateSpec;

    open spec fn view(&self) -> PlayerStateSpec {
        PlayerStateSpec {
            role: self.role@,
            team: self.team@,
            name: self.name@,
            champ: self.champ@,
            pos: self.pos,
        }
    }
}

/// One periodic snapshot of every known player.
pub struct Snapshot {
    pub timestamp_ms: u32,
    pub players: Vec<PlayerState>,
}

/// The mathematical image of a [`Snapshot`].
pub ghost struct SnapshotSpec {
    pub timestamp_ms: u32,
    pub players: Seq<PlayerStateSpec>,
}

impl View for Snapshot {
    type V = SnapshotSpec;

    open spec fn view(&self) -> SnapshotSpec {
        SnapshotSpec {
            timestamp_ms: self.timestamp_ms,
            players: self.players@.map_values(|p: PlayerState| p@),
        }
    }
}

/// The movement state: the latest path of each tracked player, the
/// timestamp of the last emitted snapshot, and the snapshots so far.
pub ghost struct PathState {
    pub tbl: Seq<(u64, PathPacket)>,
    pub last_ms: u32,
    pub out: Seq<SnapshotSpec>,
}

/// The snapshot rows of the tracked players, in table order: each player
/// the roster knows contributes its interpolated position at `at_ms`.
pub open spec fn spec_snapshot_players(
    tbl: Seq<(u64, PathPacket)>,
    md: Metadata,
    start: u32,
    at_ms: u32,
) -> Seq<PlayerStateSpec>
    decreases tbl.len(),
{
    if tbl.len() == 0 {
        Seq::empty()
    } else {
        (match spec_player_from_id(md, tbl[0].1.id, start) {
            Some(pl) => seq![
                PlayerStateSpec {
                    role: pl.position@,
                    team: pl.team@,
                    name: pl.name@,
                    champ: pl.skin@,
                    pos: spec_get_pos(tbl[0].1@, at_ms),
                },
            ],
            None => Seq::empty(),
        }) + spec_snapshot_players(tbl.drop_first(), md, start, at_ms)
    }
}

/// One movement step.  A packet of a tracked player id replaces that
/// player's latest path; when the stream's timestamp stands at least a
/// second past the last emitted snapshot, a snapshot of every known
/// player at the packet's timestamp is emitted.
pub open spec fn spec_path_step(st: PathState, p: PathPacket, md: Metadata, start: u32) -> PathState {
    let tbl2 = if start <= p.id && p.id <= start + 9 {
        tbl_set(st.tbl, p.id as u64, p)
    } else {
        st.tbl
    };
    if p.timestamp_ms >= st.last_ms + 1000 {
        PathState {
            tbl: tbl2,
            last_ms: p.timestamp_ms,
            out: st.out.push(
                SnapshotSpec {
                    timestamp_ms: p.timestamp_ms,
                    players: spec_snapshot_players(tbl2, md, start, p.timestamp_ms),
                },
            ),
        }
    } else {
        PathState { tbl: tbl2, last_ms: st.last_ms, out: st.out }
    }
}

/// Folds the movement pass over the packets, front to back.
pub open spec fn spec_path_from(
    st: PathState,
    packets: Seq<PathPacket>,
    md: Metadata,
    start: u32,
) -> PathState
    decreases packets.len(),
{
    if packets.len() == 0 {
        st
    } else {
        spec_path_from(spec_path_step(st, packets[0], md, start), packets.drop_first(), md, start)
    }
}

/// The empty movement state.
pub open spec fn spec_path_empty() -> PathState {
    PathState { tbl: Seq::empty(), last_ms: 0, out: Seq::empty() }
}

/// The snapshots of a movement packet stream.
pub open spec fn spec_states(packets: Seq<PathPacket>, md: Metadata, start: u32) -> Seq<
    SnapshotSpec,
> {
    spec_path_from(spec_path_empty(), packets, md, start).out
}

/// Builds the periodic player-state snapshots of a movement stream.
#[verifier::loop_isolation(false)]
pub fn build_player_states(packets: Vec<PathPacket>, metadata: &Metadata, player_id_start: u32) -> (r:
    Vec<Snapshot>)
    requires
        forall|i: int|
            0 <= i < packets@.len() ==> wf_waypoints((#[trigger] packets@[i]).waypoints@),
    ensures
        r@.map_values(|s: Snapshot| s@) == spec_states(packets@, *metadata, player_id_start),
{
    let ghost orig = packets@;
    let mut v = packets;
    let mut players: KeyTable<PathPacket> = KeyTable::new();
    let mut last_ms: u32 = 0;
    let mut out: Vec<Snapshot> = Vec::new();
    proof {
        assert(out@.map_values(|s: Snapshot| s@) =~= Seq::<SnapshotSpec>::empty());
        assert((PathState {
            tbl: players.entries@,
            last_ms: last_ms,
            out: out@.map_values(|s: Snapshot| s@),
        }) == spec_path_empty());
    }
    while v.len() > 0
        invariant
            forall|i: int| 0 <= i < v@.len() ==> wf_waypoints((#[trigger] v@[i]).waypoints@),
            forall|i: int|
                0 <= i < players.entries@.len() ==> wf_waypoints(
                    (#[trigger] players.entries@[i]).1.waypoints@,
                ),
            spec_path_from(
                (PathState {
                    tbl: players.entries@,
                    last_ms: last_ms,
                    out: out@.map_values(|s: Snapshot| s@),
                }),
                v@,
                *metadata,
                player_id_start,
            ) == spec_path_from(spec_path_empty(), orig, *metadata, player_id_start),
        decreases v@.len(),
    {
        let ghost st0 = (PathState {
            tbl: players.entries@,
            last_ms: last_ms,
            out: out@.map_values(|s: Snapshot| s@),
        });
        let ghost v0 = v@;
        let p = v.remove(0);
        let ghost gp = p;
        let ts: u32 = p.timestamp_ms;
        let pid: u32 = p.id;
        if player_id_start <= pid && (pid as u64) <= player_id_start as u64 + 9 {
            players.set(pid as u64, p);
            proof {
                assert forall|i: int| 0 <= i < players.entries@.len() implies wf_waypoints(
                    (#[trigger] players.entries@[i]).1.waypoints@,
                ) by {
                    crate::table::lemma_tbl_set_sub(st0.tbl, gp.id as u64, gp, i);
                    if players.entries@[i] != (gp.id as u64, gp) {
                        let j = choose|j: int|
                            0 <= j < st0.tbl.len() && (#[trigger] st0.tbl[j])
                                == players.entries@[i];
                        assert(wf_waypoints(st0.tbl[j].1.waypoints@));
                    }
                }
            }
        }
        if ts as u64 >= last_ms as u64 + 1000 {
            let ghost tbl2 = players.entries@;
            let mut snap_players: Vec<PlayerState> = Vec::new();
            proof {
                assert(tbl2.skip(0) =~= tbl2);
                assert(snap_players@.map_values(|q: PlayerState| q@)
                    =~= Seq::<PlayerStateSpec>::empty());
            }
            let mut i: usize = 0;
            while i < players.entries.len()
                invariant
                    i <= tbl2.len(),
                    players.entries@ == tbl2,
                    forall|j: int|
                        0 <= j < tbl2.len() ==> wf_waypoints((#[trigger] tbl2[j]).1.waypoints@),
                    spec_snapshot_players(tbl2, *metadata, player_id_start, ts)
                        == snap_players@.map_values(|q: PlayerState| q@) + spec_snapshot_players(
                        tbl2.skip(i as int),
                        *metadata,
                        player_id_start,
                        ts,
                    ),
                decreases tbl2.len() - i,
            {
                proof {
                    assert(tbl2.skip(i as int)[0] == tbl2[i as int]);
                    assert(tbl2.skip(i as int).drop_first() =~= tbl2.skip(i as int + 1));
                }
                let ghost sp0 = snap_players@.map_values(|q: PlayerState| q@);
                let eid: u32 = players.entries[i].1.id;
                match metadata.get_player_from_id(eid, player_id_start) {
                    Some(pl) => {
                        let pos: (i32, i32) = players.entries[i].1.get_pos(ts);
                        snap_players.push(
                            PlayerState {
                                role: pl.position.clone(),
                                team: pl.team.clone(),
                                name: pl.name.clone(),
                                champ: pl.skin.clone(),
                                pos,
                            },
                        );
                        proof {
                            assert(snap_players@.map_values(|q: PlayerState| q@) =~= sp0 + seq![
                                PlayerStateSpec {
                                    role: pl.position@,
                                    team: pl.team@,
                                    name: pl.name@,
                                    champ: pl.skin@,
                                    pos: spec_get_pos(tbl2[i as int].1@, ts),
                                },
                            ]);
                            assert(sp0 + (seq![
                                PlayerStateSpec {
                                    role: pl.position@,
                                    team: pl.team@,
                                    name: pl.name@,
                                    champ: pl.skin@,
                                    pos: spec_get_pos(tbl2[i as int].1@, ts),
                                },
                            ] + spec_snapshot_players(
                                tbl2.skip(i as int + 1),
                                *metadata,
                                player_id_start,
                                ts,
                            )) =~= (sp0 + seq![
                                PlayerStateSpec {
                                    role: pl.position@,
                                    team: pl.team@,
                                    name: pl.name@,
                                    champ: pl.skin@,
                                    pos: spec_get_pos(tbl2[i as int].1@, ts),
                                },
                            ]) + spec_snapshot_players(
                                tbl2.skip(i as int + 1),
                                *metadata,
                                player_id_start,
                                ts,
                            ));
                        }
                    },
                    None => {
                        proof {
                            assert(sp0 + (Seq::<PlayerStateSpec>::empty()
                                + spec_snapshot_players(
                                tbl2.skip(i as int + 1),
                                *metadata,
                                player_id_start,
                                ts,
                            )) =~= sp0 + spec_snapshot_players(
                                tbl2.skip(i as int + 1),
                                *metadata,
                                player_id_start,
                                ts,
                            ));
                        }
                    },
                }
                i = i + 1;
            }
            proof {
                assert(spec_snapshot_players(tbl2.skip(tbl2.len() as int), *metadata,
                    player_id_start, ts) =~= Seq::<PlayerStateSpec>::empty());
                assert(snap_players@.map_values(|q: PlayerState| q@) + Seq::<
                    PlayerStateSpec,
                >::empty() =~= snap_players@.map_values(|q: PlayerState| q@));
            }
            let ghost out0 = out@.map_values(|s: Snapshot| s@);
            out.push(Snapshot { timestamp_ms: ts, players: snap_players });
            last_ms = ts;
            proof {
                assert(out@.map_values(|s: Snapshot| s@) =~= out0.push(
                    SnapshotSpec {
                        timestamp_ms: ts,
                        players: spec_snapshot_players(tbl2, *metadata, player_id_start, ts),
                    },
                ));
            }
        }
        proof {
            let st2 = spec_path_step(st0, gp, *metadata, player_id_start);
            assert(v@ =~= v0.drop_first());
            assert(players.entries@ =~= st2.tbl);
            assert(out@.map_values(|s: Snapshot| s@) =~= st2.out);
            assert((PathState {
                tbl: players.entries@,
                last_ms: last_ms,
                out: out@.map_values(|s: Snapshot| s@),
            }) == st2);
        }
    }
    out
}

/// The final report of one replay.
pub struct GameReport {
    pub metadata: Metadata,
    pub wards: Vec<WardEntry>,
    pub players_state: Vec<Snapshot>,
}

/// The ward entries a replay's decoded ward packets yield, after sorting
/// by timestamp.
pub open spec fn spec_report_wards(md: Metadata, wards: Seq<WardSpawnPacket>, start: u32) -> Seq<
    WardEntrySpec,
> {
    spec_correlate(spec_sort_ms(wards), md, start)
}

/// The snapshots a replay's decoded movement packets yield, after sorting
/// by timestamp.
pub open spec fn spec_report_states(md: Metadata, paths: Seq<PathPacket>, start: u32) -> Seq<
    SnapshotSpec,
> {
    spec_states(spec_sort_ms(paths), md, start)
}

/// Assembles the report of one replay from its decoded packets: both
/// streams are sorted by timestamp, ward pairs are correlated, and the
/// periodic snapshots are built.
pub fn get_replay_info(
    metadata: Metadata,
    ward_packets: Vec<WardSpawnPacket>,
    path_packets: Vec<PathPacket>,
    player_id_start: u32,
) -> (r: GameReport)
    requires
        forall|i: int|
            0 <= i < path_packets@.len() ==> wf_waypoints(
                (#[trigger] path_packets@[i]).waypoints@,
            ),
    ensures
        r.metadata == metadata,
        r.wards@.map_values(|e: WardEntry| e@) == spec_report_wards(
            metadata,
            ward_packets@,
            player_id_start,
        ),
        r.players_state@.map_values(|s: Snapshot| s@) == spec_report_states(
            metadata,
            path_packets@,
            player_id_start,
        ),
{
    let ghost paths0 = path_packets@;
    let sorted_wards = sort_by_time(ward_packets);
    let sorted_paths = sort_by_time(path_packets);
    proof {
        lemma_sort_ms_sorted(paths0);
        assert forall|i: int| 0 <= i < sorted_paths@.len() implies wf_waypoints(
            (#[trigger] sorted_paths@[i]).waypoints@,
        ) by {
            assert(paths0.contains(sorted_paths@[i]));
            let j = choose|j: int| 0 <= j < paths0.len() && paths0[j] == sorted_paths@[i];
            assert(wf_waypoints(paths0[j].waypoints@));
        }
    }
    let wards = correlate_wards(sorted_wards, &metadata, player_id_start);
    let players_state = build_player_states(sorted_paths, &metadata, player_id_start);
    GameReport { metadata, wards, players_state }
}

/// Law: the report is a function of the decoded packets and roster alone.
/// Two assemblies over the same inputs yield the same ward entries and
/// the same snapshots; the only stage outside this claim is the emulator
/// decode that produced the packets.
pub proof fn lemma_report_deterministic(
    md: Metadata,
    wards: Seq<WardSpawnPacket>,
    paths: Seq<PathPacket>,
    start: u32,
    r1: GameReport,
    r2: GameReport,
)
    requires
        r1.wards@.map_values(|e: WardEntry| e@) == spec_report_wards(md, wards, start),
        r1.players_state@.map_values(|s: Snapshot| s@) == spec_report_states(md, paths, start),
        r2.wards@.map_values(|e: WardEntry| e@) == spec_report_wards(md, wards, start),
        r2.players_state@.map_values(|s: Snapshot| s@) == spec_report_states(md, paths, start),
    ensures
        r1.wards@.map_values(|e: WardEntry| e@) == r2.wards@.map_values(|e: WardEntry| e@),
        r1.players_state@.map_values(|s: Snapshot| s@) == r2.players_state@.map_values(
            |s: Snapshot| s@,
        ),
{
}

/// Law: every entry the report's ward pass emits carries one of the three
/// placeable ward names, and closes at the timestamp of one of the decoded
/// packets: the placement timestamp plus the duration is exactly that
/// corpse packet's timestamp, so a duration is never negative.
pub proof fn lemma_report_wards_are_wards(md: Metadata, wards: Seq<WardSpawnPacket>, start: u32)
    ensures
        forall|i: int|
            0 <= i < spec_report_wards(md, wards, start).len() ==> spec_is_ward_name(
                (#[trigger] spec_report_wards(md, wards, start)[i]).name,
            ),
        forall|i: int|
            0 <= i < spec_report_wards(md, wards, start).len() ==> exists|j: int|
                0 <= j < wards.len() && (#[trigger] spec_report_wards(
                    md,
                    wards,
                    start,
                )[i]).timestamp_ms + spec_report_wards(md, wards, start)[i].duration_ms
                    == wards[j].timestamp_ms,
{
    lemma_ward_entries_are_wards(spec_corr_empty(), spec_sort_ms(wards), md, start);
    lemma_ward_entry_durations(spec_corr_empty(), spec_sort_ms(wards), md, start);
    lemma_sort_ms_sorted(wards);
    assert forall|i: int| 0 <= i < spec_report_wards(md, wards, start).len() implies exists|j: int|
        0 <= j < wards.len() && (#[trigger] spec_report_wards(md, wards, start)[i]).timestamp_ms
            + spec_report_wards(md, wards, start)[i].duration_ms == wards[j].timestamp_ms by {
        let sorted = spec_sort_ms(wards);
        let res = spec_corr_from(spec_corr_empty(), sorted, md, start);
        let k = choose|k: int|
            0 <= k < sorted.len() && (#[trigger] res.out[i]).timestamp_ms
                + res.out[i].duration_ms == sorted[k].timestamp_ms;
        assert(wards.contains(sorted[k]));
        let j = choose|j: int| 0 <= j < wards.len() && wards[j] == sorted[k];
        assert(res.out[i].timestamp_ms + res.out[i].duration_ms == wards[j].timestamp_ms);
    }
}

} // verus!
