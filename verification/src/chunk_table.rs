//! The table of drawing code per band range.
//!
//! The generation gathers, for each range of bands, the code that runs once
//! per band and the code that runs once per row. The executable table is a
//! hash map keyed by the range; its model is the sequence of entries in the
//! order in which the ranges were first met.

use vstd::prelude::*;
use std::collections::HashMap;
use crate::text;
use crate::text::{push_chars, push_dec, push_str};

verus! {

/// The code gathered for the bands `start ..= end`: `base` runs once per
/// band, `per_pixel` once per row of the band.
pub struct ChunkCode {
    pub start: u16,
    pub end: u16,
    pub base: Seq<char>,
    pub per_pixel: Seq<char>,
}

/// Position of the first entry of `t` for the bands `start ..= end`, or -1.
pub open spec fn key_index(t: Seq<ChunkCode>, start: u16, end: u16) -> int
    decreases t.len(),
{
    if t.len() == 0 {
        -1
    } else if t[0].start == start && t[0].end == end {
        0
    } else {
        let r = key_index(t.drop_first(), start, end);
        if r < 0 { -1 } else { r + 1 }
    }
}

/// `t` after adding `text` to the code of the bands `start ..= end`: to the
/// per-row code when `pixel`, else to the per-band code. A range met for the
/// first time gets a new entry at the end.
pub open spec fn table_insert(t: Seq<ChunkCode>, start: u16, end: u16, text: Seq<char>, pixel: bool) -> Seq<ChunkCode> {
    let k = key_index(t, start, end);
    if k >= 0 {
        let e = t[k];
        t.update(k, if pixel {
            ChunkCode { per_pixel: e.per_pixel + text, ..e }
        } else {
            ChunkCode { base: e.base + text, ..e }
        })
    } else {
        t.push(if pixel {
            ChunkCode { start, end, base: seq![], per_pixel: text }
        } else {
            ChunkCode { start, end, base: text, per_pixel: seq![] }
        })
    }
}

/// The first entry of `t` for a range sits at `j` when none before `j` is
/// for it and the one at `j` is; there is none when no entry is for it.
pub proof fn lemma_key_index(t: Seq<ChunkCode>, start: u16, end: u16, j: int)
    requires
        0 <= j <= t.len(),
        forall|k: int| 0 <= k < j ==> !(t[k].start == start && t[k].end == end),
    ensures
        j < t.len() && t[j].start == start && t[j].end == end ==> key_index(t, start, end) == j,
        j == t.len() ==> key_index(t, start, end) == -1,
    decreases j,
{
    if j > 0 {
        let d = t.drop_first();
        assert forall|k: int| 0 <= k < j - 1 implies !(d[k].start == start && d[k].end == end) by {
            assert(d[k] == t[k + 1]);
        }
        lemma_key_index(d, start, end, j - 1);
    }
}

/// The code of one band range: the per-band code, then the per-row code
/// inside a loop over the rows, if there is any.
pub open spec fn block_code(c: ChunkCode) -> Seq<char> {
    "if (i >= "@ + text::dec(c.start as nat) + " && i <= "@ + text::dec(c.end as nat) + ") {\n"@ + c.base
        + (if c.per_pixel.len() > 0 {
            "for (int o = 0; o<40; o++) {\n"@ + c.per_pixel + "}\n"@
        } else {
            seq![]
        }) + "}\n"@
}

/// The blocks of all entries of `t`, in order.
pub open spec fn blocks_code(t: Seq<ChunkCode>) -> Seq<char>
    decreases t.len(),
{
    if t.len() == 0 {
        seq![]
    } else {
        blocks_code(t.drop_last()) + block_code(t.last())
    }
}

/// `order` holds the entries of `t`, each once: no range occurs twice in
/// it, each of its entries is one of `t` and each entry of `t` is in it.
/// As the ranges of `t` are distinct, it is `t` in some order.
pub open spec fn is_reordering(order: Seq<ChunkCode>, t: Seq<ChunkCode>) -> bool {
    &&& ranges_distinct(order)
    &&& forall|i: int| 0 <= i < order.len() ==> t.contains(#[trigger] order[i])
    &&& forall|j: int| 0 <= j < t.len() ==> order.contains(#[trigger] t[j])
}

/// No two entries of `t` are for the same band range.
pub open spec fn ranges_distinct(t: Seq<ChunkCode>) -> bool {
    forall|i: int, j: int| 0 <= i < j < t.len() ==> !(t[i].start == t[j].start && t[i].end == t[j].end)
}

/// When `key_index` finds no entry, no entry is for the range.
pub proof fn lemma_key_index_absent(t: Seq<ChunkCode>, start: u16, end: u16)
    ensures
        key_index(t, start, end) < t.len(),
        key_index(t, start, end) >= 0 ==> t[key_index(t, start, end)].start == start
            && t[key_index(t, start, end)].end == end,
        key_index(t, start, end) < 0 ==> forall|i: int| 0 <= i < t.len() ==> !(#[trigger] t[i].start == start && t[i].end == end),
    decreases t.len(),
{
    if t.len() > 0 && !(t[0].start == start && t[0].end == end) {
        let d = t.drop_first();
        lemma_key_index_absent(d, start, end);
        assert forall|i: int| 1 <= i < t.len() implies t[i] == d[i - 1] by {}
    }
}

/// Adding code keeps one entry per band range, and the range then has an entry.
pub proof fn lemma_table_insert_distinct(t: Seq<ChunkCode>, start: u16, end: u16, text: Seq<char>, pixel: bool)
    requires
        ranges_distinct(t),
    ensures
        ranges_distinct(table_insert(t, start, end, text, pixel)),
        key_index(table_insert(t, start, end, text, pixel), start, end) >= 0,
{
    lemma_key_index_absent(t, start, end);
    let r = table_insert(t, start, end, text, pixel);
    let k = key_index(t, start, end);
    assert forall|i: int| 0 <= i < r.len() implies r[i].start == t.push(r.last())[i].start
        && r[i].end == t.push(r.last())[i].end by {}
    lemma_key_index_absent(r, start, end);
    if k < 0 {
        assert(r[r.len() - 1].start == start && r[r.len() - 1].end == end);
        lemma_key_index(r, start, end, r.len() - 1);
    } else {
        assert(r[k].start == start && r[k].end == end);
    }
}

/// The code held for the bands `start ..= end` in `t`: its entry, or no code
/// at all when the range has no entry.
pub open spec fn entry_for(t: Seq<ChunkCode>, start: u16, end: u16) -> ChunkCode {
    let k = key_index(t, start, end);
    if k >= 0 {
        t[k]
    } else {
        ChunkCode { start, end, base: seq![], per_pixel: seq![] }
    }
}

/// In a table with one entry per range, the entry at `j` is the one for its range.
pub proof fn lemma_entry_for_index(t: Seq<ChunkCode>, j: int)
    requires
        ranges_distinct(t),
        0 <= j < t.len(),
    ensures
        key_index(t, t[j].start, t[j].end) == j,
        entry_for(t, t[j].start, t[j].end) == t[j],
{
    lemma_key_index(t, t[j].start, t[j].end, j);
}

/// Law of adding code: the code of the range `start ..= end` becomes the
/// code it had (none if the range was new) followed by `text`, in its
/// per-row part when `pixel` and else in its per-band part; the code of
/// every other range stays as it was, and the ranges of the entries already
/// there keep their place.
pub proof fn lemma_table_insert_law(t: Seq<ChunkCode>, start: u16, end: u16, text: Seq<char>, pixel: bool)
    requires
        ranges_distinct(t),
    ensures
        ranges_distinct(table_insert(t, start, end, text, pixel)),
        entry_for(table_insert(t, start, end, text, pixel), start, end) == (ChunkCode {
            start,
            end,
            base: entry_for(t, start, end).base + (if pixel { Seq::<char>::empty() } else { text }),
            per_pixel: entry_for(t, start, end).per_pixel + (if pixel { text } else { Seq::<char>::empty() }),
        }),
        forall|s: u16, e: u16| !(s == start && e == end) ==> #[trigger] entry_for(table_insert(t, start, end, text, pixel), s, e)
            == entry_for(t, s, e),
        forall|j: int| 0 <= j < t.len() ==> #[trigger] table_insert(t, start, end, text, pixel)[j].start == t[j].start
            && table_insert(t, start, end, text, pixel)[j].end == t[j].end,
{
    let r = table_insert(t, start, end, text, pixel);
    lemma_table_insert_distinct(t, start, end, text, pixel);
    lemma_key_index_absent(t, start, end);
    let k = key_index(t, start, end);
    let empty = Seq::<char>::empty();
    if k >= 0 {
        lemma_entry_for_index(r, k);
        assert(t[k].base + empty =~= t[k].base);
        assert(t[k].per_pixel + empty =~= t[k].per_pixel);
    } else {
        lemma_entry_for_index(r, t.len() as int);
        assert(empty + text =~= text);
        assert(empty + empty =~= empty);
    }
    assert forall|s: u16, e: u16| !(s == start && e == end) implies #[trigger] entry_for(r, s, e) == entry_for(t, s, e) by {
        lemma_key_index_absent(t, s, e);
        lemma_key_index_absent(r, s, e);
        let kt = key_index(t, s, e);
        let kr = key_index(r, s, e);
        if kt >= 0 {
            lemma_entry_for_index(t, kt);
            assert(r[kt] == t[kt]);
            lemma_entry_for_index(r, kt);
        } else if kr >= 0 {
            if kr < t.len() {
                assert(t[kr].start == s && t[kr].end == e);
            }
        }
    }
}

/// The code gathered for a band range, as the generation holds it.
pub struct ChunkEntry {
    pub start: u16,
    pub end: u16,
    pub base: Vec<char>,
    pub per_pixel: Vec<char>,
}

impl ChunkEntry {
    pub open spec fn code(self) -> ChunkCode {
        ChunkCode { start: self.start, end: self.end, base: self.base@, per_pixel: self.per_pixel@ }
    }
}

/// The key of the band range `start ..= end` in the table of code.
pub open spec fn range_key(start: u16, end: u16) -> u32 {
    (start * 65536 + end) as u32
}

/// The key of a band range is `start * 65536 + end` without wrapping, so
/// that distinct ranges have distinct keys.
pub proof fn lemma_range_key(start: u16, end: u16)
    ensures
        range_key(start, end) as int == start * 65536 + end,
{
    assert(start * 65536 + end <= 65535 * 65536 + 65535);
}

/// The hash map `m` holds the table `t`: one entry for each of the distinct
/// ranges of `t`, under the range's key, and nothing else.
pub open spec fn holds_table(m: Map<u32, ChunkEntry>, t: Seq<ChunkCode>) -> bool {
    &&& ranges_distinct(t)
    &&& forall|i: int| 0 <= i < t.len() ==> {
        let k = #[trigger] range_key(t[i].start, t[i].end);
        m.contains_key(k) && m[k].code() == t[i]
    }
    &&& forall|k: u32| #[trigger] m.contains_key(k) ==> exists|i: int|
        0 <= i < t.len() && range_key(t[i].start, t[i].end) == k
}

fn range_key_of(start: u16, end: u16) -> (k: u32)
    ensures
        k == range_key(start, end),
{
    proof {
        lemma_range_key(start, end);
    }
    (start as u32) * 65536 + (end as u32)
}

/// Adds `text` to the code of the bands `start ..= end`: to the per-row
/// code when `pixel`, else to the per-band code.
pub(crate) fn insert_chunk_code(
    multi_chunk_code: &mut HashMap<u32, ChunkEntry>,
    Ghost(t): Ghost<Seq<ChunkCode>>,
    start: u16,
    end: u16,
    text: Vec<char>,
    pixel: bool,
)
    requires
        holds_table(old(multi_chunk_code)@, t),
    ensures
        holds_table(final(multi_chunk_code)@, table_insert(t, start, end, text@, pixel)),
{
    broadcast use vstd::std_specs::hash::group_hash_axioms;
    let k = range_key_of(start, end);
    let ghost m0 = multi_chunk_code@;
    proof {
        lemma_range_key(start, end);
        lemma_key_index_absent(t, start, end);
    }
    let ghost idx = key_index(t, start, end);
    match multi_chunk_code.remove(&k) {
        Some(mut e) => {
            proof {
                if idx < 0 {
                    let i = choose|i: int| 0 <= i < t.len() && range_key(t[i].start, t[i].end) == k;
                    lemma_range_key(t[i].start, t[i].end);
                    assert(t[i].start == start && t[i].end == end);
                }
                assert(range_key(t[idx].start, t[idx].end) == k);
                assert(e.code() == t[idx]);
            }
            let mut more = text;
            if pixel {
                e.per_pixel.append(&mut more);
            } else {
                e.base.append(&mut more);
            }
            let ghost ec = e.code();
            multi_chunk_code.insert(k, e);
            proof {
                let t2 = table_insert(t, start, end, text@, pixel);
                assert(t2 == t.update(idx, ec));
                assert forall|i: int| 0 <= i < t2.len() implies {
                    let ki = #[trigger] range_key(t2[i].start, t2[i].end);
                    multi_chunk_code@.contains_key(ki) && multi_chunk_code@[ki].code() == t2[i]
                } by {
                    if i != idx {
                        lemma_range_key(t[i].start, t[i].end);
                        assert(range_key(t[i].start, t[i].end) != k);
                        assert(range_key(t[i].start, t[i].end) == range_key(t2[i].start, t2[i].end));
                    }
                }
                assert forall|kk: u32| #[trigger] multi_chunk_code@.contains_key(kk) implies exists|i: int|
                    0 <= i < t2.len() && range_key(t2[i].start, t2[i].end) == kk by {
                    if kk == k {
                        assert(range_key(t2[idx].start, t2[idx].end) == kk);
                    } else {
                        assert(m0.contains_key(kk));
                        let i = choose|i: int| 0 <= i < t.len() && range_key(t[i].start, t[i].end) == kk;
                        assert(range_key(t2[i].start, t2[i].end) == kk);
                    }
                }
                assert(ranges_distinct(t2)) by {
                    assert forall|i: int, j: int| 0 <= i < j < t2.len() implies
                        !(t2[i].start == t2[j].start && t2[i].end == t2[j].end) by {
                        assert(t2[i].start == t[i].start && t2[i].end == t[i].end);
                        assert(t2[j].start == t[j].start && t2[j].end == t[j].end);
                    }
                }
            }
        },
        None => {
            proof {
                if idx >= 0 {
                    assert(range_key(t[idx].start, t[idx].end) == k);
                }
            }
            let e = if pixel {
                ChunkEntry { start, end, base: Vec::new(), per_pixel: text }
            } else {
                ChunkEntry { start, end, base: text, per_pixel: Vec::new() }
            };
            let ghost ec = e.code();
            multi_chunk_code.insert(k, e);
            proof {
                let t2 = table_insert(t, start, end, text@, pixel);
                assert(t2 == t.push(ec));
                assert forall|i: int| 0 <= i < t2.len() implies {
                    let ki = #[trigger] range_key(t2[i].start, t2[i].end);
                    multi_chunk_code@.contains_key(ki) && multi_chunk_code@[ki].code() == t2[i]
                } by {
                    if i < t.len() {
                        lemma_range_key(t[i].start, t[i].end);
                        assert(!(t[i].start == start && t[i].end == end));
                        assert(range_key(t[i].start, t[i].end) != k);
                        assert(range_key(t[i].start, t[i].end) == range_key(t2[i].start, t2[i].end));
                    }
                }
                assert forall|kk: u32| #[trigger] multi_chunk_code@.contains_key(kk) implies exists|i: int|
                    0 <= i < t2.len() && range_key(t2[i].start, t2[i].end) == kk by {
                    if kk == k {
                        assert(range_key(t2[t.len() as int].start, t2[t.len() as int].end) == kk);
                    } else {
                        assert(m0.contains_key(kk));
                        let i = choose|i: int| 0 <= i < t.len() && range_key(t[i].start, t[i].end) == kk;
                        assert(range_key(t2[i].start, t2[i].end) == kk);
                    }
                }
                lemma_table_insert_distinct(t, start, end, text@, pixel);
            }
        },
    }
}

/// Appends the code of one band range.
fn push_block(out: &mut Vec<char>, entry: &ChunkEntry)
    ensures
        final(out)@ == old(out)@ + block_code(entry.code()),
{
    push_str(out, "if (i >= ");
    push_dec(out, entry.start as u64);
    push_str(out, " && i <= ");
    push_dec(out, entry.end as u64);
    push_str(out, ") {\n");
    push_chars(out, &entry.base);
    if entry.per_pixel.len() > 0 {
        push_str(out, "for (int o = 0; o<40; o++) {\n");
        push_chars(out, &entry.per_pixel);
        push_str(out, "}\n");
    }
    push_str(out, "}\n");
    assert(final(out)@ =~= old(out)@ + block_code(entry.code()));
}

/// The blocks of the table held in `multi_chunk_code`, in the order in which
/// the map hands its entries out: that order is a reordering of the table.
pub(crate) fn push_blocks(out: &mut Vec<char>, multi_chunk_code: &HashMap<u32, ChunkEntry>, Ghost(t): Ghost<Seq<ChunkCode>>)
    requires
        holds_table(multi_chunk_code@, t),
    ensures
        exists|order: Seq<ChunkCode>| is_reordering(order, t) && final(out)@ == old(out)@ + blocks_code(order),
{
    broadcast use vstd::std_specs::hash::group_hash_axioms;
    let iter = multi_chunk_code.iter();
    let ghost v = vstd::std_specs::iter::IteratorSpec::remaining(&iter);
    let ghost order = v.map_values(|p: (&u32, &ChunkEntry)| p.1.code());
    for p in it: iter
        invariant
            it.seq() == v,
            out@ == old(out)@ + blocks_code(order.take(it.index() as int)),
            order == v.map_values(|p: (&u32, &ChunkEntry)| p.1.code()),
    {
        let ghost before = out@;
        push_block(out, p.1);
        proof {
            let i = it.index() as int;
            assert(order.take(i + 1).drop_last() =~= order.take(i));
            assert(order[i] == p.1.code());
        }
    }
    proof {
        assert(order.take(order.len() as int) =~= order);
        let m = multi_chunk_code@;
        assert forall|i: int| 0 <= i < order.len() implies t.contains(#[trigger] order[i]) by {
            let k = *v[i].0;
            assert(m.contains_key(k) && m[k] == *v[i].1);
            let j = choose|j: int| 0 <= j < t.len() && range_key(t[j].start, t[j].end) == k;
            assert(m[range_key(t[j].start, t[j].end)].code() == t[j]);
            assert(t[j] == order[i]);
        }
        assert forall|j: int| 0 <= j < t.len() implies order.contains(#[trigger] t[j]) by {
            let k = range_key(t[j].start, t[j].end);
            assert(m.contains_key(k));
            assert(v.contains((&k, &m[k])));
            let i = choose|i: int| 0 <= i < v.len() && v[i] == (&k, &m[k]);
            assert(order[i] == t[j]);
        }
        assert forall|i: int, j: int| 0 <= i < j < order.len() implies
            !(order[i].start == order[j].start && order[i].end == order[j].end) by {
            let ki = *v[i].0;
            let kj = *v[j].0;
            assert(m.contains_key(ki) && m[ki] == *v[i].1);
            assert(m.contains_key(kj) && m[kj] == *v[j].1);
            let a = choose|a: int| 0 <= a < t.len() && range_key(t[a].start, t[a].end) == ki;
            let b = choose|b: int| 0 <= b < t.len() && range_key(t[b].start, t[b].end) == kj;
            assert(m[range_key(t[a].start, t[a].end)].code() == t[a]);
            assert(m[range_key(t[b].start, t[b].end)].code() == t[b]);
            if order[i].start == order[j].start && order[i].end == order[j].end {
                assert(ki == kj);
                assert(v[i] == v[j]);
            }
        }
        assert(out@ == old(out)@ + blocks_code(order));
        assert(is_reordering(order, t));
    }
}

} // verus!
